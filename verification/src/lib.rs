//! Reward-emission accrual core for a multi-asset lending protocol.
//!
//! Each reward-bearing position tracks a monotonically non-decreasing
//! per-unit-of-supply index; a participant's owed reward is derived by
//! comparing a stored personal snapshot of that index against its current
//! value, weighted by the participant's balance. The companion backstop
//! module prices deposits and withdrawals by a floor-rounded conversion
//! between pool shares and underlying tokens.
//!
//! Storage persistence, token transfers and the time source are
//! collaborators: callers read the records, hand them in as plain values,
//! and persist or pay out what comes back.

use vstd::prelude::*;

pub mod backstop;
pub mod claim;
pub mod emissions;
pub mod fixed;

verus! {

/// Fixed-point normalization constant applied uniformly so that index units
/// and balance units compose: seven decimal places, the protocol's token
/// convention.
pub const SCALAR_7: i128 = 10_000_000;

/// The failure conditions of the accrual and conversion core. A failing call
/// commits no state change: callers discard everything computed during it.
#[derive(Clone, Copy, Debug, PartialEq, Eq, Structural)]
pub enum PoolError {
    /// A conversion denominator was zero.
    DivisionByZero,
    /// A fixed-point result left the representable range.
    Overflow,
    /// Time ran backwards: the effective timestamp fell before the stream's
    /// last update.
    Underflow,
    /// A stored user snapshot was ahead of its stream's index, which only a
    /// storage or sequencing fault can produce.
    NegativeIndexDelta,
    /// A claim batch named a reserve that is not configured.
    InvalidStreamId,
}

} // verus!
