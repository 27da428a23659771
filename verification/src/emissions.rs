//! The accrual engine: advancing a reward stream's cumulative index from
//! elapsed time and total supply, and reconciling a user's snapshot against
//! the advanced index. Callers load the records from storage, hand them in as
//! plain values, and persist what comes back; a failing call returns an error
//! and nothing to persist.

use vstd::arithmetic::div_mod::lemma_div_pos_is_pos;
use vstd::arithmetic::mul::{lemma_mul_nonnegative, lemma_mul_upper_bound};
use vstd::prelude::*;

use crate::fixed::{mul_div, mul_div_floor};
use crate::{PoolError, SCALAR_7};

verus! {

/// One reward stream's stored record: a cumulative, monotonically
/// non-decreasing reward-per-unit-of-supply index, the time of its last
/// advance, the time accrual stops, and the emission rate per second.
#[derive(Clone, Copy, Debug, PartialEq, Eq, Structural)]
pub struct ReserveEmissionData {
    pub expiration: u64,
    pub eps: u64,
    pub index: i128,
    pub last_time: u64,
}

impl ReserveEmissionData {
    /// The stored index is a non-negative fixed-point quantity.
    pub open spec fn well_formed(self) -> bool {
        self.index >= 0
    }
}

/// One user's stored snapshot of a stream: the stream index at the last
/// reconciliation, and the unclaimed reward accrued so far.
#[derive(Clone, Copy, Debug, PartialEq, Eq, Structural)]
pub struct UserEmissionData {
    pub index: i128,
    pub accrued: i128,
}

impl UserEmissionData {
    /// Both stored quantities are non-negative fixed-point values.
    pub open spec fn well_formed(self) -> bool {
        self.index >= 0 && self.accrued >= 0
    }
}

/// An advance is a no-op when the stream is already fully accrued, was
/// already advanced at this instant, is disabled, or has nothing to divide
/// by.
pub open spec fn advance_noop(d: ReserveEmissionData, supply: int, now: int) -> bool {
    d.last_time >= d.expiration || now == d.last_time || d.eps == 0 || supply == 0
}

/// The effective timestamp of an advance: `now`, clamped to the stream's
/// expiration.
pub open spec fn clamped_time(d: ReserveEmissionData, now: int) -> int {
    if now > d.expiration {
        d.expiration as int
    } else {
        now
    }
}

/// Total emissions over the elapsed period: elapsed time times the emission
/// rate.
pub open spec fn emitted(d: ReserveEmissionData, now: int) -> int {
    (clamped_time(d, now) - d.last_time) * d.eps
}

/// The per-unit-of-supply index increment of an advance:
/// `floor(emitted * scalar / supply)`.
pub open spec fn index_gain(d: ReserveEmissionData, supply: int, scalar: int, now: int) -> int {
    mul_div(emitted(d, now), scalar, supply)
}

/// What advancing a stream yields: the unchanged record on a no-op, an
/// `Underflow` fault when time ran backwards, an `Overflow` fault when a
/// fixed-point result leaves the 128-bit range, and otherwise the record with
/// its index grown by the gain and its timestamp moved to the effective time.
pub open spec fn advance_result(
    d: ReserveEmissionData,
    supply: int,
    scalar: int,
    now: int,
) -> Result<ReserveEmissionData, PoolError> {
    if advance_noop(d, supply, now) {
        Ok(d)
    } else if clamped_time(d, now) < d.last_time {
        Err(PoolError::Underflow)
    } else if emitted(d, now) > i128::MAX {
        Err(PoolError::Overflow)
    } else if index_gain(d, supply, scalar, now) > i128::MAX || d.index + index_gain(
        d,
        supply,
        scalar,
        now,
    ) > i128::MAX {
        Err(PoolError::Overflow)
    } else {
        Ok(
            ReserveEmissionData {
                expiration: d.expiration,
                eps: d.eps,
                index: (d.index + index_gain(d, supply, scalar, now)) as i128,
                last_time: clamped_time(d, now) as u64,
            },
        )
    }
}

/// Advances a reward stream's emission data to `now`.
///
/// Returns `Ok(None)` when no emission record exists (no update is
/// required), `Ok(Some(updated))` with the record to persist otherwise, and
/// an error when the advance faults; on an error nothing may be persisted.
pub fn update_emission_data(
    emis_data: &Option<ReserveEmissionData>,
    supply: i128,
    supply_scalar: i128,
    now: u64,
) -> (r: Result<Option<ReserveEmissionData>, PoolError>)
    requires
        emis_data matches Some(d) ==> d.well_formed(),
        supply >= 0,
        supply_scalar >= 0,
    ensures
        match *emis_data {
            None => r == Ok::<Option<ReserveEmissionData>, PoolError>(None),
            Some(d) => match advance_result(d, supply as int, supply_scalar as int, now as int) {
                Ok(d2) => r == Ok::<Option<ReserveEmissionData>, PoolError>(Some(d2)),
                Err(e) => r == Err::<Option<ReserveEmissionData>, PoolError>(e),
            },
        },
{
    let d = match emis_data {
        None => {
            return Ok(None);
        },
        Some(d) => d,
    };
    if d.last_time >= d.expiration || now == d.last_time || d.eps == 0 || supply == 0 {
        return Ok(Some(*d));
    }
    let ts = if now > d.expiration {
        d.expiration
    } else {
        now
    };
    if ts < d.last_time {
        return Err(PoolError::Underflow);
    }
    let dt = ts - d.last_time;
    proof {
        assert((u64::MAX as int) * (u64::MAX as int) <= u128::MAX) by (nonlinear_arith);
        lemma_mul_upper_bound(dt as int, u64::MAX as int, d.eps as int, u64::MAX as int);
    }
    let raw = (dt as u128) * (d.eps as u128);
    if raw > i128::MAX as u128 {
        return Err(PoolError::Overflow);
    }
    let gain = match mul_div_floor(raw as i128, supply_scalar, supply) {
        Ok(g) => g,
        Err(e) => {
            return Err(e);
        },
    };
    proof {
        lemma_mul_nonnegative(emitted(*d, now as int), supply_scalar as int);
        lemma_div_pos_is_pos(emitted(*d, now as int) * (supply_scalar as int), supply as int);
    }
    let index = match d.index.checked_add(gain) {
        Some(v) => v,
        None => {
            return Err(PoolError::Overflow);
        },
    };
    Ok(
        Some(
            ReserveEmissionData {
                expiration: d.expiration,
                eps: d.eps,
                index,
                last_time: ts,
            },
        ),
    )
}

/// The denominator that converts an index delta weighted by a balance back
/// into token units: the reserve's own scalar times the protocol scalar.
pub open spec fn accrual_denominator(scalar: int) -> int {
    scalar * (SCALAR_7 as int)
}

/// How a reconciliation settles: a claim pays the whole accrual out and
/// stores zero; otherwise the accrual is stored and nothing is paid.
pub open spec fn settle(index: i128, accrued: i128, claim: bool) -> (UserEmissionData, i128) {
    if claim {
        (UserEmissionData { index, accrued: 0 }, accrued)
    } else {
        (UserEmissionData { index, accrued }, 0)
    }
}

/// What reconciling a user snapshot against an advanced stream yields.
///
/// With no prior snapshot, a zero balance starts a fresh snapshot at the
/// current index with nothing owed; a non-zero balance is owed all
/// historical emissions since stream inception. With a prior snapshot, an
/// unchanged index without a claim changes nothing; otherwise the snapshot
/// must not be ahead of the stream (`NegativeIndexDelta`), a non-zero
/// balance accrues the index delta weighted by the balance, and the snapshot
/// index moves to the stream index regardless.
pub open spec fn reconcile_result(
    res: ReserveEmissionData,
    prior: Option<UserEmissionData>,
    scalar: int,
    balance: int,
    claim: bool,
) -> Result<(UserEmissionData, i128), PoolError> {
    match prior {
        Some(u) => {
            if u.index == res.index && !claim {
                Ok((u, 0))
            } else if res.index < u.index {
                Err(PoolError::NegativeIndexDelta)
            } else if balance != 0 {
                let denom = accrual_denominator(scalar);
                if denom == 0 {
                    Err(PoolError::DivisionByZero)
                } else if denom > i128::MAX {
                    Err(PoolError::Overflow)
                } else {
                    let gained = mul_div(balance, res.index - u.index, denom);
                    if gained > i128::MAX || u.accrued + gained > i128::MAX {
                        Err(PoolError::Overflow)
                    } else {
                        Ok(settle(res.index, (u.accrued + gained) as i128, claim))
                    }
                }
            } else {
                Ok(settle(res.index, u.accrued, claim))
            }
        },
        None => {
            if balance == 0 {
                Ok(settle(res.index, 0, claim))
            } else {
                let denom = accrual_denominator(scalar);
                if denom == 0 {
                    Err(PoolError::DivisionByZero)
                } else if denom > i128::MAX {
                    Err(PoolError::Overflow)
                } else {
                    let owed = mul_div(balance, res.index as int, denom);
                    if owed > i128::MAX {
                        Err(PoolError::Overflow)
                    } else {
                        Ok(settle(res.index, owed as i128, claim))
                    }
                }
            }
        },
    }
}

/// Settles a reconciled accrual: the snapshot to store, and the payout.
fn set_user_emissions(index: i128, accrued: i128, claim: bool) -> (r: (UserEmissionData, i128))
    ensures
        r == settle(index, accrued, claim),
{
    if claim {
        (UserEmissionData { index, accrued: 0 }, accrued)
    } else {
        (UserEmissionData { index, accrued }, 0)
    }
}

/// Reconciles a user's snapshot against an advanced stream record.
///
/// Returns the snapshot to persist and the payout, which is zero unless
/// `claim` is set; on an error nothing may be persisted.
pub fn update_user_emissions(
    res: &ReserveEmissionData,
    prior: &Option<UserEmissionData>,
    supply_scalar: i128,
    balance: i128,
    claim: bool,
) -> (r: Result<(UserEmissionData, i128), PoolError>)
    requires
        res.well_formed(),
        prior matches Some(u) ==> u.well_formed(),
        supply_scalar >= 0,
        balance >= 0,
    ensures
        r == reconcile_result(*res, *prior, supply_scalar as int, balance as int, claim),
{
    let u = match prior {
        None => {
            if balance == 0 {
                return Ok(set_user_emissions(res.index, 0, claim));
            }
            let denom = match supply_scalar.checked_mul(SCALAR_7) {
                Some(v) => v,
                None => {
                    proof {
                        lemma_mul_nonnegative(supply_scalar as int, SCALAR_7 as int);
                    }
                    return Err(PoolError::Overflow);
                },
            };
            let owed = match mul_div_floor(balance, res.index, denom) {
                Ok(v) => v,
                Err(e) => {
                    return Err(e);
                },
            };
            return Ok(set_user_emissions(res.index, owed, claim));
        },
        Some(u) => u,
    };
    if u.index == res.index && !claim {
        return Ok((*u, 0));
    }
    if res.index < u.index {
        return Err(PoolError::NegativeIndexDelta);
    }
    if balance != 0 {
        let denom = match supply_scalar.checked_mul(SCALAR_7) {
            Some(v) => v,
            None => {
                proof {
                    lemma_mul_nonnegative(supply_scalar as int, SCALAR_7 as int);
                }
                return Err(PoolError::Overflow);
            },
        };
        let gained = match mul_div_floor(balance, res.index - u.index, denom) {
            Ok(v) => v,
            Err(e) => {
                return Err(e);
            },
        };
        proof {
            lemma_mul_nonnegative(balance as int, (res.index - u.index) as int);
            if denom > 0 {
                lemma_div_pos_is_pos((balance as int) * ((res.index - u.index) as int),
                    denom as int);
            }
        }
        let total = match u.accrued.checked_add(gained) {
            Some(v) => v,
            None => {
                return Err(PoolError::Overflow);
            },
        };
        Ok(set_user_emissions(res.index, total, claim))
    } else {
        Ok(set_user_emissions(res.index, u.accrued, claim))
    }
}

/// What one full advance-then-reconcile pass yields: nothing to persist when
/// no emission record exists, otherwise the advanced record, the new
/// snapshot, and the payout.
pub open spec fn claim_outcome(
    emis: Option<ReserveEmissionData>,
    prior: Option<UserEmissionData>,
    supply: int,
    scalar: int,
    now: int,
    balance: int,
    claim: bool,
) -> Result<(Option<(ReserveEmissionData, UserEmissionData)>, i128), PoolError> {
    match emis {
        None => Ok((None, 0)),
        Some(d) => match advance_result(d, supply, scalar, now) {
            Err(e) => Err(e),
            Ok(d2) => match reconcile_result(d2, prior, scalar, balance, claim) {
                Err(e) => Err(e),
                Ok((u2, pay)) => Ok((Some((d2, u2)), pay)),
            },
        },
    }
}

/// A successful advance never decreases the stored index or timestamp, and
/// keeps the record well-formed.
pub proof fn lemma_advance_monotonic(d: ReserveEmissionData, supply: int, scalar: int, now: int)
    requires
        d.well_formed(),
        supply >= 0,
        scalar >= 0,
        advance_result(d, supply, scalar, now) is Ok,
    ensures
        advance_result(d, supply, scalar, now)->Ok_0.index >= d.index,
        advance_result(d, supply, scalar, now)->Ok_0.last_time >= d.last_time,
        advance_result(d, supply, scalar, now)->Ok_0.well_formed(),
{
    if !advance_noop(d, supply, now) {
        lemma_mul_nonnegative(clamped_time(d, now) - d.last_time, d.eps as int);
        lemma_mul_nonnegative(emitted(d, now), scalar);
        lemma_div_pos_is_pos(emitted(d, now) * scalar, supply);
    }
}

/// The stored record after any sequence of advances, each feeding the next.
pub open spec fn advance_many(
    d: ReserveEmissionData,
    supply: int,
    scalar: int,
    nows: Seq<int>,
) -> Result<ReserveEmissionData, PoolError>
    decreases nows.len(),
{
    if nows.len() == 0 {
        Ok(d)
    } else {
        match advance_result(d, supply, scalar, nows[0]) {
            Err(e) => Err(e),
            Ok(d1) => advance_many(d1, supply, scalar, nows.skip(1)),
        }
    }
}

/// Index monotonicity: across any sequence of successful advances, however
/// the timestamps are chosen, the stored index never decreases.
pub proof fn lemma_index_monotonic(
    d: ReserveEmissionData,
    supply: int,
    scalar: int,
    nows: Seq<int>,
)
    requires
        d.well_formed(),
        supply >= 0,
        scalar >= 0,
        advance_many(d, supply, scalar, nows) is Ok,
    ensures
        advance_many(d, supply, scalar, nows)->Ok_0.index >= d.index,
        advance_many(d, supply, scalar, nows)->Ok_0.last_time >= d.last_time,
        advance_many(d, supply, scalar, nows)->Ok_0.well_formed(),
    decreases nows.len(),
{
    if nows.len() > 0 {
        lemma_advance_monotonic(d, supply, scalar, nows[0]);
        let d1 = advance_result(d, supply, scalar, nows[0])->Ok_0;
        lemma_index_monotonic(d1, supply, scalar, nows.skip(1));
    }
}

/// A no-op condition leaves the stored record identical: advancing at the
/// same instant, with a disabled stream, with no supply, or past full
/// accrual returns the input record unchanged.
pub proof fn lemma_noop_preserves_record(
    d: ReserveEmissionData,
    supply: int,
    scalar: int,
    now: int,
)
    requires
        advance_noop(d, supply, now),
    ensures
        advance_result(d, supply, scalar, now) == Ok::<ReserveEmissionData, PoolError>(d),
{
}

/// The accrual stored before a reconciliation, zero when no snapshot exists.
pub open spec fn stored_accrual(prior: Option<UserEmissionData>) -> int {
    match prior {
        Some(u) => u.accrued as int,
        None => 0,
    }
}

/// The reward newly computed by a reconciliation: the balance-weighted index
/// delta, against the whole index when no snapshot exists, and zero for a
/// zero balance.
pub open spec fn fresh_accrual(
    res: ReserveEmissionData,
    prior: Option<UserEmissionData>,
    scalar: int,
    balance: int,
) -> int {
    if balance == 0 {
        0
    } else {
        match prior {
            Some(u) => mul_div(balance, res.index - u.index, accrual_denominator(scalar)),
            None => mul_div(balance, res.index as int, accrual_denominator(scalar)),
        }
    }
}

/// A claim zeroes the stored accrual, and pays out exactly the pre-claim
/// accrual plus the newly computed delta.
pub proof fn lemma_claim_zeroes_accrual(
    res: ReserveEmissionData,
    prior: Option<UserEmissionData>,
    scalar: int,
    balance: int,
)
    requires
        res.well_formed(),
        prior matches Some(u) ==> u.well_formed(),
        scalar >= 0,
        balance >= 0,
        reconcile_result(res, prior, scalar, balance, true) is Ok,
    ensures
        reconcile_result(res, prior, scalar, balance, true)->Ok_0.0.accrued == 0,
        reconcile_result(res, prior, scalar, balance, true)->Ok_0.1 == stored_accrual(prior)
            + fresh_accrual(res, prior, scalar, balance),
{
    lemma_mul_nonnegative(scalar, SCALAR_7 as int);
    let denom = accrual_denominator(scalar);
    if balance != 0 && denom > 0 {
        match prior {
            Some(u) => {
                if res.index >= u.index {
                    lemma_mul_nonnegative(balance, res.index - u.index);
                    lemma_div_pos_is_pos(balance * (res.index - u.index), denom);
                }
            },
            None => {
                lemma_mul_nonnegative(balance, res.index as int);
                lemma_div_pos_is_pos(balance * (res.index as int), denom);
            },
        }
    }
}

/// A successful reconciliation stores a well-formed snapshot whose index is
/// the stream's, and pays out a non-negative amount.
pub proof fn lemma_reconcile_wf(
    res: ReserveEmissionData,
    prior: Option<UserEmissionData>,
    scalar: int,
    balance: int,
    claim: bool,
)
    requires
        res.well_formed(),
        prior matches Some(u) ==> u.well_formed(),
        scalar >= 0,
        balance >= 0,
        reconcile_result(res, prior, scalar, balance, claim) is Ok,
    ensures
        reconcile_result(res, prior, scalar, balance, claim)->Ok_0.0.well_formed(),
        reconcile_result(res, prior, scalar, balance, claim)->Ok_0.0.index == res.index,
        reconcile_result(res, prior, scalar, balance, claim)->Ok_0.1 >= 0,
{
    lemma_mul_nonnegative(scalar, SCALAR_7 as int);
    let denom = accrual_denominator(scalar);
    if balance != 0 && denom > 0 {
        match prior {
            Some(u) => {
                if res.index >= u.index {
                    lemma_mul_nonnegative(balance, res.index - u.index);
                    lemma_div_pos_is_pos(balance * (res.index - u.index), denom);
                }
            },
            None => {
                lemma_mul_nonnegative(balance, res.index as int);
                lemma_div_pos_is_pos(balance * (res.index as int), denom);
            },
        }
    }
}

/// Advances a stream to `now` and reconciles a user against it, without
/// claiming. Returns the records to persist, or `None` when no emission
/// record exists; on an error nothing may be persisted.
pub fn update_emissions(
    emis: &Option<ReserveEmissionData>,
    prior: &Option<UserEmissionData>,
    supply: i128,
    supply_scalar: i128,
    now: u64,
    balance: i128,
) -> (r: Result<Option<(ReserveEmissionData, UserEmissionData)>, PoolError>)
    requires
        emis matches Some(d) ==> d.well_formed(),
        prior matches Some(u) ==> u.well_formed(),
        supply >= 0,
        supply_scalar >= 0,
        balance >= 0,
    ensures
        match claim_outcome(
            *emis,
            *prior,
            supply as int,
            supply_scalar as int,
            now as int,
            balance as int,
            false,
        ) {
            Ok((w, _)) => r == Ok::<Option<(ReserveEmissionData, UserEmissionData)>, PoolError>(w),
            Err(e) => r == Err::<Option<(ReserveEmissionData, UserEmissionData)>, PoolError>(e),
        },
{
    match claim_or_update(emis, prior, supply, supply_scalar, now, balance, false) {
        Ok((w, _)) => Ok(w),
        Err(e) => Err(e),
    }
}

/// Advances a stream to `now` and reconciles a user against it with a claim:
/// the payout is the user's whole accrual, and the snapshot to persist holds
/// zero. Returns the records to persist, or `None` and a zero payout when no
/// emission record exists; on an error nothing may be persisted.
pub fn claim_emissions(
    emis: &Option<ReserveEmissionData>,
    prior: &Option<UserEmissionData>,
    supply: i128,
    supply_scalar: i128,
    now: u64,
    balance: i128,
) -> (r: Result<(Option<(ReserveEmissionData, UserEmissionData)>, i128), PoolError>)
    requires
        emis matches Some(d) ==> d.well_formed(),
        prior matches Some(u) ==> u.well_formed(),
        supply >= 0,
        supply_scalar >= 0,
        balance >= 0,
    ensures
        r == claim_outcome(
            *emis,
            *prior,
            supply as int,
            supply_scalar as int,
            now as int,
            balance as int,
            true,
        ),
{
    claim_or_update(emis, prior, supply, supply_scalar, now, balance, true)
}

/// One advance-then-reconcile pass, shared by the claiming and non-claiming
/// entry points.
fn claim_or_update(
    emis: &Option<ReserveEmissionData>,
    prior: &Option<UserEmissionData>,
    supply: i128,
    supply_scalar: i128,
    now: u64,
    balance: i128,
    claim: bool,
) -> (r: Result<(Option<(ReserveEmissionData, UserEmissionData)>, i128), PoolError>)
    requires
        emis matches Some(d) ==> d.well_formed(),
        prior matches Some(u) ==> u.well_formed(),
        supply >= 0,
        supply_scalar >= 0,
        balance >= 0,
    ensures
        r == claim_outcome(
            *emis,
            *prior,
            supply as int,
            supply_scalar as int,
            now as int,
            balance as int,
            claim,
        ),
{
    match update_emission_data(emis, supply, supply_scalar, now) {
        Err(e) => Err(e),
        Ok(None) => Ok((None, 0)),
        Ok(Some(d2)) => {
            proof {
                match *emis {
                    Some(d0) => lemma_advance_monotonic(
                        d0,
                        supply as int,
                        supply_scalar as int,
                        now as int,
                    ),
                    None => (),
                }
            }
            match update_user_emissions(&d2, prior, supply_scalar, balance, claim) {
                Err(e) => Err(e),
                Ok((u2, pay)) => Ok((Some((d2, u2)), pay)),
            }
        },
    }
}

} // verus!
