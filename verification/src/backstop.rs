//! Share/token conversion for the backstop pool: bidirectional floor-rounded
//! pricing between the pool's internal share unit and its underlying token
//! unit. Both directions round in the protocol's favour, so a round trip can
//! never manufacture value.

use vstd::arithmetic::div_mod::{
    lemma_div_by_multiple, lemma_div_is_ordered, lemma_div_nonincreasing, lemma_div_of0,
    lemma_div_pos_is_pos, lemma_fundamental_div_mod, lemma_mod_division_less_than_divisor,
};
use vstd::arithmetic::mul::lemma_mul_nonnegative;
use vstd::prelude::*;

use crate::fixed::{mul_div, mul_div_floor};
use crate::PoolError;

verus! {

/// A backstop pool's accounting unit: total outstanding shares and the
/// underlying tokens backing them.
#[derive(Clone, Copy, Debug, PartialEq, Eq, Structural)]
pub struct PoolBalance {
    pub shares: i128,
    pub tokens: i128,
}

/// What a pool with outstanding shares prices `shares_in` at:
/// `floor(shares_in * tokens / shares)`, and one-to-one while no share is
/// outstanding.
pub open spec fn to_tokens(pb: PoolBalance, shares_in: int) -> int {
    if pb.shares == 0 {
        shares_in
    } else {
        mul_div(shares_in, pb.tokens as int, pb.shares as int)
    }
}

/// What a pool with outstanding shares prices `tokens_in` at:
/// `floor(tokens_in * shares / tokens)`, and one-to-one while no share is
/// outstanding.
pub open spec fn to_shares(pb: PoolBalance, tokens_in: int) -> int {
    if pb.shares == 0 {
        tokens_in
    } else {
        mul_div(tokens_in, pb.shares as int, pb.tokens as int)
    }
}

impl PoolBalance {
    /// Both pool quantities are non-negative.
    pub open spec fn well_formed(self) -> bool {
        self.shares >= 0 && self.tokens >= 0
    }

    /// Converts a share amount into the token amount it is backed by,
    /// rounding down.
    pub fn convert_to_tokens(&self, shares_in: i128) -> (r: Result<i128, PoolError>)
        requires
            self.well_formed(),
            shares_in >= 0,
        ensures
            self.shares == 0 ==> r == Ok::<i128, PoolError>(shares_in),
            self.shares > 0 && to_tokens(*self, shares_in as int) <= i128::MAX ==> r == Ok::<
                i128,
                PoolError,
            >(to_tokens(*self, shares_in as int) as i128),
            self.shares > 0 && to_tokens(*self, shares_in as int) > i128::MAX ==> r == Err::<
                i128,
                PoolError,
            >(PoolError::Overflow),
    {
        if self.shares == 0 {
            return Ok(shares_in);
        }
        mul_div_floor(shares_in, self.tokens, self.shares)
    }

    /// Converts a token amount into the share amount it buys, rounding down.
    /// Fails with `DivisionByZero` when shares are outstanding but no token
    /// backs them, which only a corrupted pool state can produce.
    pub fn convert_to_shares(&self, tokens_in: i128) -> (r: Result<i128, PoolError>)
        requires
            self.well_formed(),
            tokens_in >= 0,
        ensures
            self.shares == 0 ==> r == Ok::<i128, PoolError>(tokens_in),
            self.shares > 0 && self.tokens == 0 ==> r == Err::<i128, PoolError>(
                PoolError::DivisionByZero,
            ),
            self.shares > 0 && self.tokens > 0 && to_shares(*self, tokens_in as int)
                <= i128::MAX ==> r == Ok::<i128, PoolError>(
                to_shares(*self, tokens_in as int) as i128,
            ),
            self.shares > 0 && self.tokens > 0 && to_shares(*self, tokens_in as int)
                > i128::MAX ==> r == Err::<i128, PoolError>(PoolError::Overflow),
    {
        if self.shares == 0 {
            return Ok(tokens_in);
        }
        mul_div_floor(tokens_in, self.shares, self.tokens)
    }
}

/// Floor-rounding a value through a ratio and back never gains:
/// `floor(floor(x * s / t) * t / s) <= x`.
pub proof fn lemma_round_trip(x: int, s: int, t: int)
    requires
        x >= 0,
        s > 0,
        t > 0,
    ensures
        0 <= mul_div(mul_div(x, s, t), t, s) <= x,
{
    let y = mul_div(x, s, t);
    lemma_mul_nonnegative(x, s);
    lemma_div_pos_is_pos(x * s, t);
    lemma_fundamental_div_mod(x * s, t);
    lemma_mod_division_less_than_divisor(x * s, t);
    assert(y * t <= x * s) by (nonlinear_arith)
        requires
            x * s == t * y + (x * s) % t,
            (x * s) % t >= 0,
    ;
    lemma_div_is_ordered(y * t, x * s, s);
    lemma_div_by_multiple(x, s);
    lemma_mul_nonnegative(y, t);
    lemma_div_pos_is_pos(y * t, s);
}

/// Zero-conversion identity: converting zero yields zero in both directions,
/// for every uncorrupted pool state.
pub proof fn lemma_conversion_of_zero(pb: PoolBalance)
    requires
        pb.well_formed(),
        pb.shares > 0 ==> pb.tokens > 0,
    ensures
        to_tokens(pb, 0) == 0,
        to_shares(pb, 0) == 0,
{
    if pb.shares != 0 {
        lemma_div_of0(pb.shares as int);
        lemma_div_of0(pb.tokens as int);
    }
}

/// Zero-shares passthrough: while no share is outstanding, both conversions
/// are the identity whatever the pool's token balance.
pub proof fn lemma_zero_shares_passthrough(pb: PoolBalance, x: int)
    requires
        pb.shares == 0,
    ensures
        to_shares(pb, x) == x,
        to_tokens(pb, x) == x,
{
}

/// Round-trip non-inflation: tokens converted to shares and back never grow.
pub proof fn lemma_token_round_trip(pb: PoolBalance, x: int)
    requires
        pb.shares > 0,
        pb.tokens > 0,
        x >= 0,
    ensures
        0 <= to_tokens(pb, to_shares(pb, x)) <= x,
{
    lemma_round_trip(x, pb.shares as int, pb.tokens as int);
}

/// Round-trip non-inflation: shares converted to tokens and back never grow.
pub proof fn lemma_share_round_trip(pb: PoolBalance, x: int)
    requires
        pb.shares > 0,
        pb.tokens > 0,
        x >= 0,
    ensures
        0 <= to_shares(pb, to_tokens(pb, x)) <= x,
{
    lemma_round_trip(x, pb.tokens as int, pb.shares as int);
}

/// Single-width variant of the share-to-token conversion, over a pool
/// modelled by two 64-bit signed quantities.
pub fn certora_convert_to_tokens(pool_shares: i64, pool_tokens: i64, shares: i64) -> (r: i64)
    requires
        pool_shares >= 0,
        pool_tokens >= 0,
        shares >= 0,
        pool_shares > 0 ==> shares * pool_tokens <= i64::MAX,
    ensures
        pool_shares == 0 ==> r == shares,
        pool_shares > 0 ==> r == mul_div(shares as int, pool_tokens as int, pool_shares as int),
{
    if pool_shares == 0 {
        return shares;
    }
    let product = (shares as u64) * (pool_tokens as u64);
    proof {
        lemma_div_nonincreasing(product as int, pool_shares as int);
    }
    (product / (pool_shares as u64)) as i64
}

/// Single-width variant of the token-to-share conversion, over a pool
/// modelled by two 64-bit signed quantities.
pub fn certora_convert_to_shares(pool_shares: i64, pool_tokens: i64, tokens: i64) -> (r: i64)
    requires
        pool_shares >= 0,
        pool_tokens > 0 || pool_shares == 0,
        tokens >= 0,
        pool_shares > 0 ==> tokens * pool_shares <= i64::MAX,
    ensures
        pool_shares == 0 ==> r == tokens,
        pool_shares > 0 ==> r == mul_div(tokens as int, pool_shares as int, pool_tokens as int),
{
    if pool_shares == 0 {
        return tokens;
    }
    let product = (tokens as u64) * (pool_shares as u64);
    proof {
        lemma_div_nonincreasing(product as int, pool_tokens as int);
    }
    (product / (pool_tokens as u64)) as i64
}

} // verus!
