//! Floor-rounded multiply-divide with an explicit widen-compute-narrow
//! strategy: the 128-bit operands are multiplied into a 256-bit intermediate
//! held as two 128-bit halves, divided there, and the quotient is narrowed
//! back only after it is known to fit.

use vstd::arithmetic::div_mod::{
    lemma_basic_div, lemma_div_basics, lemma_div_by_multiple, lemma_div_denominator,
    lemma_div_is_ordered,
    lemma_div_pos_is_pos, lemma_fundamental_div_mod, lemma_fundamental_div_mod_converse,
    lemma_mod_breakdown, lemma_mod_division_less_than_divisor, lemma_mod_mod,
    lemma_mod_multiples_basic, lemma_small_mod,
};
use vstd::arithmetic::mul::{lemma_mul_inequality, lemma_mul_upper_bound};
use vstd::arithmetic::power2::{
    lemma2_to64, lemma2_to64_rest, lemma_pow2_adds, lemma_pow2_pos, lemma_pow2_strictly_increases,
    lemma_pow2_unfold, pow2,
};
use vstd::prelude::*;

use crate::PoolError;

verus! {

/// `floor(a * b / d)`: the value every fixed-point routine of this crate is
/// held to. On the non-negative operands used throughout, the Euclidean
/// division of the ghost integers coincides with flooring.
pub open spec fn mul_div(a: int, b: int, d: int) -> int {
    a * b / d
}

/// 2^64, the split point between the two halves of a `u128`.
pub const HALF_WORD: u128 = 0x1_0000_0000_0000_0000;

/// 2^64 as a ghost integer.
pub open spec fn b64() -> int {
    0x1_0000_0000_0000_0000
}

/// 2^128 as a ghost integer: the weight of the high half of a 256-bit value.
pub open spec fn b128() -> int {
    0x1_0000_0000_0000_0000_0000_0000_0000_0000int
}

/// Splits `x` at 2^64: `x == r.0 * 2^64 + r.1`, with both halves below 2^64.
fn split_half_words(x: u128) -> (r: (u128, u128))
    ensures
        x == (r.0 as int) * b64() + (r.1 as int),
        r.0 < HALF_WORD,
        r.1 < HALF_WORD,
{
    proof {
        lemma_fundamental_div_mod(x as int, b64());
        lemma_mod_division_less_than_divisor(x as int, b64());
        lemma_div_is_ordered(x as int, u128::MAX as int, b64());
    }
    (x / HALF_WORD, x % HALF_WORD)
}

/// The full 256-bit product of two 128-bit values, as (high, low) halves:
/// `r.0 * 2^128 + r.1 == x * y`. Schoolbook multiplication over 64-bit limbs;
/// no intermediate sum can overflow.
fn wide_mul(x: u128, y: u128) -> (r: (u128, u128))
    ensures
        (r.0 as int) * b128() + (r.1 as int) == (x as int) * (y as int),
{
    let (x1, x0) = split_half_words(x);
    let (y1, y0) = split_half_words(y);
    proof {
        assert((b64() - 1) * (b64() - 1) <= u128::MAX) by (nonlinear_arith);
        lemma_mul_upper_bound(x0 as int, b64() - 1, y0 as int, b64() - 1);
        lemma_mul_upper_bound(x0 as int, b64() - 1, y1 as int, b64() - 1);
        lemma_mul_upper_bound(x1 as int, b64() - 1, y0 as int, b64() - 1);
        lemma_mul_upper_bound(x1 as int, b64() - 1, y1 as int, b64() - 1);
    }
    let p00 = x0 * y0;
    let p01 = x0 * y1;
    let p10 = x1 * y0;
    let p11 = x1 * y1;
    let (p00h, p00l) = split_half_words(p00);
    let (p01h, p01l) = split_half_words(p01);
    let (p10h, p10l) = split_half_words(p10);
    let mid = p00h + p01l + p10l;
    let (midh, midl) = split_half_words(mid);
    proof {
        lemma_div_is_ordered(p01 as int, (b64() - 1) * (b64() - 1), b64());
        lemma_div_is_ordered(p10 as int, (b64() - 1) * (b64() - 1), b64());
        lemma_div_is_ordered(mid as int, 3 * b64() - 3, b64());
        assert((b64() - 1) * (b64() - 1) == (b64() - 2) * b64() + 1) by (nonlinear_arith);
        lemma_fundamental_div_mod_converse((b64() - 1) * (b64() - 1), b64(), b64() - 2, 1);
        lemma_fundamental_div_mod_converse(3 * b64() - 3, b64(), 2, b64() - 3);
        assert((b64() - 1) * (b64() - 1) + 2 * (b64() - 2) + 2 <= u128::MAX) by (nonlinear_arith);
        assert(p01h == p01 as int / b64() && p10h == p10 as int / b64() && midh == mid as int
            / b64()) by {
            lemma_fundamental_div_mod_converse(p01 as int, b64(), p01h as int, p01l as int);
            lemma_fundamental_div_mod_converse(p10 as int, b64(), p10h as int, p10l as int);
            lemma_fundamental_div_mod_converse(mid as int, b64(), midh as int, midl as int);
        }
    }
    let lo = midl * HALF_WORD + p00l;
    let hi = p11 + p01h + p10h + midh;
    proof {
        assert((hi as int) * b128() + (lo as int) == (p11 as int) * b128() + (p01 as int) * b64()
            + (p10 as int) * b64() + (p00 as int)) by (nonlinear_arith)
            requires
                hi == p11 + p01h + p10h + midh,
                lo == (midl as int) * b64() + p00l,
                mid == p00h + p01l + p10l,
                mid == (midh as int) * b64() + midl,
                p00 == (p00h as int) * b64() + p00l,
                p01 == (p01h as int) * b64() + p01l,
                p10 == (p10h as int) * b64() + p10l,
                b128() == b64() * b64(),
        ;
        assert((p11 as int) * b128() + (p01 as int) * b64() + (p10 as int) * b64() + (p00 as int)
            == (x as int) * (y as int)) by (nonlinear_arith)
            requires
                x == (x1 as int) * b64() + x0,
                y == (y1 as int) * b64() + y0,
                p00 == (x0 as int) * (y0 as int),
                p01 == (x0 as int) * (y1 as int),
                p10 == (x1 as int) * (y0 as int),
                p11 == (x1 as int) * (y1 as int),
                b128() == b64() * b64(),
        ;
    }
    (hi, lo)
}

/// 2^127, the weight of the top bit of a `u128`.
const TOP_BIT: u128 = 0x8000_0000_0000_0000_0000_0000_0000_0000;

/// `2^e` as a ghost integer, for mixing with signed ghost arithmetic.
pub open spec fn pow2i(e: nat) -> int {
    pow2(e) as int
}

/// Concrete values of the powers of two that the division proof pivots on.
proof fn lemma_pow2_constants()
    ensures
        pow2i(0) == 1,
        pow2i(64) == b64(),
        pow2i(127) == 0x8000_0000_0000_0000_0000_0000_0000_0000int,
        pow2i(128) == b128(),
{
    lemma2_to64();
    lemma2_to64_rest();
    lemma_pow2_adds(64, 63);
    lemma_pow2_adds(64, 64);
    assert(0x1_0000_0000_0000_0000int * 0x8000_0000_0000_0000int
        == 0x8000_0000_0000_0000_0000_0000_0000_0000int) by (nonlinear_arith);
    assert(0x1_0000_0000_0000_0000int * 0x1_0000_0000_0000_0000int == b128())
        by (nonlinear_arith);
}

/// One step of binary long division: peeling the top bit off the `k` bits of
/// `lo` still to be processed relates the quotients by consecutive powers of
/// two.
proof fn lemma_bit_step(lo: int, k: nat)
    requires
        1 <= k <= 128,
        0 <= lo < pow2i(128),
    ensures
        pow2i(k) == 2 * pow2i((k - 1) as nat),
        0 <= (lo % pow2i(k)) / pow2i((k - 1) as nat) < 2,
        lo / pow2i((k - 1) as nat) == 2 * (lo / pow2i(k)) + (lo % pow2i(k)) / pow2i(
            (k - 1) as nat,
        ),
        (lo % pow2i(k)) % pow2i((k - 1) as nat) == lo % pow2i((k - 1) as nat),
{
    let h = pow2i((k - 1) as nat);
    lemma_pow2_unfold(k);
    lemma_pow2_pos((k - 1) as nat);
    lemma_mod_breakdown(lo, h, 2);
    let b = (lo / h) % 2;
    lemma_div_pos_is_pos(lo, h);
    lemma_mod_division_less_than_divisor(lo / h, 2);
    lemma_mod_division_less_than_divisor(lo, h);
    lemma_fundamental_div_mod_converse(h * b + lo % h, h, b, lo % h);
    assert((lo % pow2i(k)) / h == b);
    assert((lo % pow2i(k)) % h == lo % h);
    lemma_div_denominator(lo, h, 2);
    lemma_fundamental_div_mod(lo / h, 2);
}

/// How the register holding the unprocessed low bits evolves: with `k` bits
/// left, the register equals `(lo mod 2^k) * 2^(128-k)`; its top bit is the
/// next quotient bit and clearing it leaves the register for `k - 1` bits.
proof fn lemma_rem_track(lo: int, k: nat)
    requires
        1 <= k <= 128,
        0 <= lo < pow2i(128),
    ensures
        ((lo % pow2i(k)) * pow2i((128 - k) as nat)) / pow2i(127) == (lo % pow2i(k)) / pow2i(
            (k - 1) as nat,
        ),
        ((lo % pow2i(k)) * pow2i((128 - k) as nat)) % pow2i(127) == (lo % pow2i((k - 1) as nat))
            * pow2i((128 - k) as nat),
        (lo % pow2i(k)) * pow2i((128 - k) as nat) < pow2i(128),
{
    let i = (128 - k) as nat;
    let h = pow2i((k - 1) as nat);
    let pi = pow2i(i);
    let m = lo % pow2i(k);
    lemma_pow2_pos((k - 1) as nat);
    lemma_pow2_pos(i);
    lemma_pow2_pos(k);
    lemma_pow2_adds(i, (k - 1) as nat);
    assert(pow2i(127) == pi * h);
    lemma_mod_division_less_than_divisor(lo, pow2i(k));
    lemma_div_denominator(m * pi, pi, h);
    lemma_div_by_multiple(m, pi);
    assert((m * pi) / pow2i(127) == m / h);
    lemma_mod_breakdown(m * pi, pi, h);
    lemma_mod_multiples_basic(m, pi);
    lemma_pow2_unfold(k);
    lemma_mod_mod(lo, h, 2);
    assert(m % h == lo % h);
    assert((m * pi) % pow2i(127) == pi * (lo % h));
    assert(pi * (lo % h) == (lo % h) * pi) by (nonlinear_arith);
    lemma_mul_inequality(m, pow2i(k) - 1, pi);
    lemma_pow2_adds(k, i);
    assert((pow2i(k) - 1) * pi == pow2i(k) * pi - pi) by (nonlinear_arith);
    assert(m * pi < pow2i(128));
}

/// Divides the 256-bit value `hi * 2^128 + lo` by `d`, by shift-and-subtract
/// binary long division over the 128 low bits. The quotient fits in a `u128`
/// because `hi < d`.
fn wide_div(hi: u128, lo: u128, d: u128) -> (q: u128)
    requires
        0 < d <= i128::MAX as u128,
        hi < d,
    ensures
        q == ((hi as int) * b128() + (lo as int)) / (d as int),
{
    let mut q: u128 = 0;
    let mut r: u128 = hi;
    let mut rem: u128 = lo;
    let mut i: usize = 0;
    proof {
        lemma_pow2_constants();
        lemma_basic_div(lo as int, pow2i(128));
        lemma_small_mod(lo as nat, pow2(128));
    }
    while i < 128
        invariant
            i <= 128,
            0 < d <= i128::MAX as u128,
            r < d,
            (q as int) * (d as int) + (r as int) == (hi as int) * pow2i(i as nat) + (lo as int)
                / pow2i((128 - i) as nat),
            (rem as int) == ((lo as int) % pow2i((128 - i) as nat)) * pow2i(i as nat),
            (q as int) < pow2i(i as nat),
        decreases 128 - i,
    {
        let ghost k = (128 - i) as nat;
        proof {
            lemma_pow2_constants();
            lemma_bit_step(lo as int, k);
            lemma_rem_track(lo as int, k);
            lemma_pow2_unfold((i + 1) as nat);
            if i < 127 {
                lemma_pow2_strictly_increases(i as nat, 127);
            }
            assert(pow2i(i as nat) <= pow2i(127));
        }
        let bit = rem / TOP_BIT;
        proof {
            assert((bit as int) == ((lo as int) % pow2i(k)) / pow2i((k - 1) as nat));
            assert(bit <= 1);
        }
        rem = (rem % TOP_BIT) * 2;
        proof {
            assert((rem as int) == (((lo as int) % pow2i((k - 1) as nat)) * pow2i(i as nat)) * 2);
            assert((rem as int) == ((lo as int) % pow2i((k - 1) as nat)) * pow2i((i + 1) as nat))
                by (nonlinear_arith)
                requires
                    (rem as int) == (((lo as int) % pow2i((k - 1) as nat)) * pow2i(i as nat)) * 2,
                    pow2i((i + 1) as nat) == 2 * pow2i(i as nat),
            ;
        }
        let ghost q_old: int = q as int;
        let ghost r_old: int = r as int;
        r = r * 2 + bit;
        q = q * 2;
        proof {
            assert((q as int) * (d as int) == 2 * (q_old * (d as int))) by (nonlinear_arith)
                requires
                    (q as int) == 2 * q_old,
            ;
        }
        if r >= d {
            r = r - d;
            q = q + 1;
            proof {
                assert((q as int) * (d as int) == 2 * (q_old * (d as int)) + (d as int))
                    by (nonlinear_arith)
                    requires
                        (q as int) == 2 * q_old + 1,
                ;
            }
        }
        proof {
            assert((hi as int) * pow2i((i + 1) as nat) == 2 * ((hi as int) * pow2i(i as nat)))
                by (nonlinear_arith)
                requires
                    pow2i((i + 1) as nat) == 2 * pow2i(i as nat),
            ;
            assert((q as int) * (d as int) + (r as int) == (hi as int) * pow2i((i + 1) as nat) + (
            lo as int) / pow2i((k - 1) as nat));
        }
        i = i + 1;
    }
    proof {
        lemma_pow2_constants();
        lemma_div_basics(lo as int);
        lemma_fundamental_div_mod_converse(
            (hi as int) * b128() + (lo as int),
            d as int,
            q as int,
            r as int,
        );
    }
    q
}

/// `floor(a * b / d)` over non-negative 128-bit fixed-point values, widening
/// to a 256-bit intermediate so that the product itself can never overflow.
/// Fails with `DivisionByZero` when `d == 0`, and with `Overflow` exactly
/// when the final quotient does not fit back into an `i128`.
pub fn mul_div_floor(a: i128, b: i128, d: i128) -> (r: Result<i128, PoolError>)
    requires
        a >= 0,
        b >= 0,
        d >= 0,
    ensures
        d == 0 ==> r == Err::<i128, PoolError>(PoolError::DivisionByZero),
        d > 0 && mul_div(a as int, b as int, d as int) <= i128::MAX ==> r
            == Ok::<i128, PoolError>((mul_div(a as int, b as int, d as int)) as i128),
        d > 0 && mul_div(a as int, b as int, d as int) > i128::MAX ==> r == Err::<
            i128,
            PoolError,
        >(PoolError::Overflow),
{
    if d == 0 {
        return Err(PoolError::DivisionByZero);
    }
    let (hi, lo) = wide_mul(a as u128, b as u128);
    let du = d as u128;
    if hi >= du {
        // The quotient is at least 2^128: hi * 2^128 + lo >= d * 2^128.
        proof {
            lemma_mul_inequality(du as int, hi as int, b128());
            lemma_div_is_ordered(
                (du as int) * b128(),
                (hi as int) * b128() + (lo as int),
                du as int,
            );
            vstd::arithmetic::div_mod::lemma_div_multiples_vanish(b128(), du as int);
        }
        return Err(PoolError::Overflow);
    }
    let q = wide_div(hi, lo, du);
    if q > i128::MAX as u128 {
        Err(PoolError::Overflow)
    } else {
        Ok(q as i128)
    }
}

} // verus!
