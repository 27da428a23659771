use blend_core::backstop::{
    certora_convert_to_shares, certora_convert_to_tokens, PoolBalance,
};
use blend_core::fixed::mul_div_floor;
use blend_core::PoolError;

#[test]
fn mul_div_floor_rounds_down_exactly() {
    assert_eq!(mul_div_floor(6, 7, 4), Ok(10)); // 42 / 4 rounds down
    assert_eq!(mul_div_floor(0, 123456789, 7), Ok(0));
    assert_eq!(mul_div_floor(1, 1, 3), Ok(0));
}

#[test]
fn mul_div_floor_widens_past_the_native_range() {
    // The product 10^20 * 10^19 = 10^39 exceeds the 128-bit range; the
    // quotient 10^30 still comes out exact.
    let a: i128 = 100_000_000_000_000_000_000;
    let b: i128 = 10_000_000_000_000_000_000;
    let d: i128 = 1_000_000_000;
    assert_eq!(
        mul_div_floor(a, b, d),
        Ok(1_000_000_000_000_000_000_000_000_000_000)
    );
}

#[test]
fn mul_div_floor_division_by_zero() {
    assert_eq!(mul_div_floor(5, 5, 0), Err(PoolError::DivisionByZero));
}

#[test]
fn mul_div_floor_overflow() {
    assert_eq!(
        mul_div_floor(i128::MAX, i128::MAX, 1),
        Err(PoolError::Overflow)
    );
    assert_eq!(
        mul_div_floor(i128::MAX, 2, 1),
        Err(PoolError::Overflow)
    );
}

#[test]
fn conversion_of_zero() {
    // Converting zero units of tokens or shares yields zero units.
    let pool_balance = PoolBalance {
        shares: 40_0000000,
        tokens: 90_0000000,
    };
    assert_eq!(pool_balance.convert_to_tokens(0), Ok(0));
    assert_eq!(pool_balance.convert_to_shares(0), Ok(0));

    let empty_pool = PoolBalance { shares: 0, tokens: 0 };
    assert_eq!(empty_pool.convert_to_tokens(0), Ok(0));
    assert_eq!(empty_pool.convert_to_shares(0), Ok(0));
}

#[test]
fn conversion_pool_zero_shares() {
    // token -> shares gives tokens back while the pool has no shares.
    let pool_balance = PoolBalance {
        shares: 0,
        tokens: 75_0000000,
    };
    assert_eq!(pool_balance.convert_to_shares(33_0000000), Ok(33_0000000));
    assert_eq!(pool_balance.convert_to_tokens(12_0000000), Ok(12_0000000));
}

#[test]
fn conversion_rounds_down() {
    let pool_balance = PoolBalance { shares: 3, tokens: 7 };
    assert_eq!(pool_balance.convert_to_shares(10), Ok(4)); // 30 / 7
    assert_eq!(pool_balance.convert_to_tokens(4), Ok(9)); // 28 / 3
}

#[test]
fn token_round_trip_never_inflates() {
    let pool_balance = PoolBalance {
        shares: 123_4567890,
        tokens: 987_6543210,
    };
    let tokens_in: i128 = 55_5555555;
    let shares = pool_balance.convert_to_shares(tokens_in).unwrap();
    let tokens_out = pool_balance.convert_to_tokens(shares).unwrap();
    assert!(tokens_out <= tokens_in);
}

#[test]
fn share_round_trip_never_inflates() {
    let pool_balance = PoolBalance {
        shares: 123_4567890,
        tokens: 987_6543210,
    };
    let shares_in: i128 = 55_5555555;
    let tokens = pool_balance.convert_to_tokens(shares_in).unwrap();
    let shares_out = pool_balance.convert_to_shares(tokens).unwrap();
    assert!(shares_out <= shares_in);
}

#[test]
fn conversion_with_no_backing_tokens_faults() {
    // Shares outstanding but no token backs them: a corrupted pool state.
    let pool_balance = PoolBalance { shares: 5, tokens: 0 };
    assert_eq!(
        pool_balance.convert_to_shares(3),
        Err(PoolError::DivisionByZero)
    );
}

#[test]
fn conversion_overflow_faults() {
    let pool_balance = PoolBalance {
        shares: 1,
        tokens: i128::MAX,
    };
    assert_eq!(
        pool_balance.convert_to_tokens(2),
        Err(PoolError::Overflow)
    );
}

#[test]
fn simple_conversions_match_the_wide_ones() {
    assert_eq!(certora_convert_to_tokens(3, 7, 4), 9);
    assert_eq!(certora_convert_to_shares(3, 7, 10), 4);
    assert_eq!(certora_convert_to_tokens(0, 7, 4), 4);
    assert_eq!(certora_convert_to_shares(0, 7, 10), 10);
}

#[test]
fn simple_token_roundtrip_never_inflates() {
    let pool_shares: i64 = 1234567;
    let pool_tokens: i64 = 7654321;
    let tokens: i64 = 99999;
    let shares = certora_convert_to_shares(pool_shares, pool_tokens, tokens);
    let tokens_res = certora_convert_to_tokens(pool_shares, pool_tokens, shares);
    assert!(tokens >= tokens_res);
}

#[test]
fn simple_share_roundtrip_never_inflates() {
    let pool_shares: i64 = 1234567;
    let pool_tokens: i64 = 7654321;
    let shares: i64 = 99999;
    let tokens = certora_convert_to_tokens(pool_shares, pool_tokens, shares);
    let shares_res = certora_convert_to_shares(pool_shares, pool_tokens, tokens);
    assert!(shares >= shares_res);
}
