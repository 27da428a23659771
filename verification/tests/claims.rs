use blend_core::claim::{execute_claim, ClaimState, ReserveSnapshot};
use blend_core::emissions::{ReserveEmissionData, UserEmissionData};
use blend_core::PoolError;

/// Two configured reserves: reserve 0
/// with 5 decimals, reserve 1 with 9 decimals; the user owes on reserve 0's
/// liability side and holds reserve 1's supply side (collateral plus
/// supply).
fn two_reserve_state() -> ClaimState {
    let reserve_0 = ReserveSnapshot {
        scalar: 100000,
        d_supply: 50_00000,
        b_supply: 100_00000,
        d_balance: 2_00000,
        b_balance: 0,
    };
    let reserve_1 = ReserveSnapshot {
        scalar: 1_000_000_000,
        d_supply: 50_000_000_000,
        b_supply: 100_000_000_000,
        d_balance: 0,
        b_balance: 2_000_000_000,
    };
    ClaimState {
        reserves: vec![reserve_0, reserve_1],
        emissions: vec![None, None, None, None],
        user: vec![None, None, None, None],
    }
}

#[test]
fn test_execute_claim() {
    let mut state = two_reserve_state();

    let reserve_emission_data_0 = ReserveEmissionData {
        expiration: 1600000000,
        eps: 0_01000000000000,
        index: 23456780000000,
        last_time: 1500000000,
    };
    let user_emission_data_0 = UserEmissionData {
        index: 12345670000000,
        accrued: 0_1000000,
    };
    let res_token_index_0 = 0 * 2 + 0; // d_token for reserve 0

    let reserve_emission_data_1 = ReserveEmissionData {
        expiration: 1600000000,
        eps: 0_01500000000000,
        index: 13456780000000,
        last_time: 1500000000,
    };
    let user_emission_data_1 = UserEmissionData {
        index: 12345670000000,
        accrued: 1_0000000,
    };
    let res_token_index_1 = 1 * 2 + 1; // b_token for reserve 1

    state.emissions[res_token_index_0] = Some(reserve_emission_data_0);
    state.user[res_token_index_0] = Some(user_emission_data_0);
    state.emissions[res_token_index_1] = Some(reserve_emission_data_1);
    state.user[res_token_index_1] = Some(user_emission_data_1);

    let reserve_token_ids: Vec<u32> = vec![res_token_index_0 as u32, res_token_index_1 as u32];
    let (new_state, result) = execute_claim(&state, &reserve_token_ids, 1501000000).unwrap();

    let new_reserve_emission_data = new_state.emissions[res_token_index_0].unwrap();
    let new_user_emission_data = new_state.user[res_token_index_0].unwrap();
    assert_eq!(new_reserve_emission_data.last_time, 1501000000);
    assert_eq!(new_user_emission_data.index, new_reserve_emission_data.index);
    assert_eq!(new_user_emission_data.accrued, 0);

    let new_reserve_emission_data_1 = new_state.emissions[res_token_index_1].unwrap();
    let new_user_emission_data_1 = new_state.user[res_token_index_1].unwrap();
    assert_eq!(new_reserve_emission_data_1.last_time, 1501000000);
    assert_eq!(new_user_emission_data_1.index, new_reserve_emission_data_1.index);
    assert_eq!(new_user_emission_data_1.accrued, 0);
    assert_eq!(result, 400_3222222 + 301_0222222);
}

#[test]
fn test_execute_claim_with_already_claimed_reserve() {
    let mut state = two_reserve_state();

    let reserve_emission_data_0 = ReserveEmissionData {
        expiration: 1600000000,
        eps: 0_01000000000000,
        index: 23456780000000,
        last_time: 1500000000,
    };
    let user_emission_data_0 = UserEmissionData {
        index: 12345670000000,
        accrued: 0_1000000,
    };
    let res_token_index_0 = 0 * 2 + 0; // d_token for reserve 0

    // Reserve 1's stream was already advanced and claimed at this instant.
    let reserve_emission_data_1 = ReserveEmissionData {
        expiration: 1600000000,
        eps: 0_01500000000000,
        index: 13456780000000,
        last_time: 1501000000,
    };
    let user_emission_data_1 = UserEmissionData {
        index: 13456780000000,
        accrued: 0,
    };
    let res_token_index_1 = 1 * 2 + 1; // b_token for reserve 1

    state.emissions[res_token_index_0] = Some(reserve_emission_data_0);
    state.user[res_token_index_0] = Some(user_emission_data_0);
    state.emissions[res_token_index_1] = Some(reserve_emission_data_1);
    state.user[res_token_index_1] = Some(user_emission_data_1);

    let reserve_token_ids: Vec<u32> = vec![res_token_index_0 as u32, res_token_index_1 as u32];
    let (new_state, result) = execute_claim(&state, &reserve_token_ids, 1501000000).unwrap();

    let new_reserve_emission_data = new_state.emissions[res_token_index_0].unwrap();
    let new_user_emission_data = new_state.user[res_token_index_0].unwrap();
    assert_eq!(new_reserve_emission_data.last_time, 1501000000);
    assert_eq!(new_user_emission_data.index, new_reserve_emission_data.index);
    assert_eq!(new_user_emission_data.accrued, 0);

    let new_reserve_emission_data_1 = new_state.emissions[res_token_index_1].unwrap();
    let new_user_emission_data_1 = new_state.user[res_token_index_1].unwrap();
    assert_eq!(new_reserve_emission_data_1.last_time, 1501000000);
    assert_eq!(new_user_emission_data_1.index, new_reserve_emission_data_1.index);
    assert_eq!(new_user_emission_data_1.accrued, 0);
    assert_eq!(result, 400_3222222);
}

#[test]
fn calc_claim_with_invalid_reserve_aborts_whole_batch() {
    // A claim batch naming an asset index with no configured reserve must
    // abort the entire batch: no state comes back to persist, so no partial
    // accrual can be committed.
    let mut state = two_reserve_state();

    state.emissions[0] = Some(ReserveEmissionData {
        expiration: 1600000000,
        eps: 0_01000000000000,
        index: 2345678,
        last_time: 1500000000,
    });
    state.user[0] = Some(UserEmissionData {
        index: 1234567,
        accrued: 0_1000000,
    });
    state.emissions[3] = Some(ReserveEmissionData {
        expiration: 1600000000,
        eps: 0_01500000000000,
        index: 1345678,
        last_time: 1500000000,
    });
    state.user[3] = Some(UserEmissionData {
        index: 1234567,
        accrued: 1_0000000,
    });

    let reserve_token_ids: Vec<u32> = vec![0, 3, 6];
    let result = execute_claim(&state, &reserve_token_ids, 1501000000);

    assert!(matches!(result, Err(PoolError::InvalidStreamId)));
    // The input state is untouched; the caller persists nothing.
    assert_eq!(state.emissions[0].unwrap().last_time, 1500000000);
    assert_eq!(state.emissions[3].unwrap().last_time, 1500000000);
}

#[test]
fn claim_with_missing_emission_record_pays_nothing() {
    let state = two_reserve_state();
    let reserve_token_ids: Vec<u32> = vec![1, 2];
    let (new_state, result) = execute_claim(&state, &reserve_token_ids, 1501000000).unwrap();
    assert_eq!(result, 0);
    assert_eq!(new_state.emissions, vec![None, None, None, None]);
    assert_eq!(new_state.user, vec![None, None, None, None]);
}

#[test]
fn claim_with_duplicate_ids_pays_each_stream_once() {
    // The second pass over the same id sees the already-advanced stream and
    // the zeroed snapshot, so it pays nothing more.
    let mut state = two_reserve_state();
    state.emissions[0] = Some(ReserveEmissionData {
        expiration: 1600000000,
        eps: 0_01000000000000,
        index: 23456780000000,
        last_time: 1500000000,
    });
    state.user[0] = Some(UserEmissionData {
        index: 12345670000000,
        accrued: 0_1000000,
    });

    let reserve_token_ids: Vec<u32> = vec![0, 0];
    let (_, result) = execute_claim(&state, &reserve_token_ids, 1501000000).unwrap();
    assert_eq!(result, 400_3222222);
}
