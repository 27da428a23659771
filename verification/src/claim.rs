//! The claim orchestrator: drives accrual with a claim across a
//! caller-supplied sequence of reserve token ids and aggregates the payout.
//! It runs against a plain snapshot of the pool's records; the caller
//! persists the returned state and transfers the returned total. A failing
//! batch returns only the error, so no partial claim can ever be committed.

use vstd::prelude::*;

use crate::emissions::{
    claim_emissions, claim_outcome, lemma_advance_monotonic, lemma_reconcile_wf,
    ReserveEmissionData, UserEmissionData,
};
use crate::PoolError;

verus! {

/// The side of a reserve that a composite token id addresses.
#[derive(Clone, Copy, Debug, PartialEq, Eq, Structural)]
pub enum ReserveSide {
    /// The liability-bearing (debt) token, addressed by even ids.
    Liability,
    /// The supply/collateral-bearing token, addressed by odd ids.
    Supply,
}

/// What the collaborators hand over for one configured reserve when a user
/// claims: the reserve's fixed-point scalar, the total supply of each side's
/// token, and the claiming user's balance on each side.
#[derive(Clone, Copy, Debug, PartialEq, Eq, Structural)]
pub struct ReserveSnapshot {
    pub scalar: i128,
    pub d_supply: i128,
    pub b_supply: i128,
    pub d_balance: i128,
    pub b_balance: i128,
}

impl ReserveSnapshot {
    /// Every quantity of a reserve snapshot is non-negative.
    pub open spec fn well_formed(self) -> bool {
        self.scalar >= 0 && self.d_supply >= 0 && self.b_supply >= 0 && self.d_balance >= 0
            && self.b_balance >= 0
    }
}

/// The records a claim batch runs against: the configured reserves, and the
/// emission record and user snapshot per reserve token id. The stream for
/// reserve `i`'s liability token sits at position `2 * i`, its supply token
/// at `2 * i + 1`.
pub struct ClaimState {
    pub reserves: Vec<ReserveSnapshot>,
    pub emissions: Vec<Option<ReserveEmissionData>>,
    pub user: Vec<Option<UserEmissionData>>,
}

/// The mathematical model of a `ClaimState`.
pub struct ClaimStateView {
    pub reserves: Seq<ReserveSnapshot>,
    pub emissions: Seq<Option<ReserveEmissionData>>,
    pub user: Seq<Option<UserEmissionData>>,
}

impl View for ClaimState {
    type V = ClaimStateView;

    open spec fn view(&self) -> ClaimStateView {
        ClaimStateView {
            reserves: self.reserves@,
            emissions: self.emissions@,
            user: self.user@,
        }
    }
}

impl ClaimStateView {
    /// Two stream slots per reserve, and every stored record well-formed.
    pub open spec fn well_formed(self) -> bool {
        &&& self.emissions.len() == 2 * self.reserves.len()
        &&& self.user.len() == 2 * self.reserves.len()
        &&& forall|i: int|
            0 <= i < self.reserves.len() ==> (#[trigger] self.reserves[i]).well_formed()
        &&& forall|i: int|
            0 <= i < self.emissions.len() ==> ((#[trigger] self.emissions[i]) matches Some(d)
                ==> d.well_formed())
        &&& forall|i: int|
            0 <= i < self.user.len() ==> ((#[trigger] self.user[i]) matches Some(u)
                ==> u.well_formed())
    }
}

/// The reserve index a composite token id addresses.
pub open spec fn reserve_of(id: u32) -> int {
    id as int / 2
}

/// The side a composite token id addresses: even ids the liability token,
/// odd ids the supply token.
pub open spec fn side_of(id: u32) -> ReserveSide {
    if id % 2 == 0 {
        ReserveSide::Liability
    } else {
        ReserveSide::Supply
    }
}

/// The total supply of the addressed side's token.
pub open spec fn side_supply(res: ReserveSnapshot, side: ReserveSide) -> i128 {
    match side {
        ReserveSide::Liability => res.d_supply,
        ReserveSide::Supply => res.b_supply,
    }
}

/// The claiming user's balance on the addressed side.
pub open spec fn side_balance(res: ReserveSnapshot, side: ReserveSide) -> i128 {
    match side {
        ReserveSide::Liability => res.d_balance,
        ReserveSide::Supply => res.b_balance,
    }
}

/// Splits a composite reserve token id into the reserve index and side it
/// addresses.
pub fn decode_reserve_token_id(id: u32) -> (r: (u32, ReserveSide))
    ensures
        r.0 == reserve_of(id),
        r.1 == side_of(id),
{
    if id % 2 == 0 {
        (id / 2, ReserveSide::Liability)
    } else {
        (id / 2, ReserveSide::Supply)
    }
}

/// What claiming one stream does to the state: an unconfigured reserve
/// faults the batch; a missing emission record changes nothing and pays
/// nothing; otherwise the advanced record and zeroed snapshot replace the
/// stored ones and the user's accrual is paid out.
pub open spec fn claim_one(s: ClaimStateView, id: u32, now: int) -> Result<
    (ClaimStateView, i128),
    PoolError,
> {
    if reserve_of(id) >= s.reserves.len() {
        Err(PoolError::InvalidStreamId)
    } else {
        let res = s.reserves[reserve_of(id)];
        match claim_outcome(
            s.emissions[id as int],
            s.user[id as int],
            side_supply(res, side_of(id)) as int,
            res.scalar as int,
            now,
            side_balance(res, side_of(id)) as int,
            true,
        ) {
            Err(e) => Err(e),
            Ok((None, pay)) => Ok((s, pay)),
            Ok((Some((d2, u2)), pay)) => Ok(
                (
                    ClaimStateView {
                        reserves: s.reserves,
                        emissions: s.emissions.update(id as int, Some(d2)),
                        user: s.user.update(id as int, Some(u2)),
                    },
                    pay,
                ),
            ),
        }
    }
}

/// Folds `claim_one` over the ids from position `i` on, threading the state
/// and accumulating the payout; the running total must stay within `i128`.
pub open spec fn claim_from(
    s: ClaimStateView,
    ids: Seq<u32>,
    i: int,
    acc: i128,
    now: int,
) -> Result<(ClaimStateView, i128), PoolError>
    decreases ids.len() - i,
{
    if i < 0 || i >= ids.len() {
        Ok((s, acc))
    } else {
        match claim_one(s, ids[i], now) {
            Err(e) => Err(e),
            Ok((s1, pay)) => if acc + pay > i128::MAX || acc + pay < i128::MIN {
                Err(PoolError::Overflow)
            } else {
                claim_from(s1, ids, i + 1, (acc + pay) as i128, now)
            },
        }
    }
}

/// Copies a vector of plain records.
fn copy_records<T: Copy>(v: &Vec<T>) -> (r: Vec<T>)
    ensures
        r@ == v@,
{
    let mut r: Vec<T> = Vec::new();
    let mut i: usize = 0;
    while i < v.len()
        invariant
            i <= v.len(),
            r@ == v@.subrange(0, i as int),
        decreases v.len() - i,
    {
        r.push(v[i]);
        proof {
            assert(v@.subrange(0, i as int).push(v@[i as int]) =~= v@.subrange(0, i + 1));
        }
        i = i + 1;
    }
    proof {
        assert(v@.subrange(0, v@.len() as int) =~= v@);
    }
    r
}

/// Performs a claim against the given reserve token ids.
///
/// Walks the caller-supplied ids in order, duplicates permitted, advancing
/// each stream to `now` and claiming the user's accrual; an id whose reserve
/// is not configured aborts the whole batch with `InvalidStreamId`. Returns
/// the state to persist and the aggregated payout, which the caller
/// transfers when it is positive; on an error nothing may be persisted.
pub fn execute_claim(state: &ClaimState, reserve_token_ids: &Vec<u32>, now: u64) -> (r: Result<
    (ClaimState, i128),
    PoolError,
>)
    requires
        state@.well_formed(),
    ensures
        match claim_from(state@, reserve_token_ids@, 0, 0, now as int) {
            Ok((s2, total)) => r matches Ok(p) && p.0@ == s2 && p.1 == total
                && p.0@.well_formed(),
            Err(e) => r == Err::<(ClaimState, i128), PoolError>(e),
        },
{
    let reserves = copy_records(&state.reserves);
    let mut emissions = copy_records(&state.emissions);
    let mut user = copy_records(&state.user);
    let mut to_claim: i128 = 0;
    let mut i: usize = 0;
    while i < reserve_token_ids.len()
        invariant
            i <= reserve_token_ids@.len(),
            state@.well_formed(),
            reserves@ == state@.reserves,
            (ClaimStateView { reserves: reserves@, emissions: emissions@, user: user@ }).well_formed(),
            claim_from(state@, reserve_token_ids@, 0, 0, now as int) == claim_from(
                ClaimStateView { reserves: reserves@, emissions: emissions@, user: user@ },
                reserve_token_ids@,
                i as int,
                to_claim,
                now as int,
            ),
        decreases reserve_token_ids@.len() - i,
    {
        let ghost pre = ClaimStateView { reserves: reserves@, emissions: emissions@, user: user@ };
        let id = reserve_token_ids[i];
        let (reserve_index, side) = decode_reserve_token_id(id);
        if reserve_index as usize >= reserves.len() {
            return Err(PoolError::InvalidStreamId);
        }
        let res = reserves[reserve_index as usize];
        let (supply, balance) = match side {
            ReserveSide::Liability => (res.d_supply, res.d_balance),
            ReserveSide::Supply => (res.b_supply, res.b_balance),
        };
        let slot = id as usize;
        proof {
            assert(id == 2 * (id as int / 2) + (id as int % 2));
        }
        let emis = emissions[slot];
        let prior = user[slot];
        match claim_emissions(&emis, &prior, supply, res.scalar, now, balance) {
            Err(e) => {
                return Err(e);
            },
            Ok((written, pay)) => {
                match written {
                    Some((d2, u2)) => {
                        proof {
                            match emis {
                                Some(d0) => {
                                    lemma_advance_monotonic(
                                        d0,
                                        supply as int,
                                        res.scalar as int,
                                        now as int,
                                    );
                                    lemma_reconcile_wf(
                                        d2,
                                        prior,
                                        res.scalar as int,
                                        balance as int,
                                        true,
                                    );
                                },
                                None => (),
                            }
                        }
                        emissions[slot] = Some(d2);
                        user[slot] = Some(u2);
                    },
                    None => (),
                }
                to_claim = match to_claim.checked_add(pay) {
                    Some(v) => v,
                    None => {
                        return Err(PoolError::Overflow);
                    },
                };
            },
        }
        i = i + 1;
    }
    Ok((ClaimState { reserves, emissions, user }, to_claim))
}

} // verus!
