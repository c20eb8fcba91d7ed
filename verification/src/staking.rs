//! The storage of the parachain staking pallet and the calls that change it.
//!
//! Reserving and releasing tokens is the runtime's business: a call that needs it
//! returns the reserve operations to perform, in order, and the runtime performs
//! them. A call whose reserve operation the runtime refuses is to be undone as a
//! whole, as a failed extrinsic is.

use crate::arith::{spec_permill_from_rational, Perbill, Permill};
use crate::bond::{owners, Bond};
use crate::candidate::{
    sat_add_u32, lemma_owners_distinct, added_delegation, decreased_delegation, delegation_of, increased_delegation, removed_delegator,
    CandidateBondChange, CandidateBondRequest, CollatorCandidate, CollatorSnapshot, CollatorStatus,
    DelegatorAdded,
};
use crate::delegator::{DelegationChange, DelegationRequest, Delegator, DelegatorStatus};
use crate::ordered_set::{has_key, key_map, lemma_key_map_remove, OrderedSet, SetKey};
use crate::payout::{
    collator_part, collator_payout_info, commission_of, delegations_fit, law_collator_part_covers_commission, law_recorded_split_within_reward, rewards_map,
    rewards_sum, share_down, RewardEntry, RoundCollatorRewardInfoType,
};
use crate::round::{sat_add_u64, RoundInfo};
use crate::selection::sat_add_u128;
use crate::staking_events::{BondKind, Error, Event};
use crate::{AccountId, Balance, CurrencyId, RoundIndex};
use std::collections::BTreeMap;
use vstd::prelude::*;

verus! {

broadcast use vstd::std_specs::btree::group_btree_axioms;

/// The constants the runtime configures the pallet with.
#[derive(Clone, Copy, Debug, PartialEq, Eq)]
pub struct StakingConfig {
    /// Rounds a candidate stays bonded after asking to leave.
    pub leave_candidates_delay: RoundIndex,
    /// Rounds before a candidate's request to change its self bond can be executed.
    pub candidate_bond_delay: RoundIndex,
    /// Rounds a delegator stays bonded after asking to leave.
    pub leave_delegators_delay: RoundIndex,
    /// Rounds before a revocation can be executed.
    pub revoke_delegation_delay: RoundIndex,
    /// Rounds before a request to change a delegation can be executed.
    pub delegation_bond_delay: RoundIndex,
    /// Rounds after which block authors are rewarded.
    pub reward_payment_delay: RoundIndex,
    /// The least number of candidates selected every round.
    pub min_selected_candidates: u32,
    /// The most collator candidates allowed.
    pub max_collator_candidates: u32,
    /// The most delegators a candidate may have.
    pub max_total_delegators_per_candidate: u32,
    /// The most delegators counted per candidate.
    pub max_delegators_per_candidate: u32,
    /// Rounds a payout covers by default.
    pub default_payout_limit: u32,
    /// The most delegations per delegator.
    pub max_delegations_per_delegator: u32,
    /// The collator commission at genesis.
    pub default_collator_commission: Perbill,
    /// The least valuation for a candidate to be selected.
    pub min_collator_stk: Balance,
    /// The least valuation of a candidate's self bond.
    pub min_candidate_stk: Balance,
    /// The least delegation.
    pub min_delegation: Balance,
    /// The native token, in which rewards are paid.
    pub native_token_id: CurrencyId,
    /// Blocks per round at genesis.
    pub blocks_per_round: u32,
}

/// An operation on the staking reserves that a call asks the runtime to perform.
#[derive(Clone, Copy, Debug, PartialEq, Eq, Structural)]
pub enum ReserveCall {
    /// Reserve `amount` of `token` from `account`, taken from `use_balance_from`.
    Bond { token: CurrencyId, account: AccountId, amount: Balance, use_balance_from: Option<BondKind> },
    /// Release `amount` of `token` reserved by `account`.
    Unbond { token: CurrencyId, account: AccountId, amount: Balance },
}

/// The storage of the staking pallet.
#[derive(Clone, Debug)]
pub struct Staking {
    pub config: StakingConfig,
    /// Commission taken off the rewards of all collators.
    pub collator_commission: Perbill,
    /// The number of candidates selected every round.
    pub total_selected: u32,
    /// The current round.
    pub round: RoundInfo,
    /// Each delegating account's state.
    pub delegator_state: BTreeMap<AccountId, Delegator>,
    /// Each candidate's state.
    pub candidate_state: BTreeMap<AccountId, CollatorCandidate>,
    /// The candidates selected for the current round.
    pub selected_candidates: Vec<AccountId>,
    /// The amount locked by staking, per token.
    pub total: BTreeMap<CurrencyId, Balance>,
    /// The active candidates, each with its counted backing.
    pub candidate_pool: OrderedSet<Bond>,
    /// The liquidity tokens that may be staked, with their pool reserves at the
    /// last snapshot.
    pub staking_liquidity_tokens: BTreeMap<CurrencyId, Option<(Balance, Balance)>>,
    /// The aggregator of each aggregating candidate.
    pub candidate_aggregator: BTreeMap<AccountId, AccountId>,
    /// The accounts that are aggregators.
    pub aggregators: BTreeMap<AccountId, AggregatorMetadataType>,
    /// Per round, the snapshot of each selected collator.
    pub at_stake: BTreeMap<RoundIndex, BTreeMap<AccountId, CollatorSnapshot>>,
    /// Per round, the points awarded to all authors.
    pub points: BTreeMap<RoundIndex, u32>,
    /// Per round, the points awarded to each author.
    pub awarded_pts: BTreeMap<RoundIndex, BTreeMap<AccountId, u32>>,
    /// Per collator and round, what it and its delegators earned.
    pub round_collator_reward_info: BTreeMap<AccountId, BTreeMap<RoundIndex, RoundCollatorRewardInfoType>>,
    /// Per round, each selected aggregator's collators with their valuations.
    pub round_aggregator_info: BTreeMap<RoundIndex, BTreeMap<AccountId, OrderedSet<RewardEntry>>>,
}

/// An aggregator's approved candidates and the candidate it aggregates per token.
#[derive(Clone, Debug, PartialEq, Eq)]
pub struct AggregatorMetadataType {
    pub token_collator_map: BTreeMap<CurrencyId, AccountId>,
    pub approved_candidates: OrderedSet<AccountId>,
}

/// The amount `m` holds for `k`, zero when it holds none.
pub open spec fn amount_or_zero<K>(m: Map<K, Balance>, k: K) -> Balance {
    if m.contains_key(k) {
        m[k]
    } else {
        0
    }
}

/// Whether `d`'s delegation to `c` is counted.
pub open spec fn counted(c: CollatorCandidate, d: AccountId) -> bool {
    owners(c.top_delegations@).count(d) > 0
}

/// The totals after `x` of `token` is released: the total of `token` less
/// `x`, saturating at zero.
pub open spec fn total_less(total: Map<CurrencyId, Balance>, token: CurrencyId, x: Balance) -> Map<CurrencyId, Balance> {
    total.insert(
        token,
        if amount_or_zero(total, token) >= x {
            (amount_or_zero(total, token) - x) as u128
        } else {
            0
        },
    )
}

/// The storage `t` after `delegator` left `collator` in storage `s`, with
/// event `ev` and reserve operation `call`.
pub open spec fn self_left_collator(s: Staking, t: Staking, delegator: AccountId, collator: AccountId, ev: Event, call: ReserveCall) -> bool {
    let c = s.candidate_state@[collator];
    let c2 = t.candidate_state@[collator];
    let stake = ev->DelegatorLeftCandidate_2;
    &&& ev == Event::DelegatorLeftCandidate(delegator, collator, stake, c2.total_counted)
    &&& removed_delegator(c, delegator, Ok((counted(c, delegator), stake)), c2)
    &&& call == ReserveCall::Unbond { token: c.liquidity_token, account: delegator, amount: stake }
    &&& t.candidate_state@ == s.candidate_state@.insert(collator, c2)
    &&& if c.state == CollatorStatus::Active && counted(c, delegator) {
        key_map(t.candidate_pool@) == key_map(s.candidate_pool@).insert(
            collator,
            Bond { owner: collator, amount: c2.total_counted, liquidity_token: c.liquidity_token },
        )
    } else {
        t.candidate_pool == s.candidate_pool
    }
    &&& t.total@ == total_less(s.total@, c.liquidity_token, stake)
    &&& t == (Staking {
        candidate_state: t.candidate_state,
        candidate_pool: t.candidate_pool,
        total: t.total,
        ..s
    })
}

/// The aggregators of `t` are those of `s`, but `agg` no longer maps the
/// token `token` to a collator.
pub open spec fn token_released(s: Staking, t: Staking, agg: AccountId, token: CurrencyId) -> bool {
    &&& t.aggregators@.dom() == s.aggregators@.dom()
    &&& forall|k: AccountId| k != agg && #[trigger] s.aggregators@.contains_key(k)
        ==> t.aggregators@[k] == s.aggregators@[k]
    &&& t.aggregators@[agg].token_collator_map@ == s.aggregators@[agg].token_collator_map@.remove(token)
    &&& t.aggregators@[agg].approved_candidates == s.aggregators@[agg].approved_candidates
}

/// What leaving a candidate does to the state of one of its delegators:
/// the delegation to `candidate` goes, with any request about it; a delegator
/// left with no delegation goes too.
pub open spec fn delegator_after_candidate_left(d: Delegator, t: Map<AccountId, Delegator>, k: AccountId, candidate: AccountId) -> bool {
    if !has_key(d.delegations@, candidate) {
        t.contains_key(k) && t[k] == d
    } else if d.delegations@.len() == 1 {
        !t.contains_key(k)
    } else {
        t.contains_key(k) && stored_delegator(d, t[k], candidate, key_map(d.delegations@).remove(candidate))
    }
}

/// `k` owns one of the bonds of `bonds`.
pub open spec fn owns_one_of(bonds: Seq<Bond>, k: AccountId) -> bool {
    exists|j: int| 0 <= j < bonds.len() && bonds[j].owner == k
}

/// The operations that release each of `bonds`.
pub open spec fn unbond_calls(bonds: Seq<Bond>) -> Seq<ReserveCall> {
    bonds.map_values(|b: Bond| ReserveCall::Unbond { token: b.liquidity_token, account: b.owner, amount: b.amount })
}

/// The bonds of `a`, then those of `b`.
fn concat_bonds(a: &Vec<Bond>, b: &Vec<Bond>) -> (r: Vec<Bond>)
    ensures
        r@ == a@ + b@,
{
    let mut r: Vec<Bond> = Vec::new();
    let mut i: usize = 0;
    while i < a.len()
        invariant
            i <= a@.len(),
            r@ == a@.take(i as int),
        decreases a@.len() - i,
    {
        r.push(a[i]);
        i = i + 1;
        proof {
            assert(r@ == a@.take(i as int));
        }
    }
    let mut j: usize = 0;
    while j < b.len()
        invariant
            i == a@.len(),
            j <= b@.len(),
            r@ == a@ + b@.take(j as int),
        decreases b@.len() - j,
    {
        r.push(b[j]);
        j = j + 1;
        proof {
            assert(r@ == a@ + b@.take(j as int));
        }
    }
    proof {
        assert(a@.take(i as int) == a@);
        assert(b@.take(j as int) == b@);
    }
    r
}

/// The delegator `acc` of `t` is that of `s` with `req` added to its
/// requests, all else the same.
pub open spec fn request_added(s: Staking, t: Staking, acc: AccountId, collator: AccountId, req: DelegationRequest) -> bool {
    let d = s.delegator_state@[acc];
    let d2 = t.delegator_state@[acc];
    &&& t.delegator_state@.dom() == s.delegator_state@.dom()
    &&& forall|k: AccountId| k != acc && #[trigger] s.delegator_state@.contains_key(k)
        ==> t.delegator_state@[k] == s.delegator_state@[k]
    &&& d2.id == d.id && d2.delegations == d.delegations && d2.status == d.status
    &&& d2.requests.requests@ == d.requests.requests@.insert(collator, req)
    &&& t == (Staking { delegator_state: t.delegator_state, ..s })
}

/// The candidate `c` of `t` is `x`, all else as in `s`.
pub open spec fn candidate_set(s: Staking, t: Staking, c: AccountId, x: CollatorCandidate) -> bool {
    &&& t.candidate_state@ == s.candidate_state@.insert(c, x)
    &&& t == (Staking { candidate_state: t.candidate_state, ..s })
}

/// `t` holds what `s` holds: the same views of the maps, the same rest.
pub open spec fn same_storage(s: Staking, t: Staking) -> bool {
    &&& t.candidate_state@ == s.candidate_state@
    &&& t.delegator_state@ == s.delegator_state@
    &&& t == (Staking { candidate_state: t.candidate_state, delegator_state: t.delegator_state, ..s })
}

/// `info` records the reward split of `reward` for a collator with snapshot
/// `snap` and commission `commission_parts`, as `collator_payout_info` gives it.
pub open spec fn rewards_recorded(snap: CollatorSnapshot, commission_parts: int, reward: Balance, info: RoundCollatorRewardInfoType) -> bool {
    if snap.delegations@.len() == 0 {
        info.collator_reward == reward && key_map(info.delegator_rewards@) == Map::<u64, RewardEntry>::empty()
    } else {
        let c = commission_of(reward as int, commission_parts);
        let cr = collator_part(snap, commission_parts, reward as int);
        let n = snap.delegations@.len() as int;
        &&& info.collator_reward == cr
        &&& key_map(info.delegator_rewards@) == (if delegations_fit(snap) {
            rewards_map(snap.delegations@, |b: Bond| share_down(reward - c, b.amount as int, snap.total as int))
        } else {
            rewards_map(snap.delegations@, |b: Bond| ((reward - cr) / n) as u128)
        })
    }
}

/// `t` holds for `k` what `s` holds.
pub open spec fn untouched(t: Map<AccountId, Delegator>, s: Map<AccountId, Delegator>, k: AccountId) -> bool {
    &&& t.contains_key(k) == s.contains_key(k)
    &&& s.contains_key(k) ==> t[k] == s[k]
}

/// `t` is `s` after `delegator` left `collator`, with outcome `out`: the event
/// and release of a departure, or none where `delegator` did not back
/// `collator` and nothing changed.
pub open spec fn leave_step(s: Staking, t: Staking, delegator: AccountId, collator: AccountId, out: Option<(Event, ReserveCall)>) -> bool {
    match out {
        Some((ev, call)) => self_left_collator(s, t, delegator, collator, ev, call),
        None => t == s && !(s.candidate_state@.contains_key(collator) && has_key(
            s.candidate_state@[collator].delegators@,
            delegator,
        )),
    }
}

/// The events of the departures in `outs`, in order.
pub open spec fn step_events(outs: Seq<Option<(Event, ReserveCall)>>) -> Seq<Event>
    decreases outs.len(),
{
    if outs.len() == 0 {
        Seq::empty()
    } else {
        let before = step_events(outs.drop_last());
        match outs.last() {
            Some((ev, _)) => before.push(ev),
            None => before,
        }
    }
}

/// The releases of the departures in `outs`, in order.
pub open spec fn step_calls(outs: Seq<Option<(Event, ReserveCall)>>) -> Seq<ReserveCall>
    decreases outs.len(),
{
    if outs.len() == 0 {
        Seq::empty()
    } else {
        let before = step_calls(outs.drop_last());
        match outs.last() {
            Some((_, call)) => before.push(call),
            None => before,
        }
    }
}

/// `states` goes from its first to its last state by `delegator` leaving the
/// owner of each of `bonds` in turn, with outcomes `outs`.
pub open spec fn leave_chain(states: Seq<Staking>, delegator: AccountId, bonds: Seq<Bond>, outs: Seq<Option<(Event, ReserveCall)>>) -> bool {
    &&& states.len() == bonds.len() + 1
    &&& outs.len() == bonds.len()
    &&& forall|i: int| #![trigger outs[i]] 0 <= i < bonds.len() ==> leave_step(states[i], states[i + 1], delegator, bonds[i].owner, outs[i])
}

/// The amounts of `bonds` added up, saturating.
pub open spec fn sat_sum_amounts(bonds: Seq<Bond>) -> u128
    decreases bonds.len(),
{
    if bonds.len() == 0 {
        0
    } else {
        sat_add_u128(sat_sum_amounts(bonds.drop_last()), bonds.last().amount)
    }
}

/// `t` is `s` after the snapshot of `collator` for `round` was taken (an
/// empty one if there was none) and what the collator and its delegators earn
/// of `reward` under the current commission was recorded.
pub open spec fn collator_processed(s: Staking, t: Staking, round: RoundIndex, collator: AccountId, reward: Balance) -> bool {
    let taken = s.at_stake@.contains_key(round) && s.at_stake@[round]@.contains_key(collator);
    let info = t.round_collator_reward_info@[collator]@[round];
    &&& t.round_collator_reward_info@.dom() == s.round_collator_reward_info@.dom().insert(collator)
    &&& forall|k: AccountId| k != collator && #[trigger] s.round_collator_reward_info@.contains_key(k)
        ==> t.round_collator_reward_info@[k] == s.round_collator_reward_info@[k]
    &&& t.round_collator_reward_info@[collator]@.dom() == (if s.round_collator_reward_info@.contains_key(collator) {
        s.round_collator_reward_info@[collator]@.dom()
    } else {
        Set::<RoundIndex>::empty()
    }).insert(round)
    &&& forall|q: RoundIndex| q != round && #[trigger] t.round_collator_reward_info@[collator]@.contains_key(q)
        ==> t.round_collator_reward_info@[collator]@[q] == s.round_collator_reward_info@[collator]@[q]
    &&& info.delegator_rewards.wf()
    &&& (if taken {
        let snap = s.at_stake@[round]@[collator];
        rewards_recorded(snap, s.collator_commission.spec_parts() as int, reward, info)
    } else {
        info.collator_reward == reward && key_map(info.delegator_rewards@) == Map::<u64, RewardEntry>::empty()
    })
    &&& (if s.at_stake@.contains_key(round) {
        &&& t.at_stake@.dom() == s.at_stake@.dom()
        &&& t.at_stake@[round]@ == s.at_stake@[round]@.remove(collator)
        &&& forall|q: RoundIndex| q != round && #[trigger] s.at_stake@.contains_key(q)
            ==> t.at_stake@[q] == s.at_stake@[q]
    } else {
        t.at_stake@ == s.at_stake@
    })
    &&& t == (Staking {
        at_stake: t.at_stake,
        round_collator_reward_info: t.round_collator_reward_info,
        ..s
    })
}

/// Paying out a collator's round never records more than the reward: the
/// collator's part and its delegators' rewards, as stored for the round, add
/// up to at most `reward` (when the round's snapshot of the collator has its
/// bond and delegations within its total, and the commission is at most a
/// whole); the delegators rewarded are exactly those of the snapshot, and none
/// when the collator has no snapshot; a collator without delegations gets the
/// whole reward, one with delegations at least the commission.
pub proof fn law_processed_rewards_within_reward(s: Staking, t: Staking, round: RoundIndex, collator: AccountId, reward: Balance)
    requires
        collator_processed(s, t, round, collator, reward),
        s.collator_commission.spec_parts() <= crate::arith::billion(),
        s.at_stake@.contains_key(round) && s.at_stake@[round]@.contains_key(collator)
            ==> delegations_fit(s.at_stake@[round]@[collator]),
    ensures
        ({
            let info = t.round_collator_reward_info@[collator]@[round];
            &&& info.collator_reward + rewards_sum(info.delegator_rewards@) <= reward
            &&& if s.at_stake@.contains_key(round) && s.at_stake@[round]@.contains_key(collator) {
                let snap = s.at_stake@[round]@[collator];
                &&& forall|k: u64| key_map(info.delegator_rewards@).contains_key(k)
                    <==> exists|i: int| 0 <= i < snap.delegations@.len() && snap.delegations@[i].owner == k
                &&& snap.delegations@.len() == 0 ==> info.collator_reward == reward
                &&& snap.delegations@.len() > 0 ==> info.collator_reward
                    >= commission_of(reward as int, s.collator_commission.spec_parts() as int)
            } else {
                info.collator_reward == reward && key_map(info.delegator_rewards@) == Map::<u64, RewardEntry>::empty()
            }
        }),
{
    let info = t.round_collator_reward_info@[collator]@[round];
    let taken = s.at_stake@.contains_key(round) && s.at_stake@[round]@.contains_key(collator);
    if taken {
        let snap = s.at_stake@[round]@[collator];
        law_recorded_split_within_reward(snap, s.collator_commission.spec_parts() as int, reward,
            info.collator_reward, info.delegator_rewards@, key_map(info.delegator_rewards@));
        law_collator_part_covers_commission(snap, s.collator_commission.spec_parts() as int, reward);
    } else if info.delegator_rewards@.len() > 0 {
        crate::ordered_set::lemma_entry_of(info.delegator_rewards@, 0);
        assert(key_map(info.delegator_rewards@).contains_key(info.delegator_rewards@[0].spec_key()));
        assert(false);
    }
}

/// A bond in the native token is valued at half its amount (rounded down),
/// the same as collator selection values it; any other token at what the
/// runtime's valuator gives.
pub proof fn law_native_bond_valued_at_half(s: Staking, owner: AccountId, bond: Balance, valuation: Balance, pools: Map<CurrencyId, Option<(Balance, Balance)>>)
    ensures
        2 * s.spec_valuate_bond(s.config.native_token_id, bond, valuation) <= bond,
        bond <= 2 * s.spec_valuate_bond(s.config.native_token_id, bond, valuation) + 1,
        crate::selection::valuation_of(Bond { owner, amount: bond, liquidity_token: s.config.native_token_id }, s.config.native_token_id, pools)
            == Some(s.spec_valuate_bond(s.config.native_token_id, bond, valuation)),
        forall|token: CurrencyId| token != s.config.native_token_id ==> #[trigger] s.spec_valuate_bond(token, bond, valuation) == valuation,
{
}

/// A candidate bonding in the native token less than twice the least
/// candidate stake is refused as below the minimum (when it could otherwise
/// join), and one bonding at least twice that passes the minimum check.
pub proof fn law_native_candidate_bond_minimum(
    s: Staking,
    t: Staking,
    acc: AccountId,
    bond: Balance,
    use_balance_from: Option<BondKind>,
    candidate_count: u32,
    liquidity_token_count: u32,
    valuation: Balance,
    r: Result<(Event, ReserveCall), Error>,
)
    requires
        join_outcome(s, t, acc, bond, s.config.native_token_id, use_balance_from, candidate_count, liquidity_token_count, valuation, r),
        !s.candidate_state@.contains_key(acc),
        !s.delegator_state@.contains_key(acc),
        !s.aggregators@.contains_key(acc),
        liquidity_token_count >= s.staking_liquidity_tokens@.len(),
    ensures
        bond < 2 * s.config.min_candidate_stk ==> r == Err::<(Event, ReserveCall), Error>(Error::CandidateBondBelowMin) && t == s,
        bond >= 2 * s.config.min_candidate_stk ==> r != Err::<(Event, ReserveCall), Error>(Error::CandidateBondBelowMin),
{
}

/// A first delegation is refused as below the minimum exactly when its amount
/// is below the least delegation; a further delegation in the native token
/// is refused so when half its amount is below it (when nothing else refuses
/// it first).
pub proof fn law_native_delegation_minimum(
    s: Staking,
    acc: AccountId,
    collator: AccountId,
    amount: Balance,
    cdc: u32,
    dc: u32,
    valuation: Balance,
)
    requires
        !s.aggregators@.contains_key(acc),
        s.candidate_state@.contains_key(collator),
        s.candidate_state@[collator].liquidity_token == s.config.native_token_id,
        s.delegator_state@.contains_key(acc),
        s.delegator_state@[acc].status == crate::delegator::DelegatorStatus::Active,
    ensures
        amount < 2 * s.config.min_delegation
            ==> s.delegate_error(acc, collator, amount, cdc, dc, valuation) == Some(Error::DelegationBelowMin),
{
}

/// What `join_candidates` does: `t` and `r` are the storage and the result
/// after `acc` asked to join the candidates in storage `s`.
pub open spec fn join_outcome(
    s: Staking,
    t: Staking,
    acc: AccountId,
    bond: Balance,
    liquidity_token: CurrencyId,
    use_balance_from: Option<BondKind>,
    candidate_count: u32,
    liquidity_token_count: u32,
    valuation: Balance,
    r: Result<(Event, ReserveCall), Error>,
) -> bool {
    &&& (s.join_candidates_error(acc, bond, liquidity_token, candidate_count, liquidity_token_count, valuation) matches Some(e)
        ==> r == Err::<(Event, ReserveCall), Error>(e) && t == s)
    &&& (s.join_candidates_error(acc, bond, liquidity_token, candidate_count, liquidity_token_count, valuation) is None
        ==> (r matches Ok((ev, call)) && {
        let c = t.candidate_state@[acc];
        let new_total = sat_add_u128(amount_or_zero(s.total@, liquidity_token), bond);
        &&& ev == Event::JoinedCollatorCandidates(acc, bond, new_total)
        &&& call == ReserveCall::Bond { token: liquidity_token, account: acc, amount: bond, use_balance_from }
        &&& t.candidate_state@ == s.candidate_state@.insert(acc, c)
        &&& c.id == acc && c.bond == bond && c.liquidity_token == liquidity_token
        &&& c.delegators@.len() == 0 && c.top_delegations@.len() == 0 && c.bottom_delegations@.len() == 0
        &&& c.total_counted == bond && c.total_backing == bond
        &&& c.request is None && c.state == CollatorStatus::Active
        &&& key_map(t.candidate_pool@) == key_map(s.candidate_pool@).insert(
            acc,
            Bond { owner: acc, amount: bond, liquidity_token },
        )
        &&& t.total@ == s.total@.insert(liquidity_token, new_total)
        &&& t == (Staking {
            candidate_state: t.candidate_state,
            candidate_pool: t.candidate_pool,
            total: t.total,
            ..s
        })
    }))
}

/// What `delegate` does: `t` and `r` are the storage and the result after
/// `acc` asked to delegate `amount` to `collator` in storage `s`.
pub open spec fn delegate_outcome(
    s: Staking,
    t: Staking,
    acc: AccountId,
    collator: AccountId,
    amount: Balance,
    use_balance_from: Option<BondKind>,
    candidate_delegation_count: u32,
    delegation_count: u32,
    valuation: Balance,
    r: Result<(Event, ReserveCall), Error>,
) -> bool {
    &&& (s.delegate_error(acc, collator, amount, candidate_delegation_count, delegation_count, valuation) matches Some(e)
        ==> r == Err::<(Event, ReserveCall), Error>(e) && t == s)
    &&& (s.delegate_error(acc, collator, amount, candidate_delegation_count, delegation_count, valuation) is None
        ==> (r matches Ok((ev, call)) && ({
        let c = s.candidate_state@[collator];
        let c2 = t.candidate_state@[collator];
        let nb = Bond { owner: collator, amount, liquidity_token: c.liquidity_token };
        &&& ev matches Event::Delegation(a, am, col, pos) && a == acc && am == amount && col == collator
            && added_delegation(c, acc, amount, s.config.max_delegators_per_candidate, Ok(pos), c2)
            && (if pos is AddedToTop && c.state == CollatorStatus::Active {
                key_map(t.candidate_pool@) == key_map(s.candidate_pool@).insert(
                    collator,
                    Bond { owner: collator, amount: pos->new_total, liquidity_token: c.liquidity_token },
                )
            } else {
                t.candidate_pool == s.candidate_pool
            })
        &&& call == ReserveCall::Bond { token: c.liquidity_token, account: acc, amount, use_balance_from }
        &&& t.candidate_state@ == s.candidate_state@.insert(collator, c2)
        &&& t.delegator_state@.dom() == s.delegator_state@.dom().insert(acc)
        &&& forall|d: AccountId| d != acc && #[trigger] s.delegator_state@.contains_key(d)
            ==> t.delegator_state@[d] == s.delegator_state@[d]
        &&& if s.delegator_state@.contains_key(acc) {
            let d = s.delegator_state@[acc];
            let d2 = t.delegator_state@[acc];
            &&& d2.id == d.id && d2.requests == d.requests && d2.status == d.status
            &&& key_map(d2.delegations@) == key_map(d.delegations@).insert(collator, nb)
        } else {
            let d2 = t.delegator_state@[acc];
            &&& d2.id == acc
            &&& d2.delegations@ == seq![nb]
            &&& d2.requests.requests@ == Map::<AccountId, crate::delegator::DelegationRequest>::empty()
            &&& d2.status == crate::delegator::DelegatorStatus::Active
        }
        &&& t.total@ == s.total@.insert(
            c.liquidity_token,
            sat_add_u128(amount_or_zero(s.total@, c.liquidity_token), amount),
        )
        &&& t == (Staking {
            candidate_state: t.candidate_state,
            delegator_state: t.delegator_state,
            candidate_pool: t.candidate_pool,
            total: t.total,
            ..s
        })
    })))
}

/// What `schedule_leave_delegators` does: `t` and `r` are the storage and the
/// result after `acc` asked to leave the delegators in storage `s`.
pub open spec fn leave_delegators_scheduled(s: Staking, t: Staking, acc: AccountId, r: Result<Event, Error>) -> bool {
    &&& (!s.delegator_state@.contains_key(acc) ==> r == Err::<Event, Error>(Error::DelegatorDNE)
        && t == s)
    &&& (s.delegator_state@.contains_key(acc) && s.delegator_state@[acc].status is Leaving
        ==> r == Err::<Event, Error>(Error::DelegatorAlreadyLeaving) && t == s)
    &&& (s.delegator_state@.contains_key(acc) && !(s.delegator_state@[acc].status is Leaving)
        ==> ({
        let now = s.round.current;
        let when = sat_add_u32(now, s.config.leave_delegators_delay);
        &&& r == Ok::<Event, Error>(Event::DelegatorExitScheduled(now, acc, when))
        &&& t.delegator_state@ == s.delegator_state@.insert(
            acc,
            Delegator { status: DelegatorStatus::Leaving(when), ..s.delegator_state@[acc] },
        )
        &&& t == (Staking { delegator_state: t.delegator_state, ..s })
    }))
}

/// What `cancel_leave_delegators` does: `t` and `r` are the storage and the
/// result after `acc` withdrew its request to leave the delegators in storage `s`.
pub open spec fn leave_delegators_cancelled(s: Staking, t: Staking, acc: AccountId, r: Result<Event, Error>) -> bool {
    &&& (!s.delegator_state@.contains_key(acc) || !(s.delegator_state@[acc].status is Leaving)
        ==> r == Err::<Event, Error>(Error::DelegatorDNE) && t == s)
    &&& (s.delegator_state@.contains_key(acc) && s.delegator_state@[acc].status is Leaving
        ==> ({
        &&& r == Ok::<Event, Error>(Event::DelegatorExitCancelled(acc))
        &&& t.delegator_state@ == s.delegator_state@.insert(
            acc,
            Delegator { status: DelegatorStatus::Active, ..s.delegator_state@[acc] },
        )
        &&& t == (Staking { delegator_state: t.delegator_state, ..s })
    }))
}

/// `t` is `s` after `collator` asked to go offline, answered `r`: an active
/// candidate becomes idle and leaves the pool; otherwise nothing changes.
pub open spec fn went_offline(s: Staking, t: Staking, collator: AccountId, r: Result<Event, Error>) -> bool {
    if !s.candidate_state@.contains_key(collator) {
        r == Err::<Event, Error>(Error::CandidateDNE) && t == s
    } else if s.candidate_state@[collator].state != CollatorStatus::Active {
        r == Err::<Event, Error>(Error::AlreadyOffline) && t == s
    } else {
        &&& r == Ok::<Event, Error>(Event::CandidateWentOffline(s.round.current, collator))
        &&& t.candidate_state@ == s.candidate_state@.insert(
            collator,
            CollatorCandidate { state: CollatorStatus::Idle, ..s.candidate_state@[collator] },
        )
        &&& key_map(t.candidate_pool@) == key_map(s.candidate_pool@).remove(collator)
        &&& t == (Staking { candidate_state: t.candidate_state, candidate_pool: t.candidate_pool, ..s })
    }
}

/// `t` is `s` after `collator` asked to go back online, answered `r`: an idle
/// candidate becomes active and returns to the pool with its counted total,
/// when the pool has room; otherwise nothing changes.
pub open spec fn went_online(s: Staking, t: Staking, collator: AccountId, r: Result<Event, Error>) -> bool {
    if !s.candidate_state@.contains_key(collator) {
        r == Err::<Event, Error>(Error::CandidateDNE) && t == s
    } else {
        let c = s.candidate_state@[collator];
        let n = s.candidate_pool@.len();
        if c.state == CollatorStatus::Active {
            r == Err::<Event, Error>(Error::AlreadyActive) && t == s
        } else if c.state is Leaving {
            r == Err::<Event, Error>(Error::CannotGoOnlineIfLeaving) && t == s
        } else if n >= s.config.max_collator_candidates {
            r == Err::<Event, Error>(Error::ExceedMaxCollatorCandidates) && t == s
        } else if has_key(s.candidate_pool@, collator) {
            r == Err::<Event, Error>(Error::AlreadyActive) && t == s
        } else {
            &&& r == Ok::<Event, Error>(Event::CandidateBackOnline(s.round.current, collator))
            &&& t.candidate_state@ == s.candidate_state@.insert(collator, CollatorCandidate { state: CollatorStatus::Active, ..c })
            &&& key_map(t.candidate_pool@) == key_map(s.candidate_pool@).insert(
                collator,
                Bond { owner: collator, amount: c.total_counted, liquidity_token: c.liquidity_token },
            )
            &&& t == (Staking { candidate_state: t.candidate_state, candidate_pool: t.candidate_pool, ..s })
        }
    }
}

/// Going offline and back online restores a candidate: an active candidate
/// whose pool entry is its counted total, in a pool within the configured
/// size, has the same state and the same pool entry afterwards, and nothing
/// else changed.
pub proof fn law_offline_online_restores(
    s: Staking,
    t: Staking,
    u: Staking,
    collator: AccountId,
    r1: Result<Event, Error>,
    r2: Result<Event, Error>,
)
    requires
        s.inv(),
        t.inv(),
        s.candidate_state@.contains_key(collator),
        s.candidate_state@[collator].state == CollatorStatus::Active,
        key_map(s.candidate_pool@).contains_key(collator),
        key_map(s.candidate_pool@)[collator] == (Bond {
            owner: collator,
            amount: s.candidate_state@[collator].total_counted,
            liquidity_token: s.candidate_state@[collator].liquidity_token,
        }),
        s.candidate_pool@.len() <= s.config.max_collator_candidates,
        went_offline(s, t, collator, r1),
        went_online(t, u, collator, r2),
    ensures
        r1 == Ok::<Event, Error>(Event::CandidateWentOffline(s.round.current, collator)),
        r2 == Ok::<Event, Error>(Event::CandidateBackOnline(s.round.current, collator)),
        u.candidate_state@ == s.candidate_state@,
        key_map(u.candidate_pool@) == key_map(s.candidate_pool@),
        u == (Staking { candidate_state: u.candidate_state, candidate_pool: u.candidate_pool, ..s }),
{
    crate::ordered_set::lemma_key_map_len(s.candidate_pool@);
    crate::ordered_set::lemma_key_map_len(t.candidate_pool@);
    assert(key_map(s.candidate_pool@).dom().remove(collator).len() == key_map(s.candidate_pool@).dom().len() - 1);
    assert(key_map(t.candidate_pool@).dom() =~= key_map(s.candidate_pool@).dom().remove(collator));
    assert(!key_map(t.candidate_pool@).contains_key(collator));
    assert(!has_key(t.candidate_pool@, collator));
    let c = s.candidate_state@[collator];
    assert(t.candidate_state@[collator] == CollatorCandidate { state: CollatorStatus::Idle, ..c });
    assert(u.candidate_state@ =~= s.candidate_state@) by {
        assert(CollatorCandidate { state: CollatorStatus::Active, ..CollatorCandidate { state: CollatorStatus::Idle, ..c } } == c);
    }
    assert(key_map(u.candidate_pool@) =~= key_map(s.candidate_pool@));
}

/// `t` is `s` after `collator` asked to bond `more` (`can_bond`: whether its
/// free balance covers it), answered `r`: a candidate with no pending request
/// gets one to increase its bond, due after the bond delay.
pub open spec fn bond_more_scheduled(s: Staking, t: Staking, collator: AccountId, more: Balance, can_bond: bool, r: Result<Event, Error>) -> bool {
    if !s.candidate_state@.contains_key(collator) {
        r == Err::<Event, Error>(Error::CandidateDNE) && t == s
    } else {
        let c = s.candidate_state@[collator];
        let when = sat_add_u32(s.round.current, s.config.candidate_bond_delay);
        if c.request is Some {
            r == Err::<Event, Error>(Error::PendingCandidateRequestAlreadyExists) && t == s
        } else if !can_bond {
            r == Err::<Event, Error>(Error::InsufficientBalance) && t == s
        } else {
            &&& r == Ok::<Event, Error>(Event::CandidateBondMoreRequested(collator, more, when))
            &&& candidate_set(s, t, collator, CollatorCandidate {
                request: Some(CandidateBondRequest { change: CandidateBondChange::Increase, amount: more, when_executable: when }),
                ..c
            })
        }
    }
}

/// `t` is `s` after `collator` withdrew its pending bond request, answered `r`.
pub open spec fn bond_request_cancelled(s: Staking, t: Staking, collator: AccountId, r: Result<Event, Error>) -> bool {
    if !s.candidate_state@.contains_key(collator) {
        r == Err::<Event, Error>(Error::CandidateDNE) && t == s
    } else if s.candidate_state@[collator].request is None {
        r == Err::<Event, Error>(Error::PendingCandidateRequestsDNE) && t == s
    } else {
        let c = s.candidate_state@[collator];
        &&& r == Ok::<Event, Error>(Event::CancelledCandidateBondChange(c.id, c.request->0))
        &&& candidate_set(s, t, collator, CollatorCandidate { request: None, ..c })
    }
}

/// Withdrawing a request to bond more undoes it: a candidate with no pending
/// request that schedules an increase and then cancels it is back where it
/// started, and the cancellation reports the request it withdrew.
pub proof fn law_cancel_bond_more_undoes_schedule(
    s: Staking,
    t: Staking,
    u: Staking,
    collator: AccountId,
    more: Balance,
    r1: Result<Event, Error>,
    r2: Result<Event, Error>,
)
    requires
        s.candidate_state@.contains_key(collator),
        s.candidate_state@[collator].id == collator,
        s.candidate_state@[collator].request is None,
        bond_more_scheduled(s, t, collator, more, true, r1),
        bond_request_cancelled(t, u, collator, r2),
    ensures
        r2 == Ok::<Event, Error>(Event::CancelledCandidateBondChange(collator, CandidateBondRequest {
            change: CandidateBondChange::Increase,
            amount: more,
            when_executable: sat_add_u32(s.round.current, s.config.candidate_bond_delay),
        })),
        u.candidate_state@ == s.candidate_state@,
        u == (Staking { candidate_state: u.candidate_state, ..s }),
{
    let c = s.candidate_state@[collator];
    assert(CollatorCandidate { request: None, ..t.candidate_state@[collator] } == c);
    assert(u.candidate_state@ =~= s.candidate_state@);
}

/// `t` is `s` after `collator` asked to leave the candidates, answered `r`
/// (`candidate_count` bounds the pool's size): a candidate not yet leaving
/// leaves the pool and is due to go after the leave delay.
pub open spec fn leave_candidates_scheduled(s: Staking, t: Staking, collator: AccountId, candidate_count: u32, r: Result<Event, Error>) -> bool {
    if !s.candidate_state@.contains_key(collator) {
        r == Err::<Event, Error>(Error::CandidateDNE) && t == s
    } else if s.candidate_state@[collator].state is Leaving {
        r == Err::<Event, Error>(Error::CandidateAlreadyLeaving) && t == s
    } else if candidate_count < (s.candidate_pool@.len() as u32) {
        r == Err::<Event, Error>(Error::TooLowCandidateCountToLeaveCandidates) && t == s
    } else {
        let now = s.round.current;
        let when = sat_add_u32(now, s.config.leave_candidates_delay);
        &&& r == Ok::<Event, Error>(Event::CandidateScheduledExit(now, collator, when))
        &&& t.candidate_state@ == s.candidate_state@.insert(
            collator,
            CollatorCandidate { state: CollatorStatus::Leaving(when), ..s.candidate_state@[collator] },
        )
        &&& key_map(t.candidate_pool@) == key_map(s.candidate_pool@).remove(collator)
        &&& t == (Staking { candidate_state: t.candidate_state, candidate_pool: t.candidate_pool, ..s })
    }
}

/// `t` is `s` after `collator` withdrew its request to leave, answered `r`
/// (`candidate_count` bounds the pool's size): a leaving candidate becomes
/// active and returns to the pool with its counted total, when there is room.
pub open spec fn leave_candidates_cancelled(s: Staking, t: Staking, collator: AccountId, candidate_count: u32, r: Result<Event, Error>) -> bool {
    if !s.candidate_state@.contains_key(collator) {
        r == Err::<Event, Error>(Error::CandidateDNE) && t == s
    } else {
        let c = s.candidate_state@[collator];
        let n = s.candidate_pool@.len();
        if !(c.state is Leaving) {
            r == Err::<Event, Error>(Error::CandidateNotLeaving) && t == s
        } else if n >= s.config.max_collator_candidates {
            r == Err::<Event, Error>(Error::ExceedMaxCollatorCandidates) && t == s
        } else if n > candidate_count {
            r == Err::<Event, Error>(Error::TooLowCandidateCountWeightHintCancelLeaveCandidates) && t == s
        } else if has_key(s.candidate_pool@, collator) {
            r == Err::<Event, Error>(Error::AlreadyActive) && t == s
        } else {
            &&& r == Ok::<Event, Error>(Event::CancelledCandidateExit(collator))
            &&& t.candidate_state@ == s.candidate_state@.insert(collator, CollatorCandidate { state: CollatorStatus::Active, ..c })
            &&& key_map(t.candidate_pool@) == key_map(s.candidate_pool@).insert(
                collator,
                Bond { owner: collator, amount: c.total_counted, liquidity_token: c.liquidity_token },
            )
            &&& t == (Staking { candidate_state: t.candidate_state, candidate_pool: t.candidate_pool, ..s })
        }
    }
}

/// Withdrawing a request to leave undoes it: an active candidate whose pool
/// entry is its counted total, in a pool within the configured size, that
/// schedules its exit and then cancels it has the same state and pool entry
/// as before, and nothing else changed.
pub proof fn law_cancel_leave_candidates_undoes_schedule(
    s: Staking,
    t: Staking,
    u: Staking,
    collator: AccountId,
    count1: u32,
    count2: u32,
    r1: Result<Event, Error>,
    r2: Result<Event, Error>,
)
    requires
        s.inv(),
        t.inv(),
        s.candidate_state@.contains_key(collator),
        s.candidate_state@[collator].state == CollatorStatus::Active,
        key_map(s.candidate_pool@).contains_key(collator),
        key_map(s.candidate_pool@)[collator] == (Bond {
            owner: collator,
            amount: s.candidate_state@[collator].total_counted,
            liquidity_token: s.candidate_state@[collator].liquidity_token,
        }),
        s.candidate_pool@.len() <= s.config.max_collator_candidates,
        count1 >= s.candidate_pool@.len(),
        count2 >= s.candidate_pool@.len(),
        leave_candidates_scheduled(s, t, collator, count1, r1),
        leave_candidates_cancelled(t, u, collator, count2, r2),
    ensures
        r1 is Ok,
        r2 == Ok::<Event, Error>(Event::CancelledCandidateExit(collator)),
        u.candidate_state@ == s.candidate_state@,
        key_map(u.candidate_pool@) == key_map(s.candidate_pool@),
        u == (Staking { candidate_state: u.candidate_state, candidate_pool: u.candidate_pool, ..s }),
{
    crate::ordered_set::lemma_key_map_len(s.candidate_pool@);
    crate::ordered_set::lemma_key_map_len(t.candidate_pool@);
    assert(s.candidate_pool@.len() <= u32::MAX);
    assert(key_map(s.candidate_pool@).dom().remove(collator).len() == key_map(s.candidate_pool@).dom().len() - 1);
    assert(key_map(t.candidate_pool@).dom() =~= key_map(s.candidate_pool@).dom().remove(collator));
    assert(!key_map(t.candidate_pool@).contains_key(collator));
    assert(!has_key(t.candidate_pool@, collator));
    let c = s.candidate_state@[collator];
    assert(u.candidate_state@ =~= s.candidate_state@) by {
        assert(CollatorCandidate { state: CollatorStatus::Active, ..t.candidate_state@[collator] } == c);
    }
    assert(key_map(u.candidate_pool@) =~= key_map(s.candidate_pool@));
}

/// `t` is `s` after `acc` asked to increase its delegation to `candidate` by
/// `more` (`can_bond`: whether its free balance covers it), answered `r`.
pub open spec fn delegation_increase_scheduled(
    s: Staking,
    t: Staking,
    acc: AccountId,
    candidate: AccountId,
    more: Balance,
    can_bond: bool,
    r: Result<Event, Error>,
) -> bool {
    if !s.delegator_state@.contains_key(acc) {
        r == Err::<Event, Error>(Error::DelegatorDNE) && t == s
    } else {
        let d = s.delegator_state@[acc];
        let when = sat_add_u32(s.round.current, s.config.delegation_bond_delay);
        if !has_key(d.delegations@, candidate) {
            r == Err::<Event, Error>(Error::DelegationDNE) && t == s
        } else if !can_bond {
            r == Err::<Event, Error>(Error::InsufficientBalance) && t == s
        } else if d.requests.requests@.contains_key(candidate) {
            r == Err::<Event, Error>(Error::PendingDelegationRequestAlreadyExists) && t == s
        } else {
            &&& r == Ok::<Event, Error>(Event::DelegationIncreaseScheduled(acc, candidate, more, when))
            &&& request_added(s, t, acc, candidate, DelegationRequest {
                collator: candidate,
                amount: more,
                when_executable: when,
                action: DelegationChange::Increase,
            })
        }
    }
}

/// `t` is `s` after `acc` withdrew its pending request for `candidate`,
/// answered `r`.
pub open spec fn delegation_request_cancelled(s: Staking, t: Staking, acc: AccountId, candidate: AccountId, r: Result<Event, Error>) -> bool {
    if !s.delegator_state@.contains_key(acc) {
        r == Err::<Event, Error>(Error::DelegatorDNE) && t == s
    } else if !s.delegator_state@[acc].requests.requests@.contains_key(candidate) {
        r == Err::<Event, Error>(Error::PendingDelegationRequestDNE) && t == s
    } else {
        let d = s.delegator_state@[acc];
        let d2 = t.delegator_state@[acc];
        &&& r == Ok::<Event, Error>(Event::CancelledDelegationRequest(acc, d.requests.requests@[candidate]))
        &&& t.delegator_state@.dom() == s.delegator_state@.dom()
        &&& forall|k: AccountId| k != acc && #[trigger] s.delegator_state@.contains_key(k)
            ==> t.delegator_state@[k] == s.delegator_state@[k]
        &&& d2.id == d.id && d2.delegations == d.delegations && d2.status == d.status
        &&& d2.requests.requests@ == d.requests.requests@.remove(candidate)
        &&& t == (Staking { delegator_state: t.delegator_state, ..s })
    }
}

/// Withdrawing a request to increase a delegation undoes it: the delegator
/// has the same delegations, status and pending requests as before, the
/// cancellation reports the request, and nothing else changed.
pub proof fn law_cancel_delegation_request_undoes_increase(
    s: Staking,
    t: Staking,
    u: Staking,
    acc: AccountId,
    candidate: AccountId,
    more: Balance,
    r1: Result<Event, Error>,
    r2: Result<Event, Error>,
)
    requires
        s.delegator_state@.contains_key(acc),
        has_key(s.delegator_state@[acc].delegations@, candidate),
        !s.delegator_state@[acc].requests.requests@.contains_key(candidate),
        delegation_increase_scheduled(s, t, acc, candidate, more, true, r1),
        delegation_request_cancelled(t, u, acc, candidate, r2),
    ensures
        r2 == Ok::<Event, Error>(Event::CancelledDelegationRequest(acc, DelegationRequest {
            collator: candidate,
            amount: more,
            when_executable: sat_add_u32(s.round.current, s.config.delegation_bond_delay),
            action: DelegationChange::Increase,
        })),
        u.delegator_state@.dom() == s.delegator_state@.dom(),
        forall|k: AccountId| k != acc && #[trigger] s.delegator_state@.contains_key(k)
            ==> u.delegator_state@[k] == s.delegator_state@[k],
        u.delegator_state@[acc].delegations == s.delegator_state@[acc].delegations,
        u.delegator_state@[acc].status == s.delegator_state@[acc].status,
        u.delegator_state@[acc].requests.requests@ == s.delegator_state@[acc].requests.requests@,
        u == (Staking { delegator_state: u.delegator_state, ..s }),
{
    let reqs = s.delegator_state@[acc].requests.requests@;
    assert(t.delegator_state@[acc].requests.requests@.remove(candidate) =~= reqs);
}

/// Cancelling a scheduled exit undoes it: an active delegator that asks to
/// leave and then withdraws the request is back where it started.
pub proof fn law_cancel_leave_undoes_schedule(s: Staking, t: Staking, u: Staking, acc: AccountId, r1: Result<Event, Error>, r2: Result<Event, Error>)
    requires
        s.delegator_state@.contains_key(acc),
        s.delegator_state@[acc].status == DelegatorStatus::Active,
        leave_delegators_scheduled(s, t, acc, r1),
        leave_delegators_cancelled(t, u, acc, r2),
    ensures
        r1 is Ok,
        r2 == Ok::<Event, Error>(Event::DelegatorExitCancelled(acc)),
        u.delegator_state@ == s.delegator_state@,
        u == (Staking { delegator_state: u.delegator_state, ..s }),
{
    assert(u.delegator_state@ =~= s.delegator_state@);
}

impl Staking {
    /// What every call keeps: the candidate pool is ordered, every candidate
    /// keeps its invariant with the configured top size (which is not zero),
    /// every delegator's delegations are ordered by collator, each state is
    /// stored under its own account, and each aggregator's approved candidates
    /// are ordered.
    pub open spec fn inv(&self) -> bool {
        &&& self.candidate_pool.wf()
        &&& self.config.max_delegators_per_candidate > 0
        &&& forall|c: AccountId| #[trigger]
            self.candidate_state@.contains_key(c) ==> self.candidate_state@[c].wf(
                self.config.max_delegators_per_candidate,
            ) && self.candidate_state@[c].id == c
        &&& forall|d: AccountId| #[trigger]
            self.delegator_state@.contains_key(d) ==> self.delegator_state@[d].delegations.wf()
                && self.delegator_state@[d].id == d
        &&& forall|a: AccountId| #[trigger]
            self.aggregators@.contains_key(a) ==> self.aggregators@[a].approved_candidates.wf()
    }

    /// The valuation of `bond` of `token`: half of it in the native token,
    /// otherwise `valuation`, what the runtime's valuator gives for it.
    pub open spec fn spec_valuate_bond(&self, token: CurrencyId, bond: Balance, valuation: Balance) -> Balance {
        if token == self.config.native_token_id {
            bond / 2
        } else {
            valuation
        }
    }

    fn valuate_bond(&self, token: CurrencyId, bond: Balance, valuation: Balance) -> (r: Balance)
        ensures
            r == self.spec_valuate_bond(token, bond, valuation),
    {
        if token == self.config.native_token_id {
            bond / 2
        } else {
            valuation
        }
    }

    /// The empty storage of a chain configured with `config`: no candidates,
    /// delegators, aggregators or rounds recorded, the configured commission
    /// and number selected, and round zero starting at block zero.
    pub fn new(config: StakingConfig) -> (r: Staking)
        requires
            config.max_delegators_per_candidate > 0,
        ensures
            r.inv(),
            r.config == config,
            r.collator_commission == config.default_collator_commission,
            r.total_selected == config.min_selected_candidates,
            r.round == (RoundInfo { current: 0, first: 0, length: config.blocks_per_round }),
            r.delegator_state@.len() == 0,
            r.candidate_state@.len() == 0,
            r.selected_candidates@.len() == 0,
            r.total@.len() == 0,
            r.candidate_pool@.len() == 0,
            r.staking_liquidity_tokens@.len() == 0,
            r.candidate_aggregator@.len() == 0,
            r.aggregators@.len() == 0,
            r.at_stake@.len() == 0,
            r.points@.len() == 0,
            r.awarded_pts@.len() == 0,
            r.round_collator_reward_info@.len() == 0,
            r.round_aggregator_info@.len() == 0,
    {
        Staking {
            config,
            collator_commission: config.default_collator_commission,
            total_selected: config.min_selected_candidates,
            round: RoundInfo::new(0, 0, config.blocks_per_round),
            delegator_state: BTreeMap::new(),
            candidate_state: BTreeMap::new(),
            selected_candidates: Vec::new(),
            total: BTreeMap::new(),
            candidate_pool: OrderedSet::new(),
            staking_liquidity_tokens: BTreeMap::new(),
            candidate_aggregator: BTreeMap::new(),
            aggregators: BTreeMap::new(),
            at_stake: BTreeMap::new(),
            points: BTreeMap::new(),
            awarded_pts: BTreeMap::new(),
            round_collator_reward_info: BTreeMap::new(),
            round_aggregator_info: BTreeMap::new(),
        }
    }

    /// Whether `acc` delegates.
    pub fn is_delegator(&self, acc: AccountId) -> (r: bool)
        ensures
            r == self.delegator_state@.contains_key(acc),
    {
        self.delegator_state.contains_key(&acc)
    }

    /// Whether `acc` is a candidate.
    pub fn is_candidate(&self, acc: AccountId) -> (r: bool)
        ensures
            r == self.candidate_state@.contains_key(acc),
    {
        self.candidate_state.contains_key(&acc)
    }

    /// Whether `acc` is an aggregator.
    pub fn is_aggregator(&self, acc: AccountId) -> (r: bool)
        ensures
            r == self.aggregators@.contains_key(acc),
    {
        self.aggregators.contains_key(&acc)
    }

    /// Whether `acc` is among the selected candidates, which are kept sorted.
    pub fn is_selected_candidate(&self, acc: AccountId) -> (r: bool)
        ensures
            r == self.selected_candidates@.contains(acc),
    {
        let mut i: usize = 0;
        while i < self.selected_candidates.len()
            invariant
                i <= self.selected_candidates@.len(),
                forall|j: int| 0 <= j < i ==> self.selected_candidates@[j] != acc,
            decreases self.selected_candidates@.len() - i,
        {
            if self.selected_candidates[i] == acc {
                return true;
            }
            i = i + 1;
        }
        false
    }

    /// Adds `amount` to the total locked in `token`, saturating.
    fn add_to_total(&mut self, token: CurrencyId, amount: Balance)
        ensures
            *final(self) == (Staking { total: final(self).total, ..*old(self) }),
            final(self).total@ == old(self).total@.insert(
                token,
                sat_add_u128(amount_or_zero(old(self).total@, token), amount),
            ),
    {
        let before = match self.total.get(&token) {
            Some(v) => *v,
            None => 0,
        };
        self.total.insert(token, before.saturating_add(amount));
    }

    /// Takes `amount` off the total locked in `token`, saturating at zero.
    fn sub_from_total(&mut self, token: CurrencyId, amount: Balance)
        ensures
            *final(self) == (Staking { total: final(self).total, ..*old(self) }),
            final(self).total@ == old(self).total@.insert(
                token,
                if amount_or_zero(old(self).total@, token) >= amount {
                    (amount_or_zero(old(self).total@, token) - amount) as u128
                } else {
                    0
                },
            ),
    {
        let before = match self.total.get(&token) {
            Some(v) => *v,
            None => 0,
        };
        self.total.insert(token, before.saturating_sub(amount));
    }

    /// Puts `candidate` in the candidate pool with counted backing `total`, in
    /// place of its earlier entry if any.
    fn update_active(&mut self, candidate: AccountId, total: Balance, candidate_liquidity_token: CurrencyId)
        requires
            old(self).candidate_pool.wf(),
        ensures
            final(self).candidate_pool.wf(),
            key_map(final(self).candidate_pool@) == key_map(old(self).candidate_pool@).insert(
                candidate,
                Bond { owner: candidate, amount: total, liquidity_token: candidate_liquidity_token },
            ),
            final(self).candidate_pool@.len() == old(self).candidate_pool@.len() + (if has_key(
                old(self).candidate_pool@,
                candidate,
            ) {
                0int
            } else {
                1int
            }),
            *final(self) == (Staking { candidate_pool: final(self).candidate_pool, ..*old(self) }),
    {
        self.candidate_pool.upsert(
            Bond { owner: candidate, amount: total, liquidity_token: candidate_liquidity_token },
        );
    }

    /// `delegator` stops delegating to `collator`: the collator forgets the
    /// delegation, the runtime is to release its stake, and the pool entry
    /// follows the collator's counted total when the delegation was counted and
    /// the collator is active.
    pub fn delegator_leaves_collator(&mut self, delegator: AccountId, collator: AccountId) -> (r: Result<(Event, ReserveCall), Error>)
        requires
            old(self).inv(),
        ensures
            final(self).inv(),
            !old(self).candidate_state@.contains_key(collator) ==> r == Err::<(Event, ReserveCall), Error>(Error::CandidateDNE)
                && *final(self) == *old(self),
            old(self).candidate_state@.contains_key(collator) && !has_key(
                old(self).candidate_state@[collator].delegators@,
                delegator,
            ) ==> r == Err::<(Event, ReserveCall), Error>(Error::DelegatorDNEInDelegatorSet) && *final(self) == *old(self),
            old(self).candidate_state@.contains_key(collator) && has_key(
                old(self).candidate_state@[collator].delegators@,
                delegator,
            ) ==> (r matches Ok((ev, call)) && self_left_collator(*old(self), *final(self), delegator, collator, ev, call)),
    {
        let (token, listed) = match self.candidate_state.get(&collator) {
            Some(c) => (c.liquidity_token, c.delegators.contains(&delegator)),
            None => {
                return Err(Error::CandidateDNE);
            },
        };
        if !listed {
            return Err(Error::DelegatorDNEInDelegatorSet);
        }
        let mut state = self.candidate_state.remove(&collator).unwrap();
        let (total_changed, delegator_stake) = match state.rm_delegator(delegator) {
            Ok(x) => x,
            Err(_) => {
                proof {
                    assert(false);
                }
                (false, 0)
            },
        };
        if state.is_active() && total_changed {
            self.update_active(collator, state.total_counted, token);
        }
        self.sub_from_total(token, delegator_stake);
        let new_total = state.total_counted;
        self.candidate_state.insert(collator, state);
        proof {
            assert(self.candidate_state@ =~= old(self).candidate_state@.insert(collator, state));
        }
        Ok((
            Event::DelegatorLeftCandidate(delegator, collator, delegator_stake, new_total),
            ReserveCall::Unbond { token, account: delegator, amount: delegator_stake },
        ))
    }

    /// Carries out the exit of `delegator`, leaving since a round not after the
    /// current one: it leaves each collator it backs in turn (the runtime is to
    /// release each stake), and its state goes. `delegation_count` bounds its
    /// number of delegations.
    pub fn execute_leave_delegators(&mut self, delegator: AccountId, delegation_count: u32) -> (r: Result<(Vec<Event>, Vec<ReserveCall>), Error>)
        requires
            old(self).inv(),
        ensures
            final(self).inv(),
            !old(self).delegator_state@.contains_key(delegator) ==> r == Err::<(Vec<Event>, Vec<ReserveCall>), Error>(Error::DelegatorDNE)
                && *final(self) == *old(self),
            old(self).delegator_state@.contains_key(delegator) ==> {
                let d = old(self).delegator_state@[delegator];
                let check = d.can_execute_leave_spec(old(self).round.current, delegation_count);
                &&& check is Err ==> r == Err::<(Vec<Event>, Vec<ReserveCall>), Error>(check->Err_0) && *final(self) == *old(self)
                &&& check is Ok ==> (r matches Ok((events, calls)) && exists|states: Seq<Staking>, outs: Seq<Option<(Event, ReserveCall)>>| {
                    &&& leave_chain(states, delegator, d.delegations@, outs)
                    &&& states[0] == *old(self)
                    &&& final(self).delegator_state@ == states.last().delegator_state@.remove(delegator)
                    &&& *final(self) == (Staking { delegator_state: final(self).delegator_state, ..states.last() })
                    &&& events@ == step_events(outs).push(Event::DelegatorLeft(delegator, sat_sum_amounts(d.delegations@)))
                    &&& calls@ == step_calls(outs)
                })
            },
    {
        let state = match self.delegator_state.get(&delegator) {
            Some(d) => d.duplicate(),
            None => {
                return Err(Error::DelegatorDNE);
            },
        };
        if let Err(e) = state.can_execute_leave(self.round.current, delegation_count) {
            return Err(e);
        }
        let ghost s0 = *self;
        let ghost bonds = state.delegations@;
        let ghost mut states: Seq<Staking> = seq![*self];
        let ghost mut outs: Seq<Option<(Event, ReserveCall)>> = Seq::empty();
        let mut events: Vec<Event> = Vec::new();
        let mut calls: Vec<ReserveCall> = Vec::new();
        let mut amount_unstaked: Balance = 0;
        let mut i: usize = 0;
        while i < state.delegations.0.len()
            invariant
                bonds == state.delegations@,
                i <= bonds.len(),
                self.inv(),
                leave_chain(states, delegator, bonds.take(i as int), outs),
                states[0] == s0,
                states.last() == *self,
                self.delegator_state@ == s0.delegator_state@,
                events@ == step_events(outs),
                calls@ == step_calls(outs),
                amount_unstaked == sat_sum_amounts(bonds.take(i as int)),
            decreases bonds.len() - i,
        {
            let bond = state.delegations.0[i];
            amount_unstaked = amount_unstaked.saturating_add(bond.amount);
            let ghost before = *self;
            let ghost mut out: Option<(Event, ReserveCall)> = None;
            match self.delegator_leaves_collator(delegator, bond.owner) {
                Ok((ev, call)) => {
                    proof {
                        out = Some((ev, call));
                    }
                    events.push(ev);
                    calls.push(call);
                },
                Err(_) => {},
            }
            proof {
                assert(bonds.take(i as int + 1).drop_last() == bonds.take(i as int));
                let old_outs = outs;
                outs = outs.push(out);
                states = states.push(*self);
                assert(outs.drop_last() == old_outs);
                assert(outs.last() == out);
                assert(outs.drop_last() == outs.take(i as int));
                assert(leave_step(before, *self, delegator, bond.owner, out));
                assert forall|j: int| #![trigger outs[j]] 0 <= j < i as int + 1
                    implies leave_step(states[j], states[j + 1], delegator, bonds.take(i as int + 1)[j].owner, outs[j]) by {
                    if j < i as int {
                        assert(outs[j] == outs.drop_last()[j]);
                    }
                }
            }
            i = i + 1;
        }
        proof {
            assert(bonds.take(i as int) == bonds);
        }
        self.delegator_state.remove(&delegator);
        events.push(Event::DelegatorLeft(delegator, amount_unstaked));
        Ok((events, calls))
    }

    /// Detaches `candidate` from its aggregator: it no longer aggregates, and the
    /// aggregator no longer holds it under its token.
    pub fn remove_aggregator_for_collator(&mut self, candidate: AccountId) -> (r: Result<(), Error>)
        requires
            old(self).inv(),
        ensures
            final(self).inv(),
            !old(self).candidate_aggregator@.contains_key(candidate) ==> r == Err::<(), Error>(Error::CandidateNotAggregating)
                && *final(self) == *old(self),
            old(self).candidate_aggregator@.contains_key(candidate) && !old(self).aggregators@.contains_key(
                old(self).candidate_aggregator@[candidate],
            ) ==> r == Err::<(), Error>(Error::AggregatorDNE) && *final(self) == *old(self),
            old(self).candidate_aggregator@.contains_key(candidate) && old(self).aggregators@.contains_key(
                old(self).candidate_aggregator@[candidate],
            ) && !old(self).candidate_state@.contains_key(candidate) ==> r == Err::<(), Error>(Error::CandidateDNE)
                && *final(self) == *old(self),
            old(self).candidate_aggregator@.contains_key(candidate) && old(self).aggregators@.contains_key(
                old(self).candidate_aggregator@[candidate],
            ) && old(self).candidate_state@.contains_key(candidate) ==> {
                &&& r == Ok::<(), Error>(())
                &&& final(self).candidate_aggregator@ == old(self).candidate_aggregator@.remove(candidate)
                &&& token_released(*old(self), *final(self), old(self).candidate_aggregator@[candidate], old(self).candidate_state@[candidate].liquidity_token)
                &&& *final(self) == (Staking {
                    candidate_aggregator: final(self).candidate_aggregator,
                    aggregators: final(self).aggregators,
                    ..*old(self)
                })
            },
    {
        let agg = match self.candidate_aggregator.get(&candidate) {
            Some(a) => *a,
            None => {
                return Err(Error::CandidateNotAggregating);
            },
        };
        if !self.aggregators.contains_key(&agg) {
            return Err(Error::AggregatorDNE);
        }
        let token = match self.candidate_state.get(&candidate) {
            Some(c) => c.liquidity_token,
            None => {
                return Err(Error::CandidateDNE);
            },
        };
        self.candidate_aggregator.remove(&candidate);
        let mut meta = self.aggregators.remove(&agg).unwrap();
        meta.token_collator_map.remove(&token);
        self.aggregators.insert(agg, meta);
        proof {
            assert(self.aggregators@.dom() =~= old(self).aggregators@.dom());
        }
        Ok(())
    }

    /// Carries out the exit of `candidate`, leaving since a round not after the
    /// current one: every delegation to it goes (the runtime is to release each,
    /// top delegations first, then the candidate's own bond), the candidate stops
    /// aggregating if it did, its state goes and its backing leaves the total.
    /// `candidate_delegation_count` bounds its number of delegators.
    #[verifier::rlimit(40)]
    pub fn execute_leave_candidates(&mut self, candidate: AccountId, candidate_delegation_count: u32) -> (r: Result<(Event, Vec<ReserveCall>), Error>)
        requires
            old(self).inv(),
            old(self).candidate_state@.contains_key(candidate) ==> forall|j: int|
                0 <= j < (old(self).candidate_state@[candidate].top_delegations@
                    + old(self).candidate_state@[candidate].bottom_delegations@).len()
                    ==> old(self).delegator_state@.contains_key(
                    #[trigger] (old(self).candidate_state@[candidate].top_delegations@
                        + old(self).candidate_state@[candidate].bottom_delegations@)[j].owner,
                ),
        ensures
            final(self).inv(),
            !old(self).candidate_state@.contains_key(candidate) ==> r == Err::<(Event, Vec<ReserveCall>), Error>(Error::CandidateDNE)
                && *final(self) == *old(self),
            old(self).candidate_state@.contains_key(candidate) ==> {
                let c = old(self).candidate_state@[candidate];
                let all = c.top_delegations@ + c.bottom_delegations@;
                if c.delegators@.len() > candidate_delegation_count {
                    r == Err::<(Event, Vec<ReserveCall>), Error>(Error::TooLowCandidateCountToLeaveCandidates)
                        && *final(self) == *old(self)
                } else if c.can_leave_spec(old(self).round.current) is Err {
                    r == Err::<(Event, Vec<ReserveCall>), Error>(
                        c.can_leave_spec(old(self).round.current)->Err_0,
                    ) && *final(self) == *old(self)
                } else {
                    r matches Ok((ev, calls)) && {
                        let new_total = ev->CandidateLeft_2;
                        &&& ev == Event::CandidateLeft(candidate, c.total_backing, new_total)
                        &&& calls@ == unbond_calls(all).push(ReserveCall::Unbond { token: c.liquidity_token, account: c.id, amount: c.bond })
                        &&& final(self).candidate_state@ == old(self).candidate_state@.remove(candidate)
                        &&& final(self).total@ == total_less(old(self).total@, c.liquidity_token, c.total_backing)
                        &&& new_total == final(self).total@[c.liquidity_token]
                        &&& forall|k: AccountId| !owns_one_of(all, k) ==> (#[trigger] final(self).delegator_state@.contains_key(k)
                            == old(self).delegator_state@.contains_key(k) && (old(self).delegator_state@.contains_key(k)
                            ==> final(self).delegator_state@[k] == old(self).delegator_state@[k]))
                        &&& forall|k: AccountId| #[trigger] owns_one_of(all, k) ==> delegator_after_candidate_left(
                            old(self).delegator_state@[k], final(self).delegator_state@, k, candidate)
                        &&& (if old(self).candidate_aggregator@.contains_key(candidate)
                            && old(self).aggregators@.contains_key(old(self).candidate_aggregator@[candidate]) {
                            &&& final(self).candidate_aggregator@ == old(self).candidate_aggregator@.remove(candidate)
                            &&& token_released(*old(self), *final(self), old(self).candidate_aggregator@[candidate], c.liquidity_token)
                        } else {
                            &&& final(self).candidate_aggregator == old(self).candidate_aggregator
                            &&& final(self).aggregators == old(self).aggregators
                        })
                        &&& *final(self) == (Staking {
                            candidate_state: final(self).candidate_state,
                            delegator_state: final(self).delegator_state,
                            total: final(self).total,
                            candidate_aggregator: final(self).candidate_aggregator,
                            aggregators: final(self).aggregators,
                            ..*old(self)
                        })
                    }
                }
            },
    {
        let now = self.round.current;
        let (n, can) = match self.candidate_state.get(&candidate) {
            Some(c) => (c.delegators.0.len(), c.can_leave(now)),
            None => {
                return Err(Error::CandidateDNE);
            },
        };
        if n > candidate_delegation_count as usize {
            return Err(Error::TooLowCandidateCountToLeaveCandidates);
        }
        if let Err(e) = can {
            return Err(e);
        }
        let state = self.candidate_state.remove(&candidate).unwrap();
        let ghost s0 = *self;
        let ghost all = state.top_delegations@ + state.bottom_delegations@;
        proof {
            lemma_owners_distinct(state);
        }
        let all_v = concat_bonds(&state.top_delegations, &state.bottom_delegations);
        let mut calls: Vec<ReserveCall> = Vec::new();
        let mut i: usize = 0;
        while i < all_v.len()
            invariant
                all == all_v@,
                i <= all.len(),
                forall|a: int, b: int| 0 <= a < b < all.len() ==> all[a].owner != all[b].owner,
                forall|j: int| 0 <= j < all.len() ==> s0.delegator_state@.contains_key(#[trigger] all[j].owner),
                calls@ == unbond_calls(all.take(i as int)),
                forall|d: AccountId| #[trigger] self.delegator_state@.contains_key(d) ==> self.delegator_state@[d].delegations.wf()
                    && self.delegator_state@[d].id == d,
                forall|d: AccountId| #[trigger] s0.delegator_state@.contains_key(d) ==> s0.delegator_state@[d].delegations.wf()
                    && s0.delegator_state@[d].id == d,
                forall|k: AccountId| !owns_one_of(all.take(i as int), k) ==> #[trigger] untouched(self.delegator_state@, s0.delegator_state@, k),
                forall|k: AccountId| #[trigger] owns_one_of(all.take(i as int), k) ==> delegator_after_candidate_left(
                    s0.delegator_state@[k], self.delegator_state@, k, candidate),
                *self == (Staking { delegator_state: self.delegator_state, ..s0 }),
            decreases all.len() - i,
        {
            let bond = all_v[i];
            calls.push(ReserveCall::Unbond { token: bond.liquidity_token, account: bond.owner, amount: bond.amount });
            let ghost before = self.delegator_state@;
            let ghost k0 = bond.owner;
            proof {
                assert(!owns_one_of(all.take(i as int), k0)) by {
                    if owns_one_of(all.take(i as int), k0) {
                        let j = choose|j: int| 0 <= j < all.take(i as int).len() && #[trigger] all.take(i as int)[j].owner == k0;
                        assert(all[j].owner == all[i as int].owner);
                    }
                }
                assert(s0.delegator_state@.contains_key(all[i as int].owner));
                assert(untouched(self.delegator_state@, s0.delegator_state@, k0));
                assert(self.delegator_state@.contains_key(k0) == s0.delegator_state@.contains_key(k0));
                assert(self.delegator_state@[k0] == s0.delegator_state@[k0]);
            }
            let ghost d0 = s0.delegator_state@[k0];
            if let Some(mut delegator) = self.delegator_state.remove(&bond.owner) {
                if let Some(_) = delegator.rm_delegation(candidate) {
                    proof {
                        let j = choose|j: int| 0 <= j < d0.delegations@.len() && d0.delegations@[j].owner == candidate
                            && delegator.delegations@ == d0.delegations@.remove(j);
                        lemma_key_map_remove(d0.delegations@, j);
                        assert(delegator.delegations@.len() == d0.delegations@.len() - 1);
                        assert(has_key(d0.delegations@, candidate)) by {
                            assert(d0.delegations@[j].spec_key() == candidate);
                        }
                    }
                    if delegator.delegations.0.len() == 0 {
                        proof {
                            assert(delegator_after_candidate_left(d0, self.delegator_state@, k0, candidate));
                        }
                    } else {
                        delegator.requests.requests.remove(&candidate);
                        self.delegator_state.insert(bond.owner, delegator);
                        proof {
                            assert(delegator_after_candidate_left(d0, self.delegator_state@, k0, candidate));
                        }
                    }
                } else {
                    self.delegator_state.insert(bond.owner, delegator);
                    proof {
                        assert(delegator_after_candidate_left(d0, self.delegator_state@, k0, candidate));
                    }
                }
            }
            proof {
                assert(delegator_after_candidate_left(d0, self.delegator_state@, k0, candidate));
                assert forall|k: AccountId| k != k0 implies (#[trigger] self.delegator_state@.contains_key(k)
                    == before.contains_key(k) && (before.contains_key(k) ==> self.delegator_state@[k] == before[k])) by {
                }
                assert(all.take(i as int + 1) == all.take(i as int).push(bond));
                assert(unbond_calls(all.take(i as int + 1)) =~= unbond_calls(all.take(i as int)).push(
                    ReserveCall::Unbond { token: bond.liquidity_token, account: bond.owner, amount: bond.amount },
                ));
                assert forall|k: AccountId| #[trigger] owns_one_of(all.take(i as int + 1), k) == (owns_one_of(all.take(i as int), k) || k == k0) by {
                    if owns_one_of(all.take(i as int + 1), k) {
                        let j = choose|j: int| 0 <= j < all.take(i as int + 1).len() && #[trigger] all.take(i as int + 1)[j].owner == k;
                        if j < i {
                            assert(all.take(i as int)[j].owner == k);
                        }
                    }
                    if owns_one_of(all.take(i as int), k) {
                        let j = choose|j: int| 0 <= j < all.take(i as int).len() && #[trigger] all.take(i as int)[j].owner == k;
                        assert(all.take(i as int + 1)[j].owner == k);
                    }
                    if k == k0 {
                        assert(all.take(i as int + 1)[i as int].owner == k);
                    }
                }
                assert forall|k: AccountId| !owns_one_of(all.take(i as int + 1), k) implies #[trigger] untouched(self.delegator_state@, s0.delegator_state@, k) by {
                    assert(k != k0);
                    assert(!owns_one_of(all.take(i as int), k));
                    assert(untouched(before, s0.delegator_state@, k));
                    assert(before.contains_key(k) == s0.delegator_state@.contains_key(k));
                    assert(self.delegator_state@.contains_key(k) == before.contains_key(k));
                    if s0.delegator_state@.contains_key(k) {
                        assert(before[k] == s0.delegator_state@[k]);
                        assert(self.delegator_state@[k] == before[k]);
                    }
                }
                assert forall|k: AccountId| #[trigger] owns_one_of(all.take(i as int + 1), k) implies delegator_after_candidate_left(
                    s0.delegator_state@[k], self.delegator_state@, k, candidate) by {
                    if k != k0 {
                        assert(owns_one_of(all.take(i as int), k));
                        assert(delegator_after_candidate_left(s0.delegator_state@[k], before, k, candidate));
                    }
                }
            }
            i = i + 1;
        }
        proof {
            assert(all.take(i as int) == all);
            assert forall|k: AccountId| !owns_one_of(all, k) implies (#[trigger] self.delegator_state@.contains_key(k)
                == s0.delegator_state@.contains_key(k) && (s0.delegator_state@.contains_key(k)
                ==> self.delegator_state@[k] == s0.delegator_state@[k])) by {
                assert(untouched(self.delegator_state@, s0.delegator_state@, k));
            }
        }
        calls.push(ReserveCall::Unbond { token: state.liquidity_token, account: state.id, amount: state.bond });
        let token = state.liquidity_token;
        let backing = state.total_backing;
        self.candidate_state.insert(candidate, state);
        proof {
            assert(self.candidate_state@ =~= old(self).candidate_state@);
        }
        let _ = self.remove_aggregator_for_collator(candidate);
        self.candidate_state.remove(&candidate);
        self.sub_from_total(token, backing);
        let new_total_staked = match self.total.get(&token) {
            Some(v) => *v,
            None => 0,
        };
        proof {
            assert(self.candidate_state@ =~= old(self).candidate_state@.remove(candidate));
        }
        Ok((Event::CandidateLeft(candidate, backing, new_total_staked), calls))
    }

    /// The error `join_candidates` fails with, if any.
    pub open spec fn join_candidates_error(
        &self,
        acc: AccountId,
        bond: Balance,
        liquidity_token: CurrencyId,
        candidate_count: u32,
        liquidity_token_count: u32,
        valuation: Balance,
    ) -> Option<Error> {
        if self.candidate_state@.contains_key(acc) {
            Some(Error::CandidateExists)
        } else if self.delegator_state@.contains_key(acc) {
            Some(Error::DelegatorExists)
        } else if self.aggregators@.contains_key(acc) {
            Some(Error::AggregatorExists)
        } else if liquidity_token_count < self.staking_liquidity_tokens@.len() {
            Some(Error::TooLowCurrentStakingLiquidityTokensCount)
        } else if !self.staking_liquidity_tokens@.contains_key(liquidity_token)
            && liquidity_token != self.config.native_token_id {
            Some(Error::StakingLiquidityTokenNotListed)
        } else if self.spec_valuate_bond(liquidity_token, bond, valuation) < self.config.min_candidate_stk {
            Some(Error::CandidateBondBelowMin)
        } else if (self.candidate_pool@.len() as u32) >= self.config.max_collator_candidates {
            Some(Error::ExceedMaxCollatorCandidates)
        } else if candidate_count < (self.candidate_pool@.len() as u32) {
            Some(Error::TooLowCandidateCountWeightHintJoinCandidates)
        } else if has_key(self.candidate_pool@, acc) {
            Some(Error::CandidateExists)
        } else {
            None
        }
    }

    /// `acc` becomes a candidate with self bond `bond` of `liquidity_token`,
    /// which must be listed for staking or be the native token. `valuation` is
    /// what the runtime's valuator gives for `bond` (unused for the native
    /// token). On success the runtime is to reserve `bond` from `acc`.
    pub fn join_candidates(
        &mut self,
        acc: AccountId,
        bond: Balance,
        liquidity_token: CurrencyId,
        use_balance_from: Option<BondKind>,
        candidate_count: u32,
        liquidity_token_count: u32,
        valuation: Balance,
    ) -> (r: Result<(Event, ReserveCall), Error>)
        requires
            old(self).inv(),
        ensures
            final(self).inv(),
            join_outcome(*old(self), *final(self), acc, bond, liquidity_token, use_balance_from, candidate_count, liquidity_token_count, valuation, r),
    {
        if self.is_candidate(acc) {
            return Err(Error::CandidateExists);
        }
        if self.is_delegator(acc) {
            return Err(Error::DelegatorExists);
        }
        if self.is_aggregator(acc) {
            return Err(Error::AggregatorExists);
        }
        if (liquidity_token_count as usize) < self.staking_liquidity_tokens.len() {
            return Err(Error::TooLowCurrentStakingLiquidityTokensCount);
        }
        if !(self.staking_liquidity_tokens.contains_key(&liquidity_token)
            || liquidity_token == self.config.native_token_id) {
            return Err(Error::StakingLiquidityTokenNotListed);
        }
        if self.valuate_bond(liquidity_token, bond, valuation) < self.config.min_candidate_stk {
            return Err(Error::CandidateBondBelowMin);
        }
        #[verifier::truncate]
        let old_count = self.candidate_pool.0.len() as u32;
        if old_count >= self.config.max_collator_candidates {
            return Err(Error::ExceedMaxCollatorCandidates);
        }
        if candidate_count < old_count {
            return Err(Error::TooLowCandidateCountWeightHintJoinCandidates);
        }
        let nb = Bond { owner: acc, amount: bond, liquidity_token };
        if self.candidate_pool.contains(&nb) {
            return Err(Error::CandidateExists);
        }
        let ghost p0 = self.candidate_pool@;
        self.candidate_pool.insert(nb);
        proof {
            let i = choose|i: int| 0 <= i <= p0.len() && self.candidate_pool@ == p0.insert(i, nb);
            crate::ordered_set::lemma_key_map_insert(p0, i, nb);
        }
        let candidate = CollatorCandidate::new(acc, bond, liquidity_token);
        self.candidate_state.insert(acc, candidate);
        self.add_to_total(liquidity_token, bond);
        let new_total = match self.total.get(&liquidity_token) {
            Some(v) => *v,
            None => 0,
        };
        Ok((
            Event::JoinedCollatorCandidates(acc, bond, new_total),
            ReserveCall::Bond { token: liquidity_token, account: acc, amount: bond, use_balance_from },
        ))
    }

    /// Carries out the pending request of the delegator `delegator` to
    /// `candidate`, as `Delegator::execute_pending_request` does for its state.
    pub fn execute_delegation_request(&mut self, delegator: AccountId, candidate: AccountId, use_balance_from: Option<BondKind>) -> (r: Result<(Vec<Event>, ReserveCall), Error>)
        requires
            old(self).inv(),
            old(self).delegator_state@.contains_key(delegator) ==> ({
                let d = old(self).delegator_state@[delegator];
                let reqs = d.requests.requests@;
                let dels = key_map(d.delegations@);
                reqs.contains_key(candidate) && reqs[candidate].action == DelegationChange::Increase
                    && dels.contains_key(candidate) && old(self).candidate_state@.contains_key(candidate)
                    && !has_key(old(self).candidate_state@[candidate].delegators@, delegator)
                    ==> old(self).candidate_state@[candidate].top_delegations@.len() > 0
            }),
        ensures
            final(self).inv(),
            !old(self).delegator_state@.contains_key(delegator) ==> r == Err::<(Vec<Event>, ReserveCall), Error>(Error::DelegatorDNE)
                && *final(self) == *old(self),
            old(self).delegator_state@.contains_key(delegator) ==> pending_request_executed(
                old(self).delegator_state@[delegator],
                *old(self),
                *final(self),
                candidate,
                use_balance_from,
                r,
            ),
    {
        let state = match self.delegator_state.get(&delegator) {
            Some(d) => d.duplicate(),
            None => {
                return Err(Error::DelegatorDNE);
            },
        };
        state.execute_pending_request(self, candidate, use_balance_from)
    }

    /// Takes `candidate` out of the candidate pool, if it is there.
    fn pool_remove(&mut self, candidate: AccountId)
        requires
            old(self).candidate_pool.wf(),
        ensures
            final(self).candidate_pool.wf(),
            key_map(final(self).candidate_pool@) == key_map(old(self).candidate_pool@).remove(candidate),
            *final(self) == (Staking { candidate_pool: final(self).candidate_pool, ..*old(self) }),
    {
        let ghost p0 = self.candidate_pool@;
        if self.candidate_pool.remove(&Bond::from_owner(candidate)) {
            proof {
                let i = choose|i: int| 0 <= i < p0.len() && p0[i].spec_key() == candidate
                    && self.candidate_pool@ == p0.remove(i);
                lemma_key_map_remove(p0, i);
            }
        } else {
            proof {
                assert(key_map(p0).remove(candidate) =~= key_map(p0));
            }
        }
    }

    /// Sets the number of candidates selected per round, from the next round on.
    pub fn set_total_selected(&mut self, new: u32) -> (r: Result<Event, Error>)
        ensures
            new < old(self).config.min_selected_candidates ==> r == Err::<Event, Error>(Error::CannotSetBelowMin)
                && *final(self) == *old(self),
            new >= old(self).config.min_selected_candidates && new == old(self).total_selected ==> r == Err::<Event, Error>(
                Error::NoWritingSameValue,
            ) && *final(self) == *old(self),
            new >= old(self).config.min_selected_candidates && new != old(self).total_selected ==> r == Ok::<Event, Error>(
                Event::TotalSelectedSet(old(self).total_selected, new),
            ) && *final(self) == (Staking { total_selected: new, ..*old(self) }),
    {
        if new < self.config.min_selected_candidates {
            return Err(Error::CannotSetBelowMin);
        }
        let old_value = self.total_selected;
        if old_value == new {
            return Err(Error::NoWritingSameValue);
        }
        self.total_selected = new;
        Ok(Event::TotalSelectedSet(old_value, new))
    }

    /// Sets the commission of all collators.
    pub fn set_collator_commission(&mut self, new: Perbill) -> (r: Result<Event, Error>)
        ensures
            new == old(self).collator_commission ==> r == Err::<Event, Error>(Error::NoWritingSameValue)
                && *final(self) == *old(self),
            new != old(self).collator_commission ==> r == Ok::<Event, Error>(
                Event::CollatorCommissionSet(old(self).collator_commission, new),
            ) && *final(self) == (Staking { collator_commission: new, ..*old(self) }),
    {
        let old_value = self.collator_commission;
        if old_value.deconstruct() == new.deconstruct() {
            proof {
                old_value.lemma_same_parts(new);
            }
            return Err(Error::NoWritingSameValue);
        }
        self.collator_commission = new;
        Ok(Event::CollatorCommissionSet(old_value, new))
    }

    /// `collator` asks to leave the candidates: it leaves the pool now and may
    /// leave for good after the configured delay. `candidate_count` bounds the
    /// size of the pool.
    pub fn schedule_leave_candidates(&mut self, collator: AccountId, candidate_count: u32) -> (r: Result<Event, Error>)
        requires
            old(self).inv(),
        ensures
            final(self).inv(),
            leave_candidates_scheduled(*old(self), *final(self), collator, candidate_count, r),
    {
        let leaving = match self.candidate_state.get(&collator) {
            Some(c) => c.is_leaving(),
            None => {
                return Err(Error::CandidateDNE);
            },
        };
        if leaving {
            return Err(Error::CandidateAlreadyLeaving);
        }
        #[verifier::truncate]
        let n = self.candidate_pool.0.len() as u32;
        if candidate_count < n {
            return Err(Error::TooLowCandidateCountToLeaveCandidates);
        }
        let now = self.round.current;
        let delay = self.config.leave_candidates_delay;
        let mut state = self.candidate_state.remove(&collator).unwrap();
        let (_, when) = match state.leave(now, delay) {
            Ok(x) => x,
            Err(_) => {
                proof {
                    assert(false);
                }
                (now, now)
            },
        };
        self.pool_remove(collator);
        self.candidate_state.insert(collator, state);
        proof {
            assert(self.candidate_state@ =~= old(self).candidate_state@.insert(collator, state));
        }
        Ok(Event::CandidateScheduledExit(now, collator, when))
    }

    /// `collator`, leaving, takes back its request and is active again, back in
    /// the pool with its counted total. `candidate_count` bounds the pool size.
    pub fn cancel_leave_candidates(&mut self, collator: AccountId, candidate_count: u32) -> (r: Result<Event, Error>)
        requires
            old(self).inv(),
        ensures
            final(self).inv(),
            leave_candidates_cancelled(*old(self), *final(self), collator, candidate_count, r),
    {
        let (leaving, total_counted, token) = match self.candidate_state.get(&collator) {
            Some(c) => (c.is_leaving(), c.total_counted, c.liquidity_token),
            None => {
                return Err(Error::CandidateDNE);
            },
        };
        if !leaving {
            return Err(Error::CandidateNotLeaving);
        }
        self.rejoin_pool(collator, total_counted, token, candidate_count, true)
    }

    /// Puts `collator` back in the pool and makes it active, after the checks
    /// that going online and cancelling an exit share.
    fn rejoin_pool(&mut self, collator: AccountId, total_counted: Balance, token: CurrencyId, candidate_count: u32, cancelling: bool) -> (r: Result<Event, Error>)
        requires
            old(self).inv(),
            old(self).candidate_state@.contains_key(collator),
            old(self).candidate_state@[collator].total_counted == total_counted,
            old(self).candidate_state@[collator].liquidity_token == token,
        ensures
            final(self).inv(),
            ({
                let c = old(self).candidate_state@[collator];
                let n = old(self).candidate_pool@.len();
                if n >= old(self).config.max_collator_candidates {
                    r == Err::<Event, Error>(Error::ExceedMaxCollatorCandidates) && *final(self) == *old(self)
                } else if cancelling && n > candidate_count {
                    r == Err::<Event, Error>(Error::TooLowCandidateCountWeightHintCancelLeaveCandidates)
                        && *final(self) == *old(self)
                } else if has_key(old(self).candidate_pool@, collator) {
                    r == Err::<Event, Error>(Error::AlreadyActive) && *final(self) == *old(self)
                } else {
                    &&& r == Ok::<Event, Error>(if cancelling {
                        Event::CancelledCandidateExit(collator)
                    } else {
                        Event::CandidateBackOnline(old(self).round.current, collator)
                    })
                    &&& final(self).candidate_state@ == old(self).candidate_state@.insert(
                        collator,
                        CollatorCandidate { state: CollatorStatus::Active, ..c },
                    )
                    &&& key_map(final(self).candidate_pool@) == key_map(old(self).candidate_pool@).insert(
                        collator,
                        Bond { owner: collator, amount: c.total_counted, liquidity_token: c.liquidity_token },
                    )
                    &&& *final(self) == (Staking {
                        candidate_state: final(self).candidate_state,
                        candidate_pool: final(self).candidate_pool,
                        ..*old(self)
                    })
                }
            }),
    {
        let n = self.candidate_pool.0.len();
        if n >= self.config.max_collator_candidates as usize {
            return Err(Error::ExceedMaxCollatorCandidates);
        }
        if cancelling && n > candidate_count as usize {
            return Err(Error::TooLowCandidateCountWeightHintCancelLeaveCandidates);
        }
        let nb = Bond { owner: collator, amount: total_counted, liquidity_token: token };
        if self.candidate_pool.contains(&nb) {
            return Err(Error::AlreadyActive);
        }
        let ghost p0 = self.candidate_pool@;
        self.candidate_pool.insert(nb);
        proof {
            let i = choose|i: int| 0 <= i <= p0.len() && self.candidate_pool@ == p0.insert(i, nb);
            crate::ordered_set::lemma_key_map_insert(p0, i, nb);
        }
        let mut state = self.candidate_state.remove(&collator).unwrap();
        state.go_online();
        self.candidate_state.insert(collator, state);
        proof {
            assert(self.candidate_state@ =~= old(self).candidate_state@.insert(collator, state));
        }
        if cancelling {
            Ok(Event::CancelledCandidateExit(collator))
        } else {
            Ok(Event::CandidateBackOnline(self.round.current, collator))
        }
    }

    /// `collator` goes offline: it stays a candidate but leaves the pool.
    pub fn go_offline(&mut self, collator: AccountId) -> (r: Result<Event, Error>)
        requires
            old(self).inv(),
        ensures
            final(self).inv(),
            went_offline(*old(self), *final(self), collator, r),
    {
        let active = match self.candidate_state.get(&collator) {
            Some(c) => c.is_active(),
            None => {
                return Err(Error::CandidateDNE);
            },
        };
        if !active {
            return Err(Error::AlreadyOffline);
        }
        let mut state = self.candidate_state.remove(&collator).unwrap();
        state.go_offline();
        self.pool_remove(collator);
        self.candidate_state.insert(collator, state);
        proof {
            assert(self.candidate_state@ =~= old(self).candidate_state@.insert(collator, state));
        }
        Ok(Event::CandidateWentOffline(self.round.current, collator))
    }

    /// `collator`, offline and not leaving, is active again, back in the pool.
    pub fn go_online(&mut self, collator: AccountId) -> (r: Result<Event, Error>)
        requires
            old(self).inv(),
        ensures
            final(self).inv(),
            went_online(*old(self), *final(self), collator, r),
    {
        let (active, leaving, total_counted, token) = match self.candidate_state.get(&collator) {
            Some(c) => (c.is_active(), c.is_leaving(), c.total_counted, c.liquidity_token),
            None => {
                return Err(Error::CandidateDNE);
            },
        };
        if active {
            return Err(Error::AlreadyActive);
        }
        if leaving {
            return Err(Error::CannotGoOnlineIfLeaving);
        }
        self.rejoin_pool(collator, total_counted, token, 0, false)
    }

    /// `collator` asks to raise its self bond by `more`, executable after the
    /// configured delay; `can_bond` is whether the runtime can reserve `more`
    /// of its token from it.
    pub fn schedule_candidate_bond_more(&mut self, collator: AccountId, more: Balance, can_bond: bool) -> (r: Result<Event, Error>)
        requires
            old(self).inv(),
        ensures
            final(self).inv(),
            bond_more_scheduled(*old(self), *final(self), collator, more, can_bond, r),
    {
        let pending = match self.candidate_state.get(&collator) {
            Some(c) => c.request.is_some(),
            None => {
                return Err(Error::CandidateDNE);
            },
        };
        if pending {
            return Err(Error::PendingCandidateRequestAlreadyExists);
        }
        if !can_bond {
            return Err(Error::InsufficientBalance);
        }
        let now = self.round.current;
        let delay = self.config.candidate_bond_delay;
        let mut state = self.candidate_state.remove(&collator).unwrap();
        let when = match state.schedule_bond_more(more, now, delay, can_bond) {
            Ok(w) => w,
            Err(_) => {
                proof {
                    assert(false);
                }
                now
            },
        };
        self.candidate_state.insert(collator, state);
        proof {
            assert(self.candidate_state@ =~= old(self).candidate_state@.insert(collator, state));
        }
        Ok(Event::CandidateBondMoreRequested(collator, more, when))
    }

    /// `collator` asks to lower its self bond by `less`, executable after the
    /// configured delay; `valuation_after` is the valuation of the self bond
    /// that would remain, which must reach the candidate minimum.
    pub fn schedule_candidate_bond_less(&mut self, collator: AccountId, less: Balance, valuation_after: Balance) -> (r: Result<Event, Error>)
        requires
            old(self).inv(),
        ensures
            final(self).inv(),
            !old(self).candidate_state@.contains_key(collator) ==> r == Err::<Event, Error>(Error::CandidateDNE)
                && *final(self) == *old(self),
            old(self).candidate_state@.contains_key(collator) ==> ({
                let c = old(self).candidate_state@[collator];
                let when = sat_add_u32(old(self).round.current, old(self).config.candidate_bond_delay);
                if c.request is Some {
                    r == Err::<Event, Error>(Error::PendingCandidateRequestAlreadyExists) && *final(self) == *old(self)
                } else if c.bond <= less || valuation_after < old(self).config.min_candidate_stk {
                    r == Err::<Event, Error>(Error::CandidateBondBelowMin) && *final(self) == *old(self)
                } else {
                    &&& r == Ok::<Event, Error>(Event::CandidateBondLessRequested(collator, less, when))
                    &&& candidate_set(*old(self), *final(self), collator, CollatorCandidate {
                        request: Some(CandidateBondRequest { change: CandidateBondChange::Decrease, amount: less, when_executable: when }),
                        ..c
                    })
                }
            }),
    {
        let (pending, bond) = match self.candidate_state.get(&collator) {
            Some(c) => (c.request.is_some(), c.bond),
            None => {
                return Err(Error::CandidateDNE);
            },
        };
        if pending {
            return Err(Error::PendingCandidateRequestAlreadyExists);
        }
        if bond <= less || valuation_after < self.config.min_candidate_stk {
            return Err(Error::CandidateBondBelowMin);
        }
        let now = self.round.current;
        let delay = self.config.candidate_bond_delay;
        let min = self.config.min_candidate_stk;
        let mut state = self.candidate_state.remove(&collator).unwrap();
        let when = match state.schedule_bond_less(less, now, delay, min, valuation_after) {
            Ok(w) => w,
            Err(_) => {
                proof {
                    assert(false);
                }
                now
            },
        };
        self.candidate_state.insert(collator, state);
        proof {
            assert(self.candidate_state@ =~= old(self).candidate_state@.insert(collator, state));
        }
        Ok(Event::CandidateBondLessRequested(collator, less, when))
    }

    /// Carries out the pending self-bond request of `candidate`, due by the
    /// current round: the bond and totals move by the requested amount, the
    /// runtime is to reserve or release it, the total locked follows, and an
    /// active candidate's pool entry takes its new counted total.
    pub fn execute_candidate_bond_request(&mut self, candidate: AccountId, use_balance_from: Option<BondKind>) -> (r: Result<(Event, ReserveCall), Error>)
        requires
            old(self).inv(),
        ensures
            final(self).inv(),
            !old(self).candidate_state@.contains_key(candidate) ==> r == Err::<(Event, ReserveCall), Error>(Error::CandidateDNE)
                && *final(self) == *old(self),
            old(self).candidate_state@.contains_key(candidate) ==> ({
                let c = old(self).candidate_state@[candidate];
                let now = old(self).round.current;
                match c.request {
                    None => r == Err::<(Event, ReserveCall), Error>(Error::PendingCandidateRequestsDNE) && same_storage(*old(self), *final(self)),
                    Some(req) => if req.when_executable > now {
                        r == Err::<(Event, ReserveCall), Error>(Error::PendingCandidateRequestNotDueYet) && same_storage(*old(self), *final(self))
                    } else if (req.change == CandidateBondChange::Increase && (c.bond + req.amount > u128::MAX
                        || c.total_counted + req.amount > u128::MAX || c.total_backing + req.amount > u128::MAX))
                        || (req.change == CandidateBondChange::Decrease && (req.amount > c.bond
                        || req.amount > c.total_counted || req.amount > c.total_backing)) {
                        r == Err::<(Event, ReserveCall), Error>(Error::MathError) && same_storage(*old(self), *final(self))
                    } else {
                        let up = req.change == CandidateBondChange::Increase;
                        let c2 = if up {
                            CollatorCandidate {
                                bond: (c.bond + req.amount) as u128,
                                total_counted: (c.total_counted + req.amount) as u128,
                                total_backing: (c.total_backing + req.amount) as u128,
                                request: None,
                                ..c
                            }
                        } else {
                            CollatorCandidate {
                                bond: (c.bond - req.amount) as u128,
                                total_counted: (c.total_counted - req.amount) as u128,
                                total_backing: (c.total_backing - req.amount) as u128,
                                request: None,
                                ..c
                            }
                        };
                        &&& r == Ok::<(Event, ReserveCall), Error>((
                            if up {
                                Event::CandidateBondedMore(c.id, req.amount, c2.bond)
                            } else {
                                Event::CandidateBondedLess(c.id, req.amount, c2.bond)
                            },
                            if up {
                                ReserveCall::Bond { token: c.liquidity_token, account: c.id, amount: req.amount, use_balance_from }
                            } else {
                                ReserveCall::Unbond { token: c.liquidity_token, account: c.id, amount: req.amount }
                            },
                        ))
                        &&& final(self).candidate_state@ == old(self).candidate_state@.insert(candidate, c2)
                        &&& final(self).total@ == (if up {
                            old(self).total@.insert(c.liquidity_token, sat_add_u128(amount_or_zero(old(self).total@, c.liquidity_token), req.amount))
                        } else {
                            total_less(old(self).total@, c.liquidity_token, req.amount)
                        })
                        &&& pool_follows(*old(self), *final(self), c.state == CollatorStatus::Active, c.id, c2.total_counted, c.liquidity_token)
                        &&& *final(self) == (Staking {
                            candidate_state: final(self).candidate_state,
                            candidate_pool: final(self).candidate_pool,
                            total: final(self).total,
                            ..*old(self)
                        })
                    },
                }
            }),
    {
        if !self.candidate_state.contains_key(&candidate) {
            return Err(Error::CandidateDNE);
        }
        let now = self.round.current;
        let mut state = self.candidate_state.remove(&candidate).unwrap();
        let req = state.request;
        let event = match state.execute_pending_request(now) {
            Ok(e) => e,
            Err(e) => {
                self.candidate_state.insert(candidate, state);
                proof {
                    assert(self.candidate_state@ =~= old(self).candidate_state@);
                }
                return Err(e);
            },
        };
        let req = req.unwrap();
        let token = state.liquidity_token;
        let id = state.id;
        let call = match req.change {
            CandidateBondChange::Increase => {
                self.add_to_total(token, req.amount);
                ReserveCall::Bond { token, account: id, amount: req.amount, use_balance_from }
            },
            CandidateBondChange::Decrease => {
                self.sub_from_total(token, req.amount);
                ReserveCall::Unbond { token, account: id, amount: req.amount }
            },
        };
        if state.is_active() {
            self.update_active(id, state.total_counted, token);
        }
        self.candidate_state.insert(candidate, state);
        proof {
            assert(self.candidate_state@ =~= old(self).candidate_state@.insert(candidate, state));
        }
        Ok((event, call))
    }

    /// `collator` takes back its pending self-bond request.
    pub fn cancel_candidate_bond_request(&mut self, collator: AccountId) -> (r: Result<Event, Error>)
        requires
            old(self).inv(),
        ensures
            final(self).inv(),
            bond_request_cancelled(*old(self), *final(self), collator, r),
    {
        let pending = match self.candidate_state.get(&collator) {
            Some(c) => c.request.is_some(),
            None => {
                return Err(Error::CandidateDNE);
            },
        };
        if !pending {
            return Err(Error::PendingCandidateRequestsDNE);
        }
        let mut state = self.candidate_state.remove(&collator).unwrap();
        let event = state.cancel_pending_request();
        self.candidate_state.insert(collator, state);
        proof {
            assert(self.candidate_state@ =~= old(self).candidate_state@.insert(collator, state));
        }
        match event {
            Ok(e) => Ok(e),
            Err(e) => {
                proof {
                    assert(false);
                }
                Err(e)
            },
        }
    }

    /// `acc` asks to stop delegating altogether, after the configured delay.
    pub fn schedule_leave_delegators(&mut self, acc: AccountId) -> (r: Result<Event, Error>)
        requires
            old(self).inv(),
        ensures
            final(self).inv(),
            leave_delegators_scheduled(*old(self), *final(self), acc, r),
    {
        let leaving = match self.delegator_state.get(&acc) {
            Some(d) => d.is_leaving(),
            None => {
                return Err(Error::DelegatorDNE);
            },
        };
        if leaving {
            return Err(Error::DelegatorAlreadyLeaving);
        }
        let now = self.round.current;
        let delay = self.config.leave_delegators_delay;
        let mut state = self.delegator_state.remove(&acc).unwrap();
        let (_, when) = state.schedule_leave(now, delay);
        self.delegator_state.insert(acc, state);
        proof {
            assert(self.delegator_state@ =~= old(self).delegator_state@.insert(acc, state));
        }
        Ok(Event::DelegatorExitScheduled(now, acc, when))
    }

    /// `acc`, leaving, stays a delegator after all.
    pub fn cancel_leave_delegators(&mut self, acc: AccountId) -> (r: Result<Event, Error>)
        requires
            old(self).inv(),
        ensures
            final(self).inv(),
            leave_delegators_cancelled(*old(self), *final(self), acc, r),
    {
        let leaving = match self.delegator_state.get(&acc) {
            Some(d) => d.is_leaving(),
            None => {
                return Err(Error::DelegatorDNE);
            },
        };
        if !leaving {
            return Err(Error::DelegatorDNE);
        }
        let mut state = self.delegator_state.remove(&acc).unwrap();
        state.cancel_leave();
        self.delegator_state.insert(acc, state);
        proof {
            assert(self.delegator_state@ =~= old(self).delegator_state@.insert(acc, state));
        }
        Ok(Event::DelegatorExitCancelled(acc))
    }

    /// `acc` asks to revoke its delegation to `collator` after the configured
    /// delay.
    pub fn schedule_revoke_delegation(&mut self, acc: AccountId, collator: AccountId) -> (r: Result<Event, Error>)
        requires
            old(self).inv(),
        ensures
            final(self).inv(),
            !old(self).delegator_state@.contains_key(acc) ==> r == Err::<Event, Error>(Error::DelegatorDNE)
                && *final(self) == *old(self),
            old(self).delegator_state@.contains_key(acc) ==> ({
                let d = old(self).delegator_state@[acc];
                let now = old(self).round.current;
                let when = sat_add_u32(now, old(self).config.revoke_delegation_delay);
                if !has_key(d.delegations@, collator) {
                    r == Err::<Event, Error>(Error::DelegationDNE) && *final(self) == *old(self)
                } else if d.requests.requests@.contains_key(collator) {
                    r == Err::<Event, Error>(Error::PendingDelegationRequestAlreadyExists) && *final(self) == *old(self)
                } else {
                    &&& r == Ok::<Event, Error>(Event::DelegationRevocationScheduled(now, acc, collator, when))
                    &&& request_added(*old(self), *final(self), acc, collator, DelegationRequest {
                        collator,
                        amount: key_map(d.delegations@)[collator].amount,
                        when_executable: when,
                        action: DelegationChange::Revoke,
                    })
                }
            }),
    {
        let (present, pending) = match self.delegator_state.get(&acc) {
            Some(d) => (d.has_delegation(collator), d.requests.requests.contains_key(&collator)),
            None => {
                return Err(Error::DelegatorDNE);
            },
        };
        if !present {
            return Err(Error::DelegationDNE);
        }
        if pending {
            return Err(Error::PendingDelegationRequestAlreadyExists);
        }
        let now = self.round.current;
        let delay = self.config.revoke_delegation_delay;
        let mut state = self.delegator_state.remove(&acc).unwrap();
        let ghost d0 = state;
        let when = match state.schedule_revoke(collator, now, delay) {
            Ok((_, w)) => w,
            Err(_) => {
                proof {
                    assert(false);
                }
                now
            },
        };
        proof {
            let j = choose|j: int| 0 <= j < d0.delegations@.len() && d0.delegations@[j].owner == collator;
            crate::ordered_set::lemma_entry_of(d0.delegations@, j);
            assert(d0.delegations@[j].spec_key() == collator);
        }
        self.delegator_state.insert(acc, state);
        proof {
            assert(self.delegator_state@.dom() =~= old(self).delegator_state@.dom());
        }
        Ok(Event::DelegationRevocationScheduled(now, acc, collator, when))
    }

    /// `acc` asks to raise its delegation to `candidate` by `more` after the
    /// configured delay; `can_bond` is whether the runtime can reserve `more`
    /// of the delegation's token from it.
    pub fn schedule_delegator_bond_more(&mut self, acc: AccountId, candidate: AccountId, more: Balance, can_bond: bool) -> (r: Result<Event, Error>)
        requires
            old(self).inv(),
        ensures
            final(self).inv(),
            delegation_increase_scheduled(*old(self), *final(self), acc, candidate, more, can_bond, r),
    {
        let (present, pending) = match self.delegator_state.get(&acc) {
            Some(d) => (d.has_delegation(candidate), d.requests.requests.contains_key(&candidate)),
            None => {
                return Err(Error::DelegatorDNE);
            },
        };
        if !present {
            return Err(Error::DelegationDNE);
        }
        if !can_bond {
            return Err(Error::InsufficientBalance);
        }
        if pending {
            return Err(Error::PendingDelegationRequestAlreadyExists);
        }
        let now = self.round.current;
        let delay = self.config.delegation_bond_delay;
        let mut state = self.delegator_state.remove(&acc).unwrap();
        let when = match state.schedule_increase_delegation(candidate, more, now, delay, can_bond) {
            Ok(w) => w,
            Err(_) => {
                proof {
                    assert(false);
                }
                now
            },
        };
        self.delegator_state.insert(acc, state);
        proof {
            assert(self.delegator_state@.dom() =~= old(self).delegator_state@.dom());
        }
        Ok(Event::DelegationIncreaseScheduled(acc, candidate, more, when))
    }

    /// `acc` asks to lower its delegation to `candidate` by `less` after the
    /// configured delay; the delegation must keep at least the minimum.
    pub fn schedule_delegator_bond_less(&mut self, acc: AccountId, candidate: AccountId, less: Balance) -> (r: Result<Event, Error>)
        requires
            old(self).inv(),
        ensures
            final(self).inv(),
            !old(self).delegator_state@.contains_key(acc) ==> r == Err::<Event, Error>(Error::DelegatorDNE)
                && *final(self) == *old(self),
            old(self).delegator_state@.contains_key(acc) ==> ({
                let d = old(self).delegator_state@[acc];
                let when = sat_add_u32(old(self).round.current, old(self).config.delegation_bond_delay);
                if !has_key(d.delegations@, candidate) {
                    r == Err::<Event, Error>(Error::DelegationDNE) && *final(self) == *old(self)
                } else if key_map(d.delegations@)[candidate].amount < sat_add_u128(old(self).config.min_delegation, less) {
                    r == Err::<Event, Error>(Error::DelegationBelowMin) && *final(self) == *old(self)
                } else if d.requests.requests@.contains_key(candidate) {
                    r == Err::<Event, Error>(Error::PendingDelegationRequestAlreadyExists) && *final(self) == *old(self)
                } else {
                    &&& r == Ok::<Event, Error>(Event::DelegationDecreaseScheduled(acc, candidate, less, when))
                    &&& request_added(*old(self), *final(self), acc, candidate, DelegationRequest {
                        collator: candidate,
                        amount: less,
                        when_executable: when,
                        action: DelegationChange::Decrease,
                    })
                }
            }),
    {
        let (amount, pending) = match self.delegator_state.get(&acc) {
            Some(d) => (d.delegation_amount(candidate), d.requests.requests.contains_key(&candidate)),
            None => {
                return Err(Error::DelegatorDNE);
            },
        };
        let ghost d0 = self.delegator_state@[acc];
        proof {
            if has_key(d0.delegations@, candidate) {
                let j = choose|j: int| 0 <= j < d0.delegations@.len() && d0.delegations@[j].owner == candidate;
                crate::ordered_set::lemma_entry_of(d0.delegations@, j);
                assert(d0.delegations@[j].spec_key() == candidate);
            }
        }
        let a = match amount {
            Some(a) => a,
            None => {
                return Err(Error::DelegationDNE);
            },
        };
        if a < self.config.min_delegation.saturating_add(less) {
            return Err(Error::DelegationBelowMin);
        }
        if pending {
            return Err(Error::PendingDelegationRequestAlreadyExists);
        }
        let now = self.round.current;
        let delay = self.config.delegation_bond_delay;
        let min = self.config.min_delegation;
        let mut state = self.delegator_state.remove(&acc).unwrap();
        let when = match state.schedule_decrease_delegation(candidate, less, now, delay, min) {
            Ok(w) => w,
            Err(_) => {
                proof {
                    assert(false);
                }
                now
            },
        };
        self.delegator_state.insert(acc, state);
        proof {
            assert(self.delegator_state@.dom() =~= old(self).delegator_state@.dom());
        }
        Ok(Event::DelegationDecreaseScheduled(acc, candidate, less, when))
    }

    /// `acc` takes back its pending request about its delegation to `candidate`.
    pub fn cancel_delegation_request(&mut self, acc: AccountId, candidate: AccountId) -> (r: Result<Event, Error>)
        requires
            old(self).inv(),
        ensures
            final(self).inv(),
            delegation_request_cancelled(*old(self), *final(self), acc, candidate, r),
    {
        let pending = match self.delegator_state.get(&acc) {
            Some(d) => d.requests.requests.contains_key(&candidate),
            None => {
                return Err(Error::DelegatorDNE);
            },
        };
        if !pending {
            return Err(Error::PendingDelegationRequestDNE);
        }
        let mut state = self.delegator_state.remove(&acc).unwrap();
        let request = state.cancel_pending_request(candidate);
        self.delegator_state.insert(acc, state);
        proof {
            assert(self.delegator_state@.dom() =~= old(self).delegator_state@.dom());
        }
        match request {
            Ok(q) => Ok(Event::CancelledDelegationRequest(acc, q)),
            Err(e) => {
                proof {
                    assert(false);
                }
                Err(e)
            },
        }
    }

    /// `author` produced a block in the current round: twenty points more for
    /// it and for the round, saturating.
    pub fn note_author(&mut self, author: AccountId)
        ensures
            ({
                let now = old(self).round.current;
                let pts = if old(self).awarded_pts@.contains_key(now) && old(self).awarded_pts@[now]@.contains_key(author) {
                    old(self).awarded_pts@[now]@[author]
                } else {
                    0u32
                };
                let total = if old(self).points@.contains_key(now) {
                    old(self).points@[now]
                } else {
                    0u32
                };
                let base = if old(self).awarded_pts@.contains_key(now) {
                    old(self).awarded_pts@[now]@
                } else {
                    Map::<AccountId, u32>::empty()
                };
                &&& final(self).awarded_pts@.dom() == old(self).awarded_pts@.dom().insert(now)
                &&& forall|k: RoundIndex| k != now && #[trigger] old(self).awarded_pts@.contains_key(k)
                    ==> final(self).awarded_pts@[k] == old(self).awarded_pts@[k]
                &&& final(self).awarded_pts@[now]@ == base.insert(author, sat_add_u32(pts, 20))
                &&& final(self).points@ == old(self).points@.insert(now, sat_add_u32(total, 20))
                &&& *final(self) == (Staking {
                    awarded_pts: final(self).awarded_pts,
                    points: final(self).points,
                    ..*old(self)
                })
            }),
    {
        let now = self.round.current;
        let mut round_pts = match self.awarded_pts.remove(&now) {
            Some(m) => m,
            None => BTreeMap::new(),
        };
        let pts = match round_pts.get(&author) {
            Some(p) => *p,
            None => 0,
        };
        round_pts.insert(author, pts.saturating_add(20));
        self.awarded_pts.insert(now, round_pts);
        let total = match self.points.get(&now) {
            Some(p) => *p,
            None => 0,
        };
        self.points.insert(now, total.saturating_add(20));
        proof {
            assert(self.awarded_pts@.dom() =~= old(self).awarded_pts@.dom().insert(now));
        }
    }

    /// Takes the snapshot of `collator` for `round_to_payout` (an empty one if
    /// there is none) and records what the collator and its delegators earn
    /// of `reward` under the current commission.
    pub fn process_collator_with_rewards(&mut self, round_to_payout: RoundIndex, collator: AccountId, reward: Balance)
        requires
            old(self).collator_commission.wf(),
            old(self).at_stake@.contains_key(round_to_payout) && old(self).at_stake@[round_to_payout]@.contains_key(collator)
                ==> old(self).at_stake@[round_to_payout]@[collator].delegations@.len() <= u32::MAX,
        ensures
            final(self).collator_commission.wf(),
            collator_processed(*old(self), *final(self), round_to_payout, collator, reward),
    {
        let state = match self.at_stake.remove(&round_to_payout) {
            Some(mut inner) => {
                let ghost before_inner = inner@;
                let snap = match inner.remove(&collator) {
                    Some(x) => x,
                    None => CollatorSnapshot::default(),
                };
                proof {
                    assert(inner@ =~= before_inner.remove(collator));
                }
                self.at_stake.insert(round_to_payout, inner);
                proof {
                    assert(self.at_stake@.dom() =~= old(self).at_stake@.dom());
                }
                snap
            },
            None => {
                proof {
                    assert(self.at_stake@ =~= old(self).at_stake@);
                }
                CollatorSnapshot::default()
            },
        };
        let commission = self.collator_commission;
        let info = collator_payout_info(&state, commission, reward);
        let mut per_round = match self.round_collator_reward_info.remove(&collator) {
            Some(m) => m,
            None => BTreeMap::new(),
        };
        per_round.insert(round_to_payout, info);
        self.round_collator_reward_info.insert(collator, per_round);
        proof {
            assert(self.round_collator_reward_info@.dom() =~= old(self).round_collator_reward_info@.dom().insert(collator));
            if old(self).round_collator_reward_info@.contains_key(collator) {
                assert(self.round_collator_reward_info@[collator]@.dom() =~= old(self).round_collator_reward_info@[collator]@.dom().insert(round_to_payout));
            } else {
                assert(self.round_collator_reward_info@[collator]@.dom() =~= Set::<RoundIndex>::empty().insert(round_to_payout));
            }
            let t = *self;
            let s0 = *old(self);
            assert(t == (Staking { at_stake: t.at_stake, round_collator_reward_info: t.round_collator_reward_info, ..s0 }));
        }
    }

    /// How far the current session is at block `now`: the blocks since the
    /// round started, counting this one, as a part of the round's length.
    pub fn estimate_current_session_progress(&self, now: u64) -> (r: Permill)
        ensures
            r.parts == spec_permill_from_rational(
                sat_add_u64(if now >= self.round.first { (now - self.round.first) as u64 } else { 0 }, 1) as int,
                self.round.length as int,
            ),
    {
        let passed = now.saturating_sub(self.round.first).saturating_add(1);
        Permill::from_rational(passed, self.round.length as u64)
    }

    /// Whether the session ends at block `now`: the round's last block.
    pub fn should_end_session(&self, now: u64) -> (r: bool)
        ensures
            r == (sat_add_u64(now, 1) >= sat_add_u64(self.round.first, self.round.length as u64)),
    {
        self.round.should_update(now)
    }

    /// The length of a session, in blocks.
    pub fn average_session_length(&self) -> (r: u64)
        ensures
            r == self.round.length,
    {
        self.round.length as u64
    }

    /// The block the next session is expected to start at: the last block of
    /// the current round.
    pub fn estimate_next_session_rotation(&self) -> (r: u64)
        ensures
            r == sat_add_u64(self.round.first, (if self.round.length == 0 {
                0
            } else {
                self.round.length - 1
            }) as u64),
    {
        self.round.first.saturating_add(self.round.length.saturating_sub(1) as u64)
    }

    /// The authors of a new session: the selected candidates, else `fallback`
    /// (the runtime's fallback members), else none.
    pub fn new_session(&self, fallback: Vec<AccountId>) -> (r: Option<Vec<AccountId>>)
        ensures
            self.selected_candidates@.len() > 0 ==> (r matches Some(v) && v@ == self.selected_candidates@),
            self.selected_candidates@.len() == 0 && fallback@.len() > 0 ==> r == Some(fallback),
            self.selected_candidates@.len() == 0 && fallback@.len() == 0 ==> r is None,
    {
        if self.selected_candidates.len() > 0 {
            let mut v: Vec<AccountId> = Vec::new();
            let mut i: usize = 0;
            while i < self.selected_candidates.len()
                invariant
                    i <= self.selected_candidates@.len(),
                    v@ == self.selected_candidates@.take(i as int),
                decreases self.selected_candidates@.len() - i,
            {
                v.push(self.selected_candidates[i]);
                i = i + 1;
                proof {
                    assert(v@ == self.selected_candidates@.take(i as int));
                }
            }
            proof {
                assert(self.selected_candidates@.take(i as int) == self.selected_candidates@);
            }
            Some(v)
        } else if fallback.len() > 0 {
            Some(fallback)
        } else {
            None
        }
    }

    /// The error `delegate` fails with, if any.
    pub open spec fn delegate_error(
        &self,
        acc: AccountId,
        collator: AccountId,
        amount: Balance,
        candidate_delegation_count: u32,
        delegation_count: u32,
        valuation: Balance,
    ) -> Option<Error> {
        if self.aggregators@.contains_key(acc) {
            Some(Error::AggregatorExists)
        } else if !self.candidate_state@.contains_key(collator) {
            Some(Error::CandidateDNE)
        } else {
            let c = self.candidate_state@[collator];
            let first = if self.delegator_state@.contains_key(acc) {
                let d = self.delegator_state@[acc];
                if d.status != crate::delegator::DelegatorStatus::Active {
                    Some(Error::CannotDelegateIfLeaving)
                } else if self.spec_valuate_bond(c.liquidity_token, amount, valuation)
                    < self.config.min_delegation {
                    Some(Error::DelegationBelowMin)
                } else if delegation_count < (d.delegations@.len() as u32) {
                    Some(Error::TooLowDelegationCountToDelegate)
                } else if (d.delegations@.len() as u32) >= self.config.max_delegations_per_delegator {
                    Some(Error::ExceedMaxDelegationsPerDelegator)
                } else if has_key(d.delegations@, collator) {
                    Some(Error::AlreadyDelegatedCandidate)
                } else {
                    None
                }
            } else {
                if amount < self.config.min_delegation {
                    Some(Error::DelegationBelowMin)
                } else if self.candidate_state@.contains_key(acc) {
                    Some(Error::CandidateExists)
                } else {
                    None
                }
            };
            if first is Some {
                first
            } else if c.delegators@.len() >= self.config.max_total_delegators_per_candidate {
                Some(Error::ExceedMaxTotalDelegatorsPerCandidate)
            } else if candidate_delegation_count < (c.delegators@.len() as u32) {
                Some(Error::TooLowCandidateDelegationCountToDelegate)
            } else if has_key(c.delegators@, acc) {
                Some(Error::DelegatorExists)
            } else if c.total_backing + amount > u128::MAX {
                Some(Error::MathError)
            } else {
                None
            }
        }
    }

    /// `acc` delegates `amount` to `collator`: a first delegation makes `acc` a
    /// delegator. `valuation` is what the runtime's valuator gives for `amount`
    /// of the collator's token (unused for the native token, valued at half).
    /// The counts are the caller's upper bounds on the collator's delegators and
    /// on `acc`'s delegations.
    ///
    /// On success the runtime is to reserve `amount` of the collator's token
    /// from `acc`; the collator's pool entry follows its new counted total when
    /// the delegation is counted and the collator is active.
    pub fn delegate(
        &mut self,
        acc: AccountId,
        collator: AccountId,
        amount: Balance,
        use_balance_from: Option<BondKind>,
        candidate_delegation_count: u32,
        delegation_count: u32,
        valuation: Balance,
    ) -> (r: Result<(Event, ReserveCall), Error>)
        requires
            old(self).inv(),
        ensures
            final(self).inv(),
            delegate_outcome(*old(self), *final(self), acc, collator, amount, use_balance_from, candidate_delegation_count, delegation_count, valuation, r),
    {
        if self.is_aggregator(acc) {
            return Err(Error::AggregatorExists);
        }
        let (token, n_delegators, backing, already) = match self.candidate_state.get(&collator) {
            Some(c) => (c.liquidity_token, c.delegators.0.len(), c.total_backing, c.delegators.contains(&acc)),
            None => {
                return Err(Error::CandidateDNE);
            },
        };
        let nb = Bond { owner: collator, amount, liquidity_token: token };
        let existing = match self.delegator_state.get(&acc) {
            Some(state) => {
                if !state.is_active() {
                    return Err(Error::CannotDelegateIfLeaving);
                }
                if self.valuate_bond(token, amount, valuation) < self.config.min_delegation {
                    return Err(Error::DelegationBelowMin);
                }
                #[verifier::truncate]
                let n = state.delegations.0.len() as u32;
                if delegation_count < n {
                    return Err(Error::TooLowDelegationCountToDelegate);
                }
                if n >= self.config.max_delegations_per_delegator {
                    return Err(Error::ExceedMaxDelegationsPerDelegator);
                }
                if state.delegations.contains(&nb) {
                    return Err(Error::AlreadyDelegatedCandidate);
                }
                true
            },
            None => {
                if amount < self.config.min_delegation {
                    return Err(Error::DelegationBelowMin);
                }
                if self.is_candidate(acc) {
                    return Err(Error::CandidateExists);
                }
                false
            },
        };
        if n_delegators >= self.config.max_total_delegators_per_candidate as usize {
            return Err(Error::ExceedMaxTotalDelegatorsPerCandidate);
        }
        if candidate_delegation_count < n_delegators as u32 {
            return Err(Error::TooLowCandidateDelegationCountToDelegate);
        }
        if already {
            return Err(Error::DelegatorExists);
        }
        if backing.checked_add(amount).is_none() {
            return Err(Error::MathError);
        }
        let max_top = self.config.max_delegators_per_candidate;
        let mut collator_state = self.candidate_state.remove(&collator).unwrap();
        let position = match collator_state.add_delegation(acc, amount, max_top) {
            Ok(p) => p,
            Err(_) => {
                proof {
                    assert(false);
                }
                DelegatorAdded::AddedToBottom
            },
        };
        let new_state = if existing {
            let mut d = self.delegator_state.remove(&acc).unwrap();
            let ghost d0 = d;
            let added = d.add_delegation(nb);
            proof {
                assert(added);
                let i = choose|i: int| 0 <= i <= d0.delegations@.len()
                    && d.delegations@ == d0.delegations@.insert(i, nb);
                crate::ordered_set::lemma_key_map_insert(d0.delegations@, i, nb);
            }
            d
        } else {
            Delegator::new(acc, collator, amount, token)
        };
        if let DelegatorAdded::AddedToTop { new_total } = position {
            if collator_state.is_active() {
                self.update_active(collator, new_total, token);
            }
        }
        self.add_to_total(token, amount);
        self.candidate_state.insert(collator, collator_state);
        self.delegator_state.insert(acc, new_state);
        proof {
            assert(self.delegator_state@.dom() =~= old(self).delegator_state@.dom().insert(acc));
            assert(self.candidate_state@ =~= old(self).candidate_state@.insert(collator, collator_state));
        }
        Ok((
            Event::Delegation(acc, amount, collator, position),
            ReserveCall::Bond { token, account: acc, amount, use_balance_from },
        ))
    }
}

/// The state `t` the delegator `d` is stored as after its request to
/// `candidate` was carried out, with its delegations read by collator as `dels`.
pub open spec fn stored_delegator(d: Delegator, t: Delegator, candidate: AccountId, dels: Map<u64, Bond>) -> bool {
    &&& t.id == d.id
    &&& t.status == d.status
    &&& t.requests.requests@ == d.requests.requests@.remove(candidate)
    &&& t.delegations.wf()
    &&& key_map(t.delegations@) == dels
}

/// The delegator states of `t` are those of `s` but for `id`, whose state is
/// as `present` says: `Some` of a predicate on it, or `None` when it is gone.
pub open spec fn delegators_but(s: Staking, t: Staking, id: AccountId, kept: bool) -> bool {
    &&& (if kept {
        t.delegator_state@.dom() == s.delegator_state@.dom().insert(id)
    } else {
        t.delegator_state@.dom() == s.delegator_state@.dom().remove(id)
    })
    &&& forall|k: AccountId| k != id && #[trigger] s.delegator_state@.contains_key(k)
        ==> t.delegator_state@[k] == s.delegator_state@[k]
}

/// The pool of `t`: that of `s` with `candidate` at counted total `total`
/// when `moved`, else that of `s`.
pub open spec fn pool_follows(s: Staking, t: Staking, moved: bool, candidate: AccountId, total: Balance, token: CurrencyId) -> bool {
    if moved {
        key_map(t.candidate_pool@) == key_map(s.candidate_pool@).insert(
            candidate,
            Bond { owner: candidate, amount: total, liquidity_token: token },
        )
    } else {
        t.candidate_pool == s.candidate_pool
    }
}

/// What carrying out `d`'s pending request to `candidate` does to storage `s`,
/// giving `t` and result `r`.
pub open spec fn pending_request_executed(
    d: Delegator,
    s: Staking,
    t: Staking,
    candidate: AccountId,
    use_balance_from: Option<BondKind>,
    r: Result<(Vec<Event>, ReserveCall), Error>,
) -> bool {
    let reqs = d.requests.requests@;
    let dels = key_map(d.delegations@);
    if !reqs.contains_key(candidate) {
        r == Err::<(Vec<Event>, ReserveCall), Error>(Error::PendingDelegationRequestDNE) && t == s
    } else if reqs[candidate].when_executable > s.round.current {
        r == Err::<(Vec<Event>, ReserveCall), Error>(Error::PendingDelegationRequestNotDueYet) && t == s
    } else {
        let amount = reqs[candidate].amount;
        match reqs[candidate].action {
            DelegationChange::Revoke => {
                if !s.candidate_state@.contains_key(candidate) {
                    r == Err::<(Vec<Event>, ReserveCall), Error>(Error::CandidateDNE) && t == s
                } else if !has_key(s.candidate_state@[candidate].delegators@, d.id) {
                    r == Err::<(Vec<Event>, ReserveCall), Error>(Error::DelegatorDNEInDelegatorSet) && t == s
                } else {
                    let leaving = d.delegations@.len() == 1;
                    r matches Ok((evs, call)) && {
                        &&& self_left_collator(s, Staking { delegator_state: s.delegator_state, ..t }, d.id, candidate, evs@[0], call)
                        &&& evs@ == seq![evs@[0], Event::DelegationRevoked(d.id, candidate, amount)] + (if leaving {
                            seq![Event::DelegatorLeft(d.id, amount)]
                        } else {
                            Seq::<Event>::empty()
                        })
                        &&& delegators_but(s, t, d.id, !leaving)
                        &&& !leaving ==> stored_delegator(d, t.delegator_state@[d.id], candidate, dels.remove(candidate))
                    }
                }
            },
            DelegationChange::Increase => {
                if !dels.contains_key(candidate) {
                    r == Err::<(Vec<Event>, ReserveCall), Error>(Error::DelegationDNE) && t == s
                } else if dels[candidate].amount + amount > u128::MAX {
                    r == Err::<(Vec<Event>, ReserveCall), Error>(Error::MathError) && t == s
                } else if !s.candidate_state@.contains_key(candidate) {
                    r == Err::<(Vec<Event>, ReserveCall), Error>(Error::CandidateDNE) && t == s
                } else {
                    let c = s.candidate_state@[candidate];
                    let listed = has_key(c.delegators@, d.id);
                    if listed && c.total_backing + amount > u128::MAX {
                        r == Err::<(Vec<Event>, ReserveCall), Error>(Error::MathError) && t == s
                    } else {
                        let x = dels[candidate];
                        r matches Ok((evs, call)) && {
                            let c2 = t.candidate_state@[candidate];
                            let in_top = evs@[0]->DelegationIncreased_3;
                            &&& evs@ == seq![Event::DelegationIncreased(d.id, candidate, amount, in_top)]
                            &&& call == ReserveCall::Bond { token: x.liquidity_token, account: d.id, amount, use_balance_from }
                            &&& (if listed {
                                increased_delegation(c, d.id, amount, Ok(in_top), c2)
                            } else {
                                c2 == c && !in_top
                            })
                            &&& t.candidate_state@ == s.candidate_state@.insert(candidate, c2)
                            &&& pool_follows(s, t, c.state == CollatorStatus::Active && c.total_counted != c2.total_counted, candidate, c2.total_counted, c.liquidity_token)
                            &&& t.total@ == s.total@.insert(c.liquidity_token, sat_add_u128(amount_or_zero(s.total@, c.liquidity_token), amount))
                            &&& delegators_but(s, t, d.id, true)
                            &&& stored_delegator(d, t.delegator_state@[d.id], candidate, dels.insert(candidate, Bond { amount: (x.amount + amount) as u128, ..x }))
                            &&& t == (Staking {
                                candidate_state: t.candidate_state,
                                candidate_pool: t.candidate_pool,
                                total: t.total,
                                delegator_state: t.delegator_state,
                                ..s
                            })
                        }
                    }
                }
            },
            DelegationChange::Decrease => {
                if !dels.contains_key(candidate) {
                    r == Err::<(Vec<Event>, ReserveCall), Error>(Error::DelegationDNE) && t == s
                } else if dels[candidate].amount < amount + s.config.min_delegation {
                    r == Err::<(Vec<Event>, ReserveCall), Error>(Error::DelegationBelowMin) && t == s
                } else if !s.candidate_state@.contains_key(candidate) {
                    r == Err::<(Vec<Event>, ReserveCall), Error>(Error::CandidateDNE) && t == s
                } else {
                    let c = s.candidate_state@[candidate];
                    if delegation_of(c, d.id) matches Some(a) && amount > a {
                        r == Err::<(Vec<Event>, ReserveCall), Error>(Error::MathError) && t == s
                    } else {
                        let x = dels[candidate];
                        r matches Ok((evs, call)) && {
                            let c2 = t.candidate_state@[candidate];
                            let in_top = evs@[0]->DelegationDecreased_3;
                            &&& evs@ == seq![Event::DelegationDecreased(d.id, candidate, amount, in_top)]
                            &&& call == ReserveCall::Unbond { token: x.liquidity_token, account: d.id, amount }
                            &&& decreased_delegation(c, d.id, amount, Ok(in_top), c2)
                            &&& t.candidate_state@ == s.candidate_state@.insert(candidate, c2)
                            &&& pool_follows(s, t, c.state == CollatorStatus::Active && c.total_counted != c2.total_counted, candidate, c2.total_counted, c.liquidity_token)
                            &&& t.total@ == total_less(s.total@, c.liquidity_token, amount)
                            &&& delegators_but(s, t, d.id, true)
                            &&& stored_delegator(d, t.delegator_state@[d.id], candidate, dels.insert(candidate, Bond { amount: (x.amount - amount) as u128, ..x }))
                            &&& t == (Staking {
                                candidate_state: t.candidate_state,
                                candidate_pool: t.candidate_pool,
                                total: t.total,
                                delegator_state: t.delegator_state,
                                ..s
                            })
                        }
                    }
                }
            },
        }
    }
}

impl Delegator {
    /// Carries out the pending request of this delegator (as stored) to
    /// `candidate`, due by the current round: a revocation leaves the
    /// candidate (and the delegators, with the last delegation); an increase or
    /// decrease changes the delegation on both sides, the candidate's pool
    /// entry and the total locked. The delegator is stored without the request.
    pub fn execute_pending_request(&self, staking: &mut Staking, candidate: AccountId, use_balance_from: Option<BondKind>) -> (r: Result<(Vec<Event>, ReserveCall), Error>)
        requires
            old(staking).inv(),
            self.delegations.wf(),
            ({
                let reqs = self.requests.requests@;
                let dels = key_map(self.delegations@);
                reqs.contains_key(candidate) && reqs[candidate].action == DelegationChange::Increase
                    && dels.contains_key(candidate) && old(staking).candidate_state@.contains_key(candidate)
                    && !has_key(old(staking).candidate_state@[candidate].delegators@, self.id)
                    ==> old(staking).candidate_state@[candidate].top_delegations@.len() > 0
            }),
        ensures
            final(staking).inv(),
            pending_request_executed(*self, *old(staking), *final(staking), candidate, use_balance_from, r),
    {
        let now = staking.round.current;
        let req = match self.requests.requests.get(&candidate) {
            Some(q) => *q,
            None => {
                return Err(Error::PendingDelegationRequestDNE);
            },
        };
        if req.when_executable > now {
            return Err(Error::PendingDelegationRequestNotDueYet);
        }
        let amount = req.amount;
        let mut d = self.duplicate();
        d.requests.requests.remove(&candidate);
        let ghost dels = key_map(self.delegations@);
        match req.action {
            DelegationChange::Revoke => {
                let leaving = self.delegations.0.len() == 1;
                let (ev0, call) = match staking.delegator_leaves_collator(self.id, candidate) {
                    Ok(x) => x,
                    Err(e) => {
                        return Err(e);
                    },
                };
                let ghost mid = *staking;
                let removed = d.rm_delegation(candidate);
                proof {
                    if removed is Some {
                        let i = choose|i: int| 0 <= i < self.delegations@.len() && self.delegations@[i].owner == candidate
                            && d.delegations@ == self.delegations@.remove(i);
                        lemma_key_map_remove(self.delegations@, i);
                    } else {
                        assert(!dels.contains_key(candidate));
                        assert(dels.remove(candidate) =~= dels);
                    }
                }
                let mut evs: Vec<Event> = Vec::new();
                evs.push(ev0);
                evs.push(Event::DelegationRevoked(self.id, candidate, amount));
                if leaving {
                    staking.delegator_state.remove(&self.id);
                    evs.push(Event::DelegatorLeft(self.id, amount));
                } else {
                    staking.delegator_state.insert(self.id, d);
                }
                proof {
                    assert(mid.delegator_state == old(staking).delegator_state);
                    if leaving {
                        assert(staking.delegator_state@.dom() =~= old(staking).delegator_state@.dom().remove(self.id));
                    } else {
                        assert(staking.delegator_state@.dom() =~= old(staking).delegator_state@.dom().insert(self.id));
                    }
                    assert(Staking { delegator_state: old(staking).delegator_state, ..*staking } == mid);
                    if leaving {
                        assert(evs@ =~= seq![ev0, Event::DelegationRevoked(self.id, candidate, amount)] + seq![
                            Event::DelegatorLeft(self.id, amount),
                        ]);
                    } else {
                        assert(evs@ =~= seq![ev0, Event::DelegationRevoked(self.id, candidate, amount)] + Seq::<
                            Event,
                        >::empty());
                    }
                }
                Ok((evs, call))
            },
            DelegationChange::Increase => {
                let x = match self.delegations.get(candidate) {
                    Some(x) => *x,
                    None => {
                        return Err(Error::DelegationDNE);
                    },
                };
                let new_amount = match x.amount.checked_add(amount) {
                    Some(v) => v,
                    None => {
                        return Err(Error::MathError);
                    },
                };
                let (token, listed, backing) = match staking.candidate_state.get(&candidate) {
                    Some(c) => (c.liquidity_token, c.delegators.contains(&self.id), c.total_backing),
                    None => {
                        return Err(Error::CandidateDNE);
                    },
                };
                if listed && backing.checked_add(amount).is_none() {
                    return Err(Error::MathError);
                }
                let mut collator = staking.candidate_state.remove(&candidate).unwrap();
                let before = collator.total_counted;
                let in_top = if listed {
                    match collator.increase_delegation(self.id, amount) {
                        Ok(b) => b,
                        Err(_) => {
                            proof {
                                assert(false);
                            }
                            false
                        },
                    }
                } else {
                    false
                };
                let after = collator.total_counted;
                if collator.is_active() && before != after {
                    staking.update_active(candidate, after, token);
                }
                staking.add_to_total(token, amount);
                staking.candidate_state.insert(candidate, collator);
                d.delegations.upsert(Bond { amount: new_amount, ..x });
                staking.delegator_state.insert(self.id, d);
                proof {
                    assert(staking.candidate_state@ =~= old(staking).candidate_state@.insert(candidate, collator));
                    assert(staking.delegator_state@.dom() =~= old(staking).delegator_state@.dom().insert(self.id));
                }
                let mut evs: Vec<Event> = Vec::new();
                evs.push(Event::DelegationIncreased(self.id, candidate, amount, in_top));
                Ok((evs, ReserveCall::Bond { token: x.liquidity_token, account: self.id, amount, use_balance_from }))
            },
            DelegationChange::Decrease => {
                let x = match self.delegations.get(candidate) {
                    Some(x) => *x,
                    None => {
                        return Err(Error::DelegationDNE);
                    },
                };
                let below_min = match amount.checked_add(staking.config.min_delegation) {
                    Some(floor) => x.amount < floor,
                    None => true,
                };
                if below_min {
                    return Err(Error::DelegationBelowMin);
                }
                let new_amount = x.amount - amount;
                let (token, current) = match staking.candidate_state.get(&candidate) {
                    Some(c) => (c.liquidity_token, c.delegation_amount(self.id)),
                    None => {
                        return Err(Error::CandidateDNE);
                    },
                };
                if let Some(a) = current {
                    if amount > a {
                        return Err(Error::MathError);
                    }
                }
                let mut collator = staking.candidate_state.remove(&candidate).unwrap();
                let before = collator.total_counted;
                let in_top = match collator.decrease_delegation(self.id, amount) {
                    Ok(b) => b,
                    Err(_) => {
                        proof {
                            assert(false);
                        }
                        false
                    },
                };
                let after = collator.total_counted;
                if collator.is_active() && before != after {
                    staking.update_active(candidate, after, token);
                }
                staking.sub_from_total(token, amount);
                staking.candidate_state.insert(candidate, collator);
                d.delegations.upsert(Bond { amount: new_amount, ..x });
                staking.delegator_state.insert(self.id, d);
                proof {
                    assert(staking.candidate_state@ =~= old(staking).candidate_state@.insert(candidate, collator));
                    assert(staking.delegator_state@.dom() =~= old(staking).delegator_state@.dom().insert(self.id));
                }
                let mut evs: Vec<Event> = Vec::new();
                evs.push(Event::DelegationDecreased(self.id, candidate, amount, in_top));
                Ok((evs, ReserveCall::Unbond { token: x.liquidity_token, account: self.id, amount }))
            },
        }
    }
}

} // verus!
