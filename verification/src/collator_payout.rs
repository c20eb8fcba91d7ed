//! Paying out recorded rewards: a collator's rounds, oldest first, as far as a
//! budget of transfers allows, or one delegator's reward for one round.

use crate::ordered_set::{key_map, OrderedSet, SetKey};
use crate::payout::{RewardEntry, RoundCollatorRewardInfoType};
use crate::staking::Staking;
use crate::staking_events::{Error, Event, PayoutRounds, RewardKind};
use crate::{AccountId, Balance, RoundIndex};
use std::collections::BTreeMap;
use vstd::prelude::*;
use vstd::std_specs::cmp::OrdSpec;
use vstd::std_specs::iter::IteratorSpec;

verus! {

broadcast use vstd::std_specs::btree::group_btree_axioms;

/// A transfer of `amount` of the native token from the staking issuance
/// vault to `to`, which the runtime is to perform.
#[derive(Clone, Copy, Debug, PartialEq, Eq, Structural)]
pub struct RewardTransfer {
    pub to: AccountId,
    pub amount: Balance,
}

/// The event for a reward of `amt` to `to` in `round`.
pub open spec fn reward_event(round: RoundIndex, to: AccountId, amt: Balance, kind: RewardKind) -> Event {
    match kind {
        RewardKind::Collator => Event::Rewarded(round, to, amt),
        RewardKind::Delegator(collator) => Event::DelegatorDueReward(round, collator, to, amt),
    }
}

/// Pays `amt` to `to` for `round`: the transfer the runtime is to make, and
/// the event for it.
pub fn payout_reward(round: RoundIndex, to: AccountId, amt: Balance, kind: RewardKind) -> (r: (RewardTransfer, Event))
    ensures
        r.0 == (RewardTransfer { to, amount: amt }),
        r.1 == reward_event(round, to, amt, kind),
{
    let ev = match kind {
        RewardKind::Collator => Event::Rewarded(round, to, amt),
        RewardKind::Delegator(collator) => Event::DelegatorDueReward(round, collator, to, amt),
    };
    (RewardTransfer { to, amount: amt }, ev)
}

/// The transfers paying out `info` of `collator`: the collator's reward, then
/// each delegator's, in account order.
pub open spec fn round_transfers(collator: AccountId, info: RoundCollatorRewardInfoType) -> Seq<RewardTransfer> {
    seq![RewardTransfer { to: collator, amount: info.collator_reward }] + info.delegator_rewards@.map_values(
        |e: RewardEntry| RewardTransfer { to: e.account, amount: e.amount },
    )
}

/// The events of paying out `info` of `collator` for `round`.
pub open spec fn round_events(collator: AccountId, round: RoundIndex, info: RoundCollatorRewardInfoType) -> Seq<Event> {
    seq![Event::Rewarded(round, collator, info.collator_reward)] + info.delegator_rewards@.map_values(
        |e: RewardEntry| Event::DelegatorDueReward(round, collator, e.account, e.amount),
    )
}

/// Where paying out a collator's rounds stands: the transfers left in the
/// budget, whether the budget ran out, the rounds paid, and the transfers and
/// events so far.
pub struct PayoutPlan {
    pub budget: u32,
    pub stopped: bool,
    pub paid: Seq<RoundIndex>,
    pub transfers: Seq<RewardTransfer>,
    pub events: Seq<Event>,
}

/// `a - b`, zero when `b > a`.
pub open spec fn sat_sub_u32(a: int, b: int) -> u32 {
    if a >= b {
        (a - b) as u32
    } else {
        0
    }
}

/// Paying out the rounds `order` of `collator`, recorded in `infos`, in turn,
/// from a budget of `budget` transfers, with `limit` rounds counted as paid
/// for: a round is paid when the budget covers its transfers and stops the
/// payout otherwise; every round past `limit` costs one more transfer.
pub open spec fn payout_plan(
    collator: AccountId,
    infos: Map<RoundIndex, RoundCollatorRewardInfoType>,
    order: Seq<RoundIndex>,
    budget: u32,
    limit: u32,
) -> PayoutPlan
    decreases order.len(),
{
    if order.len() == 0 {
        PayoutPlan { budget, stopped: false, paid: Seq::empty(), transfers: Seq::empty(), events: Seq::empty() }
    } else {
        let p = payout_plan(collator, infos, order.drop_last(), budget, limit);
        let q = order.last();
        let id = (order.len() - 1) as u32;
        let info = infos[q];
        let n = info.delegator_rewards@.len() as int;
        if p.stopped {
            p
        } else if p.budget < n + 1 {
            PayoutPlan { stopped: true, ..p }
        } else {
            let b = sat_sub_u32(p.budget - 1, n);
            let past_limit = (if id as int + 1 > u32::MAX {
                u32::MAX as int
            } else {
                id as int + 1
            }) > limit;
            PayoutPlan {
                budget: if past_limit {
                    sat_sub_u32(b as int, 1)
                } else {
                    b
                },
                stopped: false,
                paid: p.paid.push(q),
                transfers: p.transfers + round_transfers(collator, info),
                events: p.events + round_events(collator, q, info),
            }
        }
    }
}

/// The rounds `infos` records, oldest first.
pub open spec fn rounds_in_order(order: Seq<RoundIndex>, infos: Map<RoundIndex, RoundCollatorRewardInfoType>) -> bool {
    &&& order.to_set() == infos.dom()
    &&& forall|i: int, j: int| 0 <= i < j < order.len() ==> order[i] < order[j]
}

impl Staking {
    /// The rewards recorded for `collator`, per round.
    pub open spec fn recorded_for(&self, collator: AccountId) -> Map<RoundIndex, RoundCollatorRewardInfoType> {
        if self.round_collator_reward_info@.contains_key(collator) {
            self.round_collator_reward_info@[collator]@
        } else {
            Map::empty()
        }
    }

    /// The budget of transfers for paying `limit` rounds: `limit` times one
    /// more than `MaxDelegationsPerDelegator`, wrapping around.
    pub open spec fn payout_budget(&self, limit: u32) -> u32 {
        vstd::wrapping::u32_specs::wrapping_mul(
            limit,
            vstd::wrapping::u32_specs::wrapping_add(self.config.max_delegations_per_delegator, 1),
        )
    }
}

/// `t` is `s` after `collator` was paid the rounds of `plan`, which are no
/// longer recorded, with result `r`.
pub open spec fn collator_paid(s: Staking, t: Staking, collator: AccountId, plan: PayoutPlan, r: Result<(Vec<RewardTransfer>, Vec<Event>), Error>) -> bool {
    let left = s.recorded_for(collator).remove_keys(plan.paid.to_set());
    if plan.paid.len() == 0 {
        &&& r == Err::<(Vec<RewardTransfer>, Vec<Event>), Error>(Error::CollatorRoundRewardsDNE)
        &&& t == s
    } else {
        &&& r matches Ok((transfers, events)) && {
            &&& transfers@ == plan.transfers
            &&& events@.len() == plan.events.len() + 1
            &&& events@.drop_last() == plan.events
            &&& if left.len() == 0 {
                events@.last() == Event::CollatorRewardsDistributed(collator, PayoutRounds::All)
            } else {
                events@.last() matches Event::CollatorRewardsDistributed(c, PayoutRounds::Partial(v)) && c == collator && v@ == plan.paid
            }
        }
        &&& if left.len() == 0 {
            t.round_collator_reward_info@ == s.round_collator_reward_info@.remove(collator)
        } else {
            &&& t.round_collator_reward_info@.dom() == s.round_collator_reward_info@.dom()
            &&& forall|k: AccountId| k != collator && #[trigger] s.round_collator_reward_info@.contains_key(k)
                ==> t.round_collator_reward_info@[k] == s.round_collator_reward_info@[k]
            &&& t.round_collator_reward_info@[collator]@ == left
        }
        &&& t == (Staking { round_collator_reward_info: t.round_collator_reward_info, ..s })
    }
}

/// The rounds the map `m` records, oldest first.
fn rounds_of(m: &BTreeMap<RoundIndex, RoundCollatorRewardInfoType>) -> (r: Vec<RoundIndex>)
    ensures
        rounds_in_order(r@, m@),
{
    sorted_keys(m)
}

/// The keys of `m`, in increasing order.
pub(crate) fn sorted_keys<V>(m: &BTreeMap<u32, V>) -> (r: Vec<u32>)
    ensures
        r@.to_set() == m@.dom(),
        forall|i: int, j: int| 0 <= i < j < r@.len() ==> r@[i] < r@[j],
{
    broadcast use vstd::laws_cmp::group_laws_cmp;
    let ghost all: Seq<u32> = vstd::std_specs::btree::spec_keys_iter(m).remaining().unref();
    proof {
        let rem = vstd::std_specs::btree::spec_keys_iter(m).remaining();
        assert(all.to_set() == m@.dom());
        assert(vstd::laws_cmp::obeys_cmp::<u32>());
        assert(vstd::laws_cmp::obeys_cmp::<&u32>());
        assert(vstd::std_specs::btree::increasing_seq(rem));
        vstd::std_specs::btree::axiom_increasing_seq_meaning(rem);
        assert forall|i: int, j: int| 0 <= i < j < all.len() implies all[i] < all[j] by {
            assert(OrdSpec::cmp_spec(&rem[i], &rem[j]) is Less);
            assert(all[i] == *rem[i] && all[j] == *rem[j]);
        }
    }
    let mut v: Vec<u32> = Vec::new();
    for k in it: m.keys()
        invariant
            v@.len() == it.index(),
            it.seq().unref() == all,
            forall|i: int| 0 <= i < v@.len() ==> v@[i] == *it.seq()[i],
    {
        v.push(*k);
    }
    assert(v@ =~= all);
    v
}

/// The keys of `m`, in increasing order.
pub(crate) fn sorted_keys64<V>(m: &BTreeMap<u64, V>) -> (r: Vec<u64>)
    ensures
        r@.to_set() == m@.dom(),
        forall|i: int, j: int| 0 <= i < j < r@.len() ==> r@[i] < r@[j],
{
    broadcast use vstd::laws_cmp::group_laws_cmp;
    let ghost all: Seq<u64> = vstd::std_specs::btree::spec_keys_iter(m).remaining().unref();
    proof {
        let rem = vstd::std_specs::btree::spec_keys_iter(m).remaining();
        assert(all.to_set() == m@.dom());
        assert(vstd::laws_cmp::obeys_cmp::<u64>());
        assert(vstd::laws_cmp::obeys_cmp::<&u64>());
        assert(vstd::std_specs::btree::increasing_seq(rem));
        vstd::std_specs::btree::axiom_increasing_seq_meaning(rem);
        assert forall|i: int, j: int| 0 <= i < j < all.len() implies all[i] < all[j] by {
            assert(OrdSpec::cmp_spec(&rem[i], &rem[j]) is Less);
            assert(all[i] == *rem[i] && all[j] == *rem[j]);
        }
    }
    let mut v: Vec<u64> = Vec::new();
    for k in it: m.keys()
        invariant
            v@.len() == it.index(),
            it.seq().unref() == all,
            forall|i: int| 0 <= i < v@.len() ==> v@[i] == *it.seq()[i],
    {
        v.push(*k);
    }
    assert(v@ =~= all);
    v
}

/// `t` is `s` after paying out the rounds recorded for `collator`, oldest
/// first, with the budget for `limit` rounds, with result `r`.
pub open spec fn collator_payout_done(s: Staking, t: Staking, collator: AccountId, limit: u32, r: Result<(Vec<RewardTransfer>, Vec<Event>), Error>) -> bool {
    exists|order: Seq<RoundIndex>| #[trigger] rounds_in_order(order, s.recorded_for(collator))
        && collator_paid(s, t, collator, payout_plan(collator, s.recorded_for(collator), order, s.payout_budget(limit), limit), r)
}

/// Each delegator's reward in `rewards` as a transfer.
pub open spec fn delegator_transfers(rewards: Seq<RewardEntry>) -> Seq<RewardTransfer> {
    rewards.map_values(|e: RewardEntry| RewardTransfer { to: e.account, amount: e.amount })
}

impl Staking {
    /// Pays out the rewards recorded for `collator`, oldest round first: each
    /// round whose transfers (the collator's and each delegator's) the budget
    /// still covers is paid and forgotten; the first that it does not cover
    /// stops the payout. The budget is `number_of_sesisons` (by default
    /// `DefaultPayoutLimit`) times one more than `MaxDelegationsPerDelegator`
    /// transfers, and each round past that number costs one transfer more.
    /// Fails when no round is paid.
    pub fn do_payout_collator_rewards(&mut self, collator: AccountId, number_of_sesisons: Option<u32>) -> (r: Result<(Vec<RewardTransfer>, Vec<Event>), Error>)
        requires
            forall|q: RoundIndex| #[trigger] old(self).recorded_for(collator).contains_key(q)
                ==> old(self).recorded_for(collator)[q].delegator_rewards@.len() < u32::MAX,
        ensures
            collator_payout_done(*old(self), *final(self), collator, match number_of_sesisons {
                Some(n) => n,
                None => old(self).config.default_payout_limit,
            }, r),
    {
        let limit = match number_of_sesisons {
            Some(n) => n,
            None => self.config.default_payout_limit,
        };
        let budget0: u32 = limit.wrapping_mul(self.config.max_delegations_per_delegator.wrapping_add(1));
        let ghost infos = self.recorded_for(collator);
        let order = match self.round_collator_reward_info.get(&collator) {
            Some(m) => rounds_of(m),
            None => {
                proof {
                    assert(rounds_in_order(Seq::<RoundIndex>::empty(), infos)) by {
                        assert(Seq::<RoundIndex>::empty().to_set() =~= infos.dom());
                    }
                }
                Vec::new()
            },
        };
        let mut budget = budget0;
        let mut stopped = false;
        let mut paid: Vec<RoundIndex> = Vec::new();
        let mut transfers: Vec<RewardTransfer> = Vec::new();
        let mut events: Vec<Event> = Vec::new();
        let mut id: usize = 0;
        while id < order.len()
            invariant
                id <= order@.len(),
                infos == self.recorded_for(collator),
                *self == *old(self),
                rounds_in_order(order@, infos),
                forall|q: RoundIndex| #[trigger] infos.contains_key(q) ==> infos[q].delegator_rewards@.len() < u32::MAX,
                ({
                    let p = payout_plan(collator, infos, order@.take(id as int), budget0, limit);
                    &&& p.budget == budget
                    &&& p.stopped == stopped
                    &&& p.paid == paid@
                    &&& p.transfers == transfers@
                    &&& p.events == events@
                }),
            decreases order@.len() - id,
        {
            let q = order[id];
            proof {
                assert(order@.take(id as int + 1).drop_last() == order@.take(id as int));
                assert(order@.take(id as int + 1).last() == q);
                assert(order@.to_set().contains(order@[id as int]));
            }
            if !stopped {
                let info = self.round_collator_reward_info.get(&collator).unwrap().get(&q).unwrap();
                let n: u32 = info.delegator_rewards.0.len() as u32;
                if budget < n + 1 {
                    stopped = true;
                } else {
                    let (t, ev) = payout_reward(q, collator, info.collator_reward, RewardKind::Collator);
                    transfers.push(t);
                    events.push(ev);
                    budget = budget - 1;
                    let ghost t0 = transfers@;
                    let ghost e0 = events@;
                    let mut k: usize = 0;
                    while k < info.delegator_rewards.0.len()
                        invariant
                            k <= info.delegator_rewards@.len(),
                            transfers@ == t0 + delegator_transfers(info.delegator_rewards@.take(k as int)),
                            events@ == e0 + info.delegator_rewards@.take(k as int).map_values(
                                |e: RewardEntry| Event::DelegatorDueReward(q, collator, e.account, e.amount),
                            ),
                        decreases info.delegator_rewards@.len() - k,
                    {
                        let e = info.delegator_rewards.0[k];
                        let (t, ev) = payout_reward(q, e.account, e.amount, RewardKind::Delegator(collator));
                        transfers.push(t);
                        events.push(ev);
                        k = k + 1;
                        proof {
                            assert(transfers@ =~= t0 + delegator_transfers(info.delegator_rewards@.take(k as int)));
                            assert(events@ =~= e0 + info.delegator_rewards@.take(k as int).map_values(
                                |e: RewardEntry| Event::DelegatorDueReward(q, collator, e.account, e.amount),
                            ));
                        }
                    }
                    proof {
                        assert(info.delegator_rewards@.take(k as int) == info.delegator_rewards@);
                        assert(transfers@ =~= payout_plan(collator, infos, order@.take(id as int), budget0, limit).transfers
                            + round_transfers(collator, infos[q]));
                        assert(events@ =~= payout_plan(collator, infos, order@.take(id as int), budget0, limit).events
                            + round_events(collator, q, infos[q]));
                    }
                    paid.push(q);
                    budget = match budget.checked_sub(n) {
                        Some(b) => b,
                        None => 0,
                    };
                    #[verifier::truncate]
                    let idx: u32 = id as u32;
                    let counted = match idx.checked_add(1u32) {
                        Some(c) => c,
                        None => u32::MAX,
                    };
                    if counted > limit {
                        budget = match budget.checked_sub(1) {
                            Some(b) => b,
                            None => 0,
                        };
                    }
                }
            }
            id = id + 1;
        }
        proof {
            assert(order@.take(id as int) == order@);
        }
        let ghost plan = payout_plan(collator, infos, order@, budget0, limit);
        if paid.len() == 0 {
            proof {
                assert(collator_paid(*old(self), *self, collator, plan, Err(Error::CollatorRoundRewardsDNE)));
                assert(rounds_in_order(order@, infos));
            }
            return Err(Error::CollatorRoundRewardsDNE);
        }
        let mut inner = self.round_collator_reward_info.remove(&collator).unwrap();
        let ghost before = inner@;
        let mut j: usize = 0;
        while j < paid.len()
            invariant
                j <= paid@.len(),
                inner@ == before.remove_keys(paid@.take(j as int).to_set()),
            decreases paid@.len() - j,
        {
            inner.remove(&paid[j]);
            proof {
                assert(paid@.take(j as int + 1) == paid@.take(j as int).push(paid@[j as int]));
                paid@.take(j as int).lemma_push_to_set_commute(paid@[j as int]);
                assert(inner@ =~= before.remove_keys(paid@.take(j as int + 1).to_set()));
            }
            j = j + 1;
        }
        proof {
            assert(paid@.take(j as int) == paid@);
        }
        if inner.len() == 0 {
            events.push(Event::CollatorRewardsDistributed(collator, PayoutRounds::All));
        } else {
            self.round_collator_reward_info.insert(collator, inner);
            proof {
                assert(self.round_collator_reward_info@.dom() =~= old(self).round_collator_reward_info@.dom());
            }
            events.push(Event::CollatorRewardsDistributed(collator, PayoutRounds::Partial(paid)));
        }
        proof {
            assert(events@.drop_last() =~= plan.events);
            assert(rounds_in_order(order@, infos));
        }
        Ok((transfers, events))
    }
}

impl Staking {
    /// Pays out the rewards recorded for `collator`, as
    /// `do_payout_collator_rewards` does.
    pub fn payout_collator_rewards(&mut self, collator: AccountId, number_of_sesisons: Option<u32>) -> (r: Result<(Vec<RewardTransfer>, Vec<Event>), Error>)
        requires
            forall|q: RoundIndex| #[trigger] old(self).recorded_for(collator).contains_key(q)
                ==> old(self).recorded_for(collator)[q].delegator_rewards@.len() < u32::MAX,
        ensures
            collator_payout_done(*old(self), *final(self), collator, match number_of_sesisons {
                Some(n) => n,
                None => old(self).config.default_payout_limit,
            }, r),
    {
        self.do_payout_collator_rewards(collator, number_of_sesisons)
    }

    /// Pays `delegator` its reward of `round` from `collator`, which is then
    /// no longer recorded.
    pub fn payout_delegator_reward(&mut self, round: RoundIndex, collator: AccountId, delegator: AccountId) -> (r: Result<(RewardTransfer, Event), Error>)
        requires
            old(self).recorded_for(collator).contains_key(round) ==> old(self).recorded_for(collator)[round].delegator_rewards.wf(),
        ensures
            !old(self).recorded_for(collator).contains_key(round)
                ==> r == Err::<(RewardTransfer, Event), Error>(Error::CollatorRoundRewardsDNE) && *final(self) == *old(self),
            old(self).recorded_for(collator).contains_key(round) ==> {
                let info = old(self).recorded_for(collator)[round];
                let rewards = key_map(info.delegator_rewards@);
                if !rewards.contains_key(delegator) {
                    r == Err::<(RewardTransfer, Event), Error>(Error::DelegatorRewardsDNE) && *final(self) == *old(self)
                } else {
                    let amount = rewards[delegator].amount;
                    let info2 = final(self).round_collator_reward_info@[collator]@[round];
                    &&& r == Ok::<(RewardTransfer, Event), Error>((
                        RewardTransfer { to: delegator, amount },
                        Event::DelegatorDueReward(round, collator, delegator, amount),
                    ))
                    &&& final(self).round_collator_reward_info@.dom() == old(self).round_collator_reward_info@.dom()
                    &&& forall|k: AccountId| k != collator && #[trigger] old(self).round_collator_reward_info@.contains_key(k)
                        ==> final(self).round_collator_reward_info@[k] == old(self).round_collator_reward_info@[k]
                    &&& final(self).round_collator_reward_info@[collator]@.dom() == old(self).recorded_for(collator).dom()
                    &&& forall|q: RoundIndex| q != round && #[trigger] old(self).recorded_for(collator).contains_key(q)
                        ==> final(self).round_collator_reward_info@[collator]@[q] == old(self).recorded_for(collator)[q]
                    &&& info2.collator_reward == info.collator_reward
                    &&& info2.delegator_rewards.wf()
                    &&& key_map(info2.delegator_rewards@) == rewards.remove(delegator)
                    &&& *final(self) == (Staking { round_collator_reward_info: final(self).round_collator_reward_info, ..*old(self) })
                }
            },
    {
        let amount = match self.round_collator_reward_info.get(&collator) {
            Some(m) => match m.get(&round) {
                Some(info) => match info.delegator_rewards.get(delegator) {
                    Some(e) => e.amount,
                    None => {
                        return Err(Error::DelegatorRewardsDNE);
                    },
                },
                None => {
                    return Err(Error::CollatorRoundRewardsDNE);
                },
            },
            None => {
                return Err(Error::CollatorRoundRewardsDNE);
            },
        };
        let mut inner = self.round_collator_reward_info.remove(&collator).unwrap();
        let mut info = inner.remove(&round).unwrap();
        let ghost before = info.delegator_rewards@;
        info.delegator_rewards.remove(&RewardEntry { account: delegator, amount });
        proof {
            let i = choose|i: int| 0 <= i < before.len() && before[i].spec_key() == delegator
                && info.delegator_rewards@ == before.remove(i);
            crate::ordered_set::lemma_key_map_remove(before, i);
        }
        inner.insert(round, info);
        self.round_collator_reward_info.insert(collator, inner);
        proof {
            assert(self.round_collator_reward_info@.dom() =~= old(self).round_collator_reward_info@.dom());
            assert(self.round_collator_reward_info@[collator]@.dom() =~= old(self).recorded_for(collator).dom());
        }
        Ok(payout_reward(round, delegator, amount, RewardKind::Delegator(collator)))
    }
}

impl Staking {
    /// Uses idle block time: when `remaining_weight` exceeds `claim_cost`, the
    /// weight of one payout, a collator with rewards recorded is paid one
    /// round's worth (its result is returned with it). Returns `claim_cost`.
    pub fn on_idle(&mut self, remaining_weight: u64, claim_cost: u64) -> (r: (u64, Option<(AccountId, Result<(Vec<RewardTransfer>, Vec<Event>), Error>)>))
        requires
            forall|c: AccountId, q: RoundIndex| #[trigger] old(self).recorded_for(c).contains_key(q)
                ==> old(self).recorded_for(c)[q].delegator_rewards@.len() < u32::MAX,
        ensures
            r.0 == claim_cost,
            (remaining_weight <= claim_cost || old(self).round_collator_reward_info@.len() == 0)
                ==> r.1 is None && *final(self) == *old(self),
            (remaining_weight > claim_cost && old(self).round_collator_reward_info@.len() > 0) ==> (r.1 matches Some((c, res))
                && old(self).round_collator_reward_info@.contains_key(c)
                && collator_payout_done(*old(self), *final(self), c, 1, res)),
    {
        if remaining_weight <= claim_cost {
            return (claim_cost, None);
        }
        let collators = crate::round_rewards::account_keys(&self.round_collator_reward_info);
        if collators.len() == 0 {
            proof {
                assert(self.round_collator_reward_info@.dom() =~= Set::<AccountId>::empty());
            }
            return (claim_cost, None);
        }
        let c = collators[0];
        proof {
            assert(collators@.to_set().contains(collators@[0]));
        }
        let res = self.do_payout_collator_rewards(c, Some(1));
        (claim_cost, Some((c, res)))
    }
}

} // verus!
