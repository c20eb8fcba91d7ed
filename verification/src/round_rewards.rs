//! The end of a round's reward cycle: the points of each block author become
//! its share of the round's staking issuance, recorded for the collator and
//! its delegators, or split first between the collators an aggregator stands
//! for.

use crate::arith::{billion, spec_perbill_from_rational, Perbill};
use crate::ordered_set::OrderedSet;
use crate::payout::{aggregator_distribution, distribution_of, RewardEntry};
use crate::staking::{collator_processed, Staking};
use crate::{AccountId, Balance, RoundIndex};
use std::collections::BTreeMap;
use vstd::prelude::*;
use vstd::std_specs::iter::IteratorSpec;

verus! {

broadcast use vstd::std_specs::btree::group_btree_axioms;

/// `states` goes from its first to its last state by recording, in turn, the
/// reward of each of `pays` for `round`.
pub open spec fn pay_chain(states: Seq<Staking>, round: RoundIndex, pays: Seq<RewardEntry>) -> bool {
    &&& states.len() == pays.len() + 1
    &&& forall|i: int| #![trigger pays[i]] 0 <= i < pays.len()
        ==> collator_processed(states[i], states[i + 1], round, pays[i].account, pays[i].amount)
}

/// Every snapshot lists at most `u32::MAX` delegations.
pub open spec fn snapshots_bounded(s: Staking) -> bool {
    forall|q: RoundIndex, c: AccountId| #![trigger s.at_stake@[q]@[c]]
        s.at_stake@.contains_key(q) && s.at_stake@[q]@.contains_key(c)
            ==> s.at_stake@[q]@[c].delegations@.len() <= u32::MAX
}

/// Every aggregator of every round stands for at most `u32::MAX` collators.
pub open spec fn aggregator_info_bounded(s: Staking) -> bool {
    forall|q: RoundIndex, a: AccountId| #![trigger s.round_aggregator_info@[q]@[a]]
        s.round_aggregator_info@.contains_key(q) && s.round_aggregator_info@[q]@.contains_key(a)
            ==> s.round_aggregator_info@[q]@[a]@.len() <= u32::MAX
}

/// `t` holds what `s` holds but for the snapshots, the rewards recorded, the
/// points and the aggregator information of the rounds.
pub open spec fn payout_frame(s: Staking, t: Staking) -> bool {
    t == (Staking {
        at_stake: t.at_stake,
        round_collator_reward_info: t.round_collator_reward_info,
        points: t.points,
        awarded_pts: t.awarded_pts,
        round_aggregator_info: t.round_aggregator_info,
        ..s
    })
}

/// Recording a reward keeps the snapshots bounded.
proof fn lemma_processed_bounded(s: Staking, t: Staking, round: RoundIndex, collator: AccountId, reward: Balance)
    requires
        snapshots_bounded(s),
        collator_processed(s, t, round, collator, reward),
    ensures
        snapshots_bounded(t),
        t.collator_commission == s.collator_commission,
        t.round_aggregator_info == s.round_aggregator_info,
{
    assert forall|q: RoundIndex, c: AccountId| #![trigger t.at_stake@[q]@[c]]
        t.at_stake@.contains_key(q) && t.at_stake@[q]@.contains_key(c)
            implies t.at_stake@[q]@[c].delegations@.len() <= u32::MAX by {
        if q == round {
            assert(s.at_stake@[q]@.contains_key(c));
            assert(t.at_stake@[q]@[c] == s.at_stake@[q]@[c]);
        } else {
            assert(t.at_stake@[q] == s.at_stake@[q]);
        }
    }
}

/// Two chains, the second starting where the first ends, make one.
proof fn lemma_pay_chain_append(a: Seq<Staking>, p: Seq<RewardEntry>, b: Seq<Staking>, q: Seq<RewardEntry>, round: RoundIndex)
    requires
        pay_chain(a, round, p),
        pay_chain(b, round, q),
        a.last() == b[0],
    ensures
        pay_chain(a + b.skip(1), round, p + q),
        (a + b.skip(1))[0] == a[0],
        (a + b.skip(1)).last() == b.last(),
{
    let c = a + b.skip(1);
    let pq = p + q;
    assert forall|i: int| #![trigger pq[i]] 0 <= i < pq.len()
        implies collator_processed(c[i], c[i + 1], round, pq[i].account, pq[i].amount) by {
        if i < p.len() {
            assert(pq[i] == p[i]);
            assert(c[i] == a[i]);
            if i + 1 < a.len() {
                assert(c[i + 1] == a[i + 1]);
            } else {
                assert(c[i + 1] == b[0]);
            }
        } else {
            let j = i - p.len();
            assert(pq[i] == q[j]);
            assert(c[i + 1] == b[j + 1]);
            if j == 0 {
                assert(c[i] == a.last());
            } else {
                assert(c[i] == b[j]);
            }
        }
    }
}

/// The reward of each author of `authors` in turn: its points' part of
/// `issuance`, for itself, or split between the collators it aggregates
/// when `info` lists them.
pub open spec fn author_payouts(
    authors: Seq<AccountId>,
    points: Map<AccountId, u32>,
    total: u32,
    issuance: Balance,
    info: Map<AccountId, OrderedSet<RewardEntry>>,
) -> Seq<RewardEntry>
    decreases authors.len(),
{
    if authors.len() == 0 {
        Seq::empty()
    } else {
        let before = author_payouts(authors.drop_last(), points, total, issuance, info);
        let a = authors.last();
        let reward = (issuance * spec_perbill_from_rational(points[a] as int, total as int) / billion()) as u128;
        if info.contains_key(a) {
            before + distribution_of(reward, info[a]@)
        } else {
            before.push(RewardEntry { account: a, amount: reward })
        }
    }
}

impl Staking {
    /// The points awarded in `round`, zero when none.
    pub open spec fn points_of(&self, round: RoundIndex) -> u32 {
        if self.points@.contains_key(round) {
            self.points@[round]
        } else {
            0
        }
    }

    /// The points of each author in `round`.
    pub open spec fn awarded_of(&self, round: RoundIndex) -> Map<AccountId, u32> {
        if self.awarded_pts@.contains_key(round) {
            self.awarded_pts@[round]@
        } else {
            Map::empty()
        }
    }

    /// The collators each aggregator selected for `round` stands for.
    pub open spec fn aggregator_info_of(&self, round: RoundIndex) -> Map<AccountId, OrderedSet<RewardEntry>> {
        if self.round_aggregator_info@.contains_key(round) {
            self.round_aggregator_info@[round]@
        } else {
            Map::empty()
        }
    }
}

/// `t` is `s` after `round` was paid out with `issuance`: without points its
/// points record just goes; otherwise its points, authors' points and
/// aggregator information go, and each author, taken once in some order, has
/// its reward recorded in turn.
pub open spec fn paid_out(s: Staking, t: Staking, round: RoundIndex, issuance: Balance) -> bool {
    if s.points_of(round) == 0 {
        &&& t.points@ == s.points@.remove(round)
        &&& t == (Staking { points: t.points, ..s })
    } else {
        exists|authors: Seq<AccountId>, states: Seq<Staking>|
            #![trigger pay_chain(states, round, author_payouts(authors, s.awarded_of(round), s.points_of(round), issuance, s.aggregator_info_of(round)))]
        {
            &&& authors.to_set() == s.awarded_of(round).dom()
            &&& authors.no_duplicates()
            &&& pay_chain(states, round, author_payouts(authors, s.awarded_of(round), s.points_of(round), issuance, s.aggregator_info_of(round)))
            &&& states[0].points@ == s.points@.remove(round)
            &&& states[0].awarded_pts@ == s.awarded_pts@.remove(round)
            &&& states[0].round_aggregator_info@ == s.round_aggregator_info@.remove(round)
            &&& states[0] == (Staking {
                points: states[0].points,
                awarded_pts: states[0].awarded_pts,
                round_aggregator_info: states[0].round_aggregator_info,
                ..s
            })
            &&& states.last() == t
        }
    }
}

/// The accounts that are keys of `m`, each once.
pub(crate) fn account_keys<V>(m: &BTreeMap<AccountId, V>) -> (r: Vec<AccountId>)
    ensures
        r@.to_set() == m@.dom(),
        r@.no_duplicates(),
{
    broadcast use vstd::laws_cmp::group_laws_cmp;
    let ghost all: Seq<AccountId> = vstd::std_specs::btree::spec_keys_iter(m).remaining().unref();
    assert(all.to_set() == m@.dom() && all.no_duplicates());
    let mut v: Vec<AccountId> = Vec::new();
    for k in it: m.keys()
        invariant
            v@.len() == it.index(),
            it.seq().unref() == all,
            forall|i: int| 0 <= i < v@.len() ==> v@[i] == *it.seq()[i],
    {
        v.push(*k);
    }
    assert(v@ =~= all);
    v
}

impl Staking {
    /// Splits `author_rewards` between the collators of `distribution`, which
    /// an aggregator stands for, by valuation, and records each one's part.
    pub fn process_aggregator_with_rewards_and_dist(&mut self, round_to_payout: RoundIndex, author_rewards: Balance, distribution: &OrderedSet<RewardEntry>)
        requires
            old(self).collator_commission.wf(),
            snapshots_bounded(*old(self)),
            distribution@.len() <= u32::MAX,
        ensures
            final(self).collator_commission == old(self).collator_commission,
            final(self).round_aggregator_info == old(self).round_aggregator_info,
            payout_frame(*old(self), *final(self)),
            snapshots_bounded(*final(self)),
            exists|states: Seq<Staking>| {
                &&& pay_chain(states, round_to_payout, distribution_of(author_rewards, distribution@))
                &&& states[0] == *old(self)
                &&& states.last() == *final(self)
            },
    {
        let pays = aggregator_distribution(author_rewards, &distribution.0);
        let ghost mut states: Seq<Staking> = seq![*self];
        let mut i: usize = 0;
        while i < pays.len()
            invariant
                i <= pays@.len(),
                self.collator_commission == old(self).collator_commission,
                self.round_aggregator_info == old(self).round_aggregator_info,
                payout_frame(*old(self), *self),
                self.collator_commission.wf(),
                snapshots_bounded(*self),
                pay_chain(states, round_to_payout, pays@.take(i as int)),
                states[0] == *old(self),
                states.last() == *self,
            decreases pays@.len() - i,
        {
            let e = pays[i];
            let ghost before = *self;
            self.process_collator_with_rewards(round_to_payout, e.account, e.amount);
            proof {
                lemma_processed_bounded(before, *self, round_to_payout, e.account, e.amount);
                let old_states = states;
                states = states.push(*self);
                let p = pays@.take(i as int + 1);
                assert(p == pays@.take(i as int).push(e));
                assert forall|j: int| #![trigger p[j]] 0 <= j < p.len()
                    implies collator_processed(states[j], states[j + 1], round_to_payout, p[j].account, p[j].amount) by {
                    if j < i {
                        assert(p[j] == pays@.take(i as int)[j]);
                        assert(states[j] == old_states[j]);
                        assert(states[j + 1] == old_states[j + 1]);
                    }
                }
            }
            i = i + 1;
        }
        proof {
            assert(pays@.take(i as int) == pays@);
        }
    }

    /// Pays out the round that ended `RewardPaymentDelay` rounds before `now`:
    /// its points go, and each author that earned points, in account order, is
    /// given its points' part of `staking_issuance` (the round's issuance as
    /// the runtime's issuance pallet gives it; none counts as zero), which is
    /// recorded for it, or split between the collators it aggregates. Nothing
    /// is paid for a round before the delay or without points.
    #[verifier::spinoff_prover]
    #[verifier::rlimit(30)]
    pub fn pay_stakers(&mut self, now: RoundIndex, staking_issuance: Option<Balance>)
        requires
            old(self).collator_commission.wf(),
            snapshots_bounded(*old(self)),
            aggregator_info_bounded(*old(self)),
        ensures
            final(self).collator_commission == old(self).collator_commission,
            snapshots_bounded(*final(self)),
            payout_frame(*old(self), *final(self)),
            now < old(self).config.reward_payment_delay ==> *final(self) == *old(self),
            now >= old(self).config.reward_payment_delay ==> paid_out(
                *old(self),
                *final(self),
                (now - old(self).config.reward_payment_delay) as u32,
                match staking_issuance {
                    Some(v) => v,
                    None => 0,
                },
            ),
    {
        let duration = self.config.reward_payment_delay;
        if now < duration {
            return;
        }
        let round_to_payout = now - duration;
        let total: u32 = match self.points.remove(&round_to_payout) {
            Some(p) => p,
            None => 0,
        };
        if total == 0 {
            proof {
                assert(self.points@ =~= old(self).points@.remove(round_to_payout));
            }
            return;
        }
        let issuance: Balance = match staking_issuance {
            Some(v) => v,
            None => 0,
        };
        let info = match self.round_aggregator_info.remove(&round_to_payout) {
            Some(m) => m,
            None => BTreeMap::new(),
        };
        let awarded = match self.awarded_pts.remove(&round_to_payout) {
            Some(m) => m,
            None => BTreeMap::new(),
        };
        let ghost g_info = info@;
        let ghost g_awarded = awarded@;
        proof {
            assert(g_info =~= (if old(self).round_aggregator_info@.contains_key(round_to_payout) {
                old(self).round_aggregator_info@[round_to_payout]@
            } else {
                Map::empty()
            }));
            assert(g_awarded =~= (if old(self).awarded_pts@.contains_key(round_to_payout) {
                old(self).awarded_pts@[round_to_payout]@
            } else {
                Map::empty()
            }));
            assert(self.points@ =~= old(self).points@.remove(round_to_payout));
            assert(self.awarded_pts@ =~= old(self).awarded_pts@.remove(round_to_payout));
            assert(self.round_aggregator_info@ =~= old(self).round_aggregator_info@.remove(round_to_payout));
            assert(snapshots_bounded(*self));
        }
        let authors = account_keys(&awarded);
        let ghost mut states: Seq<Staking> = seq![*self];
        let ghost start = *self;
        let mut j: usize = 0;
        while j < authors.len()
            invariant
                j <= authors@.len(),
                authors@.to_set() == g_awarded.dom(),
                g_awarded == awarded@,
                g_info == info@,
                total > 0,
                forall|a: AccountId| #[trigger] g_info.contains_key(a) ==> g_info[a]@.len() <= u32::MAX,
                self.collator_commission == old(self).collator_commission,
                payout_frame(*old(self), *self),
                self.collator_commission.wf(),
                snapshots_bounded(*self),
                pay_chain(states, round_to_payout, author_payouts(authors@.take(j as int), g_awarded, total, issuance, g_info)),
                states[0] == start,
                states.last() == *self,
            decreases authors@.len() - j,
        {
            let author = authors[j];
            proof {
                assert(authors@.to_set().contains(authors@[j as int]));
            }
            let pts: u32 = *awarded.get(&author).unwrap();
            let author_rewards = Perbill::from_rational(pts as u128, total as u128).mul_floor(issuance);
            let ghost before = *self;
            let ghost before_states = states;
            let ghost prefix = author_payouts(authors@.take(j as int), g_awarded, total, issuance, g_info);
            proof {
                assert(authors@.take(j as int + 1).drop_last() == authors@.take(j as int));
                assert(authors@.take(j as int + 1).last() == author);
            }
            match info.get(&author) {
                Some(dist) => {
                    self.process_aggregator_with_rewards_and_dist(round_to_payout, author_rewards, dist);
                    proof {
                        let sub = choose|sub: Seq<Staking>| {
                            &&& pay_chain(sub, round_to_payout, distribution_of(author_rewards, dist@))
                            &&& sub[0] == before
                            &&& sub.last() == *self
                        };
                        lemma_pay_chain_append(before_states, prefix, sub, distribution_of(author_rewards, dist@), round_to_payout);
                        states = before_states + sub.skip(1);
                    }
                },
                None => {
                    self.process_collator_with_rewards(round_to_payout, author, author_rewards);
                    proof {
                        lemma_processed_bounded(before, *self, round_to_payout, author, author_rewards);
                        let one = seq![RewardEntry { account: author, amount: author_rewards }];
                        let sub = seq![before, *self];
                        assert(pay_chain(sub, round_to_payout, one)) by {
                            assert forall|i: int| #![trigger one[i]] 0 <= i < one.len()
                                implies collator_processed(sub[i], sub[i + 1], round_to_payout, one[i].account, one[i].amount) by {
                                assert(i == 0);
                            }
                        }
                        lemma_pay_chain_append(before_states, prefix, sub, one, round_to_payout);
                        states = before_states + sub.skip(1);
                        assert(prefix + one == prefix.push(RewardEntry { account: author, amount: author_rewards }));
                    }
                },
            }
            j = j + 1;
        }
        proof {
            assert(authors@.take(j as int) == authors@);
            assert(states[0] == (Staking {
                points: states[0].points,
                awarded_pts: states[0].awarded_pts,
                round_aggregator_info: states[0].round_aggregator_info,
                ..*old(self)
            }));
            assert(pay_chain(states, round_to_payout, author_payouts(authors@, g_awarded, total, issuance, g_info)));
            let w_authors = authors@;
            let w_states = states;
            assert(w_authors.to_set() == old(self).awarded_of(round_to_payout).dom());
            assert(pay_chain(w_states, round_to_payout, author_payouts(w_authors, old(self).awarded_of(round_to_payout),
                old(self).points_of(round_to_payout), issuance, old(self).aggregator_info_of(round_to_payout))));
        }
    }
}

} // verus!
