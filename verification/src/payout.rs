//! Splitting a round's reward between a collator and its delegators, and an
//! aggregator's reward between the collators it aggregates.

use crate::arith::{billion, multiply_by_rational_down, spec_perbill_from_rational, Perbill};
use crate::bond::{lemma_sum_nonneg, lemma_sum_push, sum_amounts, Bond};
use crate::candidate::CollatorSnapshot;
use crate::ordered_set::{key_map, lemma_entry_of, lemma_key_map_remove, strictly_sorted, OrderedSet, SetKey};
use crate::{AccountId, Balance};
use vstd::prelude::*;

verus! {

/// An amount owed to an account.
#[derive(Clone, Copy, Debug, PartialEq, Eq, Structural)]
pub struct RewardEntry {
    pub account: AccountId,
    pub amount: Balance,
}

impl SetKey for RewardEntry {
    open spec fn spec_key(&self) -> u64 {
        self.account
    }

    fn key(&self) -> (k: u64) {
        self.account
    }
}

/// What a collator and each of its delegators earned in one round.
#[derive(Clone, Debug, PartialEq, Eq)]
pub struct RoundCollatorRewardInfoType {
    pub collator_reward: Balance,
    /// Delegator rewards, one entry per delegator, in account order.
    pub delegator_rewards: OrderedSet<RewardEntry>,
}

impl RoundCollatorRewardInfoType {
    /// No reward for anyone.
    pub fn default() -> (r: RoundCollatorRewardInfoType)
        ensures
            r.collator_reward == 0,
            r.delegator_rewards.wf(),
            r.delegator_rewards.view().len() == 0,
    {
        RoundCollatorRewardInfoType { collator_reward: 0, delegator_rewards: OrderedSet::new() }
    }
}

/// `floor(a * b / c)` when `c` is not zero and it fits in a `u128`, else zero.
pub open spec fn share_down(a: int, b: int, c: int) -> u128 {
    if c != 0 && a * b / c <= u128::MAX {
        (a * b / c) as u128
    } else {
        0
    }
}

/// The entry for `b` in a reward map built by `rewards_map`.
pub open spec fn entry_for(b: Bond, amount: u128) -> RewardEntry {
    RewardEntry { account: b.owner, amount }
}

/// The reward map that gives each bond of `ds`, in order, `f` of it; a later
/// bond of the same owner replaces an earlier one.
pub open spec fn rewards_map(ds: Seq<Bond>, f: spec_fn(Bond) -> u128) -> Map<u64, RewardEntry>
    decreases ds.len(),
{
    if ds.len() == 0 {
        Map::empty()
    } else {
        rewards_map(ds.drop_last(), f).insert(ds.last().owner, entry_for(ds.last(), f(ds.last())))
    }
}

/// The commission taken off `reward`.
pub open spec fn commission_of(reward: int, commission_parts: int) -> int {
    reward * commission_parts / billion()
}

/// The collator's part of `reward` when it has delegators: the commission, plus
/// the share of the rest that its own bond makes of the counted total.
pub open spec fn collator_part(s: CollatorSnapshot, commission_parts: int, reward: int) -> int {
    let c = commission_of(reward, commission_parts);
    (reward - c) * spec_perbill_from_rational(s.bond as int, s.total as int) / billion() + c
}

/// The bond and the delegations of the snapshot add up to no more than its total.
pub open spec fn delegations_fit(s: CollatorSnapshot) -> bool {
    s.bond + sum_amounts(s.delegations@) <= s.total
}

/// A part `x * p / 10^9` of `x` with `p` at most a billion is at most `x`.
proof fn lemma_part_le(x: int, p: int)
    requires
        0 <= x,
        0 <= p <= billion(),
    ensures
        0 <= x * p / billion() <= x,
{
    assert(x * p <= x * billion()) by (nonlinear_arith)
        requires
            0 <= x,
            p <= billion(),
    ;
    assert(x * p / billion() <= x) by (nonlinear_arith)
        requires
            x * p <= x * billion(),
            0 <= x,
    ;
    assert(0 <= x * p / billion()) by (nonlinear_arith)
        requires
            0 <= x,
            0 <= p,
    ;
}

/// A prefix of a sequence of bonds sums to no more than the whole.
proof fn lemma_sum_prefix_le(s: Seq<Bond>, i: int)
    requires
        0 <= i <= s.len(),
    ensures
        sum_amounts(s.take(i)) <= sum_amounts(s),
    decreases s.len(),
{
    if i < s.len() {
        lemma_sum_prefix_le(s.drop_last(), i);
        assert(s.drop_last().take(i) == s.take(i));
        lemma_sum_push(s.drop_last(), s.last());
        assert(s.drop_last().push(s.last()) == s);
    } else {
        assert(s.take(i) == s);
    }
}

/// `bond` plus the amounts of `ds`, or `None` when that overflows a `u128`.
fn check_sum(bond: Balance, ds: &Vec<Bond>) -> (r: Option<Balance>)
    ensures
        match r {
            Some(t) => t == bond + sum_amounts(ds@),
            None => bond + sum_amounts(ds@) > u128::MAX,
        },
{
    let mut acc: Balance = bond;
    let mut i: usize = 0;
    while i < ds.len()
        invariant
            i <= ds@.len(),
            acc == bond + sum_amounts(ds@.take(i as int)),
        decreases ds@.len() - i,
    {
        proof {
            lemma_sum_push(ds@.take(i as int), ds@[i as int]);
            assert(ds@.take(i as int).push(ds@[i as int]) == ds@.take(i as int + 1));
        }
        match acc.checked_add(ds[i].amount) {
            Some(v) => {
                acc = v;
            },
            None => {
                proof {
                    lemma_sum_prefix_le(ds@, i as int + 1);
                }
                return None;
            },
        }
        i = i + 1;
    }
    proof {
        assert(ds@.take(i as int) == ds@);
    }
    Some(acc)
}

/// The reward of a collator that was selected with snapshot `state`, and of each
/// of its counted delegators, out of `reward`, with `commission` for the collator.
///
/// A collator with no delegators gets everything. Otherwise the collator gets the
/// commission plus the share of the rest its own bond makes of the counted total,
/// and each delegator the share of the rest that its delegation makes of that
/// total; if the bond and delegations add up to more than the total, what is left
/// after the collator's part is split evenly.
pub fn collator_payout_info(state: &CollatorSnapshot, commission: Perbill, reward: Balance) -> (r:
    RoundCollatorRewardInfoType)
    requires
        commission.wf(),
        state.delegations@.len() <= u32::MAX,
    ensures
        r.delegator_rewards.wf(),
        state.delegations@.len() == 0 ==> r.collator_reward == reward && key_map(
            r.delegator_rewards.view(),
        ) == Map::<u64, RewardEntry>::empty(),
        state.delegations@.len() > 0 ==> {
            let c = commission_of(reward as int, commission.spec_parts() as int);
            let cr = collator_part(*state, commission.spec_parts() as int, reward as int);
            let n = state.delegations@.len() as int;
            &&& r.collator_reward == cr
            &&& key_map(r.delegator_rewards.view()) == (if delegations_fit(*state) {
                rewards_map(
                    state.delegations@,
                    |b: Bond| share_down(reward - c, b.amount as int, state.total as int),
                )
            } else {
                rewards_map(state.delegations@, |b: Bond| ((reward - cr) / n) as u128)
            })
        },
{
    let mut info = RoundCollatorRewardInfoType::default();
    if state.delegations.len() == 0 {
        info.collator_reward = reward;
        assert(key_map(info.delegator_rewards.view()) =~= Map::<u64, RewardEntry>::empty());
        return info;
    }
    let collator_commission = commission.mul_floor(reward);
    proof {
        commission.lemma_parts_bound();
        lemma_part_le(reward as int, commission.spec_parts() as int);
    }
    let reward_less_commission = reward - collator_commission;
    let collator_perbill = Perbill::from_rational(state.bond, state.total);
    let collator_reward_less_commission = collator_perbill.mul_floor(reward_less_commission);
    proof {
        collator_perbill.lemma_parts_bound();
        lemma_part_le(reward_less_commission as int, collator_perbill.spec_parts() as int);
    }
    info.collator_reward = collator_reward_less_commission + collator_commission;
    let ghost ds = state.delegations@;
    let ghost less: int = reward_less_commission as int;
    let ghost total: int = state.total as int;
    let ghost fprop = |b: Bond| share_down(less, b.amount as int, total);
    let fits = match check_sum(state.bond, &state.delegations) {
        Some(t) => t <= state.total,
        None => false,
    };
    let n: u32 = state.delegations.len() as u32;
    let delegator_reward: Balance = (reward - info.collator_reward) / (n as u128);
    let ghost feven = |b: Bond| delegator_reward;
    let mut i: usize = 0;
    while i < state.delegations.len()
        invariant
            i <= ds.len(),
            ds == state.delegations@,
            info.delegator_rewards.wf(),
            less == reward_less_commission,
            total == state.total,
            fprop == (|b: Bond| share_down(less, b.amount as int, total)),
            feven == (|b: Bond| delegator_reward),
            fits ==> key_map(info.delegator_rewards.view()) == rewards_map(ds.take(i as int), fprop),
            !fits ==> key_map(info.delegator_rewards.view()) == rewards_map(ds.take(i as int), feven),
            info.collator_reward == collator_reward_less_commission + collator_commission,
        decreases ds.len() - i,
    {
        let b = state.delegations[i];
        let amount = if fits {
            match multiply_by_rational_down(reward_less_commission, b.amount, state.total) {
                Some(v) => v,
                None => 0,
            }
        } else {
            delegator_reward
        };
        proof {
            assert(ds.take(i as int + 1).drop_last() == ds.take(i as int));
            assert(ds.take(i as int + 1).last() == b);
        }
        info.delegator_rewards.upsert(RewardEntry { account: b.owner, amount });
        i = i + 1;
    }
    proof {
        assert(ds.take(i as int) == ds);
        lemma_sum_nonneg(ds);
        let c = commission_of(reward as int, commission.spec_parts() as int);
        let cr = collator_part(*state, commission.spec_parts() as int, reward as int);
        assert(fprop =~= (|b: Bond| share_down(reward - c, b.amount as int, state.total as int)));
        assert(feven =~= (|b: Bond| ((reward - cr) / (ds.len() as int)) as u128));
    }
    info
}

/// Each collator of an aggregator's `distribution` (collator, valuation) with
/// its part of `author_rewards`, in the order of `distribution`: the share its
/// valuation makes of all valuations, or an even split when the valuations
/// add up to more than a `u128` holds.
pub fn aggregator_distribution(author_rewards: Balance, distribution: &Vec<RewardEntry>) -> (r: Vec<
    RewardEntry,
>)
    requires
        distribution@.len() <= u32::MAX,
    ensures
        r@ == distribution_of(author_rewards, distribution@),
        r@.len() == distribution@.len(),
        forall|i: int|
            0 <= i < r@.len() ==> #[trigger] r@[i].account == distribution@[i].account,
        entries_sum(distribution@) <= u128::MAX ==> forall|i: int|
            0 <= i < r@.len() ==> #[trigger] r@[i].amount == share_down(
                author_rewards as int,
                distribution@[i].amount as int,
                entries_sum(distribution@),
            ),
        entries_sum(distribution@) > u128::MAX ==> forall|i: int|
            0 <= i < r@.len() ==> #[trigger] r@[i].amount == (author_rewards as int) / (distribution@.len() as int),
{
    let mut total: Balance = 0;
    let mut overflow = false;
    let mut i: usize = 0;
    while i < distribution.len()
        invariant
            i <= distribution@.len(),
            !overflow ==> total == entries_sum(distribution@.take(i as int)),
            overflow ==> entries_sum(distribution@) > u128::MAX,
        decreases distribution@.len() - i,
    {
        proof {
            lemma_entries_sum_push(distribution@.take(i as int), distribution@[i as int]);
            assert(distribution@.take(i as int).push(distribution@[i as int]) == distribution@.take(
                i as int + 1,
            ));
        }
        if !overflow {
            match total.checked_add(distribution[i].amount) {
                Some(v) => {
                    total = v;
                },
                None => {
                    proof {
                        lemma_entries_sum_prefix_le(distribution@, i as int + 1);
                    }
                    overflow = true;
                },
            }
        }
        i = i + 1;
    }
    proof {
        assert(distribution@.take(i as int) == distribution@);
    }
    let n: u32 = distribution.len() as u32;
    let even: Balance = if n == 0 {
        0
    } else {
        author_rewards / (n as u128)
    };
    let mut r: Vec<RewardEntry> = Vec::new();
    let mut j: usize = 0;
    while j < distribution.len()
        invariant
            j <= distribution@.len(),
            r@.len() == j,
            distribution@.len() > 0 ==> even == (author_rewards as int) / (distribution@.len() as int),
            !overflow ==> total == entries_sum(distribution@),
            overflow == (entries_sum(distribution@) > u128::MAX),
            forall|k: int| 0 <= k < j ==> #[trigger] r@[k].account == distribution@[k].account,
            !overflow ==> forall|k: int|
                0 <= k < j ==> #[trigger] r@[k].amount == share_down(
                    author_rewards as int,
                    distribution@[k].amount as int,
                    entries_sum(distribution@),
                ),
            overflow ==> forall|k: int| 0 <= k < j ==> #[trigger] r@[k].amount == even,
        decreases distribution@.len() - j,
    {
        let e = distribution[j];
        let amount = if overflow {
            even
        } else {
            match multiply_by_rational_down(author_rewards, e.amount, total) {
                Some(v) => v,
                None => 0,
            }
        };
        r.push(RewardEntry { account: e.account, amount });
        j = j + 1;
    }
    proof {
        let d = distribution_of(author_rewards, distribution@);
        assert forall|k: int| 0 <= k < r@.len() implies r@[k] == d[k] by {
            assert(r@[k].account == distribution@[k].account);
            let a = author_rewards as int;
            let n = distribution@.len() as int;
            assert(0 <= a / n <= a) by (nonlinear_arith)
                requires
                    a >= 0,
                    n > 0,
            ;
            let e = distribution@[k];
            let amt = if entries_sum(distribution@) <= u128::MAX {
                share_down(author_rewards as int, e.amount as int, entries_sum(distribution@))
            } else {
                (a / n) as u128
            };
            assert(d[k] == RewardEntry { account: e.account, amount: amt });
            assert(r@[k].amount == amt);
        }
        assert(r@ =~= d);
    }
    r
}

/// Each collator of `distribution` with its part of `author_rewards`: the
/// share its valuation makes of all valuations, or an even split when they
/// add up to more than a `u128` holds.
pub open spec fn distribution_of(author_rewards: Balance, distribution: Seq<RewardEntry>) -> Seq<RewardEntry> {
    distribution.map_values(|e: RewardEntry| RewardEntry {
        account: e.account,
        amount: if entries_sum(distribution) <= u128::MAX {
            share_down(author_rewards as int, e.amount as int, entries_sum(distribution))
        } else {
            ((author_rewards as int) / (distribution.len() as int)) as u128
        },
    })
}

/// What the delegations `ds` get of `x` shared in proportion to their amounts
/// against `total`, added up.
pub open spec fn shares_sum(ds: Seq<Bond>, x: int, total: int) -> int
    decreases ds.len(),
{
    if ds.len() == 0 {
        0
    } else {
        shares_sum(ds.drop_last(), x, total) + share_down(x, ds.last().amount as int, total)
    }
}

/// `total` times the shares is at most `x` times the amounts shared.
proof fn lemma_shares_sum_bound(ds: Seq<Bond>, x: int, total: int)
    requires
        x >= 0,
        total > 0,
    ensures
        total * shares_sum(ds, x, total) <= x * sum_amounts(ds),
        shares_sum(ds, x, total) >= 0,
    decreases ds.len(),
{
    if ds.len() > 0 {
        let rest = ds.drop_last();
        let b = ds.last();
        lemma_shares_sum_bound(rest, x, total);
        lemma_sum_push(rest, b);
        assert(rest.push(b) == ds);
        let a = b.amount as int;
        let sh = share_down(x, a, total) as int;
        assert(total * sh <= x * a) by (nonlinear_arith)
            requires
                sh == 0 || sh == x * a / total,
                x >= 0,
                a >= 0,
                total > 0,
        ;
        let s0 = shares_sum(rest, x, total);
        assert(total * (s0 + sh) == total * s0 + total * sh) by (nonlinear_arith);
        assert(x * (sum_amounts(rest) + a) == x * sum_amounts(rest) + x * a) by (nonlinear_arith);
    }
}

/// Splitting a round's reward never hands out more than the reward: the
/// collator's part and its delegators' shares add up to at most `reward`,
/// when the snapshot's bond and delegations fit in its total and the
/// commission is at most a whole.
pub proof fn law_split_within_reward(snap: CollatorSnapshot, commission_parts: int, reward: Balance)
    requires
        0 <= commission_parts <= billion(),
        delegations_fit(snap),
    ensures
        collator_part(snap, commission_parts, reward as int) + shares_sum(
            snap.delegations@,
            reward - commission_of(reward as int, commission_parts),
            snap.total as int,
        ) <= reward,
{
    let r = reward as int;
    let c = commission_of(r, commission_parts);
    lemma_part_le(r, commission_parts);
    let x = r - c;
    let t = snap.total as int;
    let bond = snap.bond as int;
    lemma_sum_nonneg(snap.delegations@);
    let sa = sum_amounts(snap.delegations@);
    let pb = spec_perbill_from_rational(bond, t);
    if t == 0 {
        assert(sa == 0 && bond == 0);
        assert(pb == billion());
        assert(x * pb / billion() == x) by (nonlinear_arith)
            requires
                pb == billion(),
        ;
        assert(shares_sum(snap.delegations@, x, t) <= 0) by {
            lemma_shares_zero(snap.delegations@, x);
        }
    } else {
        lemma_shares_sum_bound(snap.delegations@, x, t);
        let cb = x * pb / billion();
        assert(pb * t <= billion() * bond) by (nonlinear_arith)
            requires
                pb == billion() * bond / t,
                t > 0,
                bond >= 0,
        ;
        assert(cb * t <= x * bond) by (nonlinear_arith)
            requires
                cb == x * pb / billion(),
                pb * t <= billion() * bond,
                x >= 0,
                pb >= 0,
                t > 0,
        ;
        let ss = shares_sum(snap.delegations@, x, t);
        assert((cb + ss) * t <= x * t) by (nonlinear_arith)
            requires
                cb * t <= x * bond,
                t * ss <= x * sa,
                bond + sa <= t,
                x >= 0,
        ;
        assert(cb + ss <= x) by (nonlinear_arith)
            requires
                (cb + ss) * t <= x * t,
                t > 0,
        ;
    }
}

/// `total` times the entries' shares of `x` is at most `x` times their sum.
proof fn lemma_entry_shares_bound(d: Seq<RewardEntry>, x: int, total: int)
    requires
        x >= 0,
        total > 0,
    ensures
        total * entries_sum(d.map_values(|e: RewardEntry| RewardEntry {
            account: e.account,
            amount: share_down(x, e.amount as int, total),
        })) <= x * entries_sum(d),
        entries_sum(d) >= 0,
    decreases d.len(),
{
    let f = |e: RewardEntry| RewardEntry { account: e.account, amount: share_down(x, e.amount as int, total) };
    if d.len() > 0 {
        let rest = d.drop_last();
        lemma_entry_shares_bound(rest, x, total);
        assert(d.map_values(f).drop_last() == rest.map_values(f));
        let a = d.last().amount as int;
        let sh = share_down(x, a, total) as int;
        assert(d.map_values(f).last().amount == sh);
        assert(total * sh <= x * a) by (nonlinear_arith)
            requires
                sh == 0 || sh == x * a / total,
                x >= 0,
                a >= 0,
                total > 0,
        ;
        let s0 = entries_sum(rest.map_values(f));
        assert(total * (s0 + sh) == total * s0 + total * sh) by (nonlinear_arith);
        assert(x * (entries_sum(rest) + a) == x * entries_sum(rest) + x * a) by (nonlinear_arith);
    }
}

/// An even split of `x` over `d` adds up to `len * (x / len)`.
proof fn lemma_even_sum(d: Seq<RewardEntry>, x: int, n: int)
    requires
        n > 0,
        0 <= x / n <= u128::MAX,
    ensures
        entries_sum(d.map_values(|e: RewardEntry| RewardEntry { account: e.account, amount: (x / n) as u128 }))
            == d.len() * (x / n),
    decreases d.len(),
{
    let f = |e: RewardEntry| RewardEntry { account: e.account, amount: (x / n) as u128 };
    if d.len() > 0 {
        lemma_even_sum(d.drop_last(), x, n);
        assert(d.map_values(f).drop_last() == d.drop_last().map_values(f));
        assert(d.map_values(f).last().amount == x / n);
        let k = x / n;
        let l = d.len() as int;
        assert((l - 1) * k + k == l * k) by (nonlinear_arith);
        assert(entries_sum(d.map_values(f)) == entries_sum(d.drop_last().map_values(f)) + k);
    } else {
        let k = x / n;
        assert(0 * k == 0) by (nonlinear_arith);
        assert(d.map_values(f).len() == 0);
    }
}

/// Splitting an aggregator's reward between its collators never hands out
/// more than the reward.
pub proof fn law_distribution_within_reward(author_rewards: Balance, distribution: Seq<RewardEntry>)
    ensures
        entries_sum(distribution_of(author_rewards, distribution)) <= author_rewards,
{
    let r = author_rewards as int;
    let n = distribution.len() as int;
    let total = entries_sum(distribution);
    if n == 0 {
        assert(distribution_of(author_rewards, distribution).len() == 0);
    } else if total <= u128::MAX {
        lemma_entries_nonneg(distribution);
        if total == 0 {
            lemma_shares_to_zero(distribution, r);
            assert(distribution_of(author_rewards, distribution) == distribution.map_values(|e: RewardEntry| RewardEntry {
                account: e.account,
                amount: share_down(r, e.amount as int, 0),
            }));
        } else {
            lemma_entry_shares_bound(distribution, r, total);
            let ss = entries_sum(distribution_of(author_rewards, distribution));
            assert(distribution_of(author_rewards, distribution) == distribution.map_values(|e: RewardEntry| RewardEntry {
                account: e.account,
                amount: share_down(r, e.amount as int, total),
            }));
            assert(ss <= r) by (nonlinear_arith)
                requires
                    total * ss <= r * total,
                    total > 0,
            ;
        }
    } else {
        assert(0 <= r / n <= r) by (nonlinear_arith)
            requires
                r >= 0,
                n > 0,
        ;
        lemma_even_sum(distribution, r, n);
        assert(distribution_of(author_rewards, distribution) == distribution.map_values(|e: RewardEntry| RewardEntry {
            account: e.account,
            amount: (r / n) as u128,
        }));
        assert(n * (r / n) <= r) by (nonlinear_arith)
            requires
                n > 0,
                r >= 0,
        ;
    }
}

/// Amounts add up to no less than zero.
proof fn lemma_entries_nonneg(d: Seq<RewardEntry>)
    ensures
        entries_sum(d) >= 0,
    decreases d.len(),
{
    if d.len() > 0 {
        lemma_entries_nonneg(d.drop_last());
    }
}

/// Shares against a total of zero are all zero.
proof fn lemma_shares_to_zero(d: Seq<RewardEntry>, x: int)
    ensures
        entries_sum(d.map_values(|e: RewardEntry| RewardEntry { account: e.account, amount: share_down(x, e.amount as int, 0) })) == 0,
    decreases d.len(),
{
    let f = |e: RewardEntry| RewardEntry { account: e.account, amount: share_down(x, e.amount as int, 0) };
    if d.len() > 0 {
        lemma_shares_to_zero(d.drop_last(), x);
        assert(d.map_values(f).drop_last() == d.drop_last().map_values(f));
    }
}

/// With nothing to share against, every share is zero.
proof fn lemma_shares_zero(ds: Seq<Bond>, x: int)
    ensures
        shares_sum(ds, x, 0) == 0,
    decreases ds.len(),
{
    if ds.len() > 0 {
        lemma_shares_zero(ds.drop_last(), x);
    }
}

/// The sum of the amounts of `s`.
pub open spec fn entries_sum(s: Seq<RewardEntry>) -> int
    decreases s.len(),
{
    if s.len() == 0 {
        0
    } else {
        entries_sum(s.drop_last()) + s.last().amount
    }
}

proof fn lemma_entries_sum_push(s: Seq<RewardEntry>, e: RewardEntry)
    ensures
        entries_sum(s.push(e)) == entries_sum(s) + e.amount,
{
    assert(s.push(e).drop_last() == s);
}

proof fn lemma_entries_sum_prefix_le(s: Seq<RewardEntry>, i: int)
    requires
        0 <= i <= s.len(),
    ensures
        entries_sum(s.take(i)) <= entries_sum(s),
    decreases s.len(),
{
    if i < s.len() {
        lemma_entries_sum_prefix_le(s.drop_last(), i);
        assert(s.drop_last().take(i) == s.take(i));
    } else {
        assert(s.take(i) == s);
    }
}

/// The amounts of `es`, added up.
pub open spec fn rewards_sum(es: Seq<RewardEntry>) -> int
    decreases es.len(),
{
    if es.len() == 0 {
        0
    } else {
        rewards_sum(es.drop_last()) + es.last().amount
    }
}

/// `f` of each bond of `ds`, added up.
pub open spec fn f_sum(ds: Seq<Bond>, f: spec_fn(Bond) -> u128) -> int
    decreases ds.len(),
{
    if ds.len() == 0 {
        0
    } else {
        f_sum(ds.drop_last(), f) + f(ds.last())
    }
}

/// Taking an entry out of a sequence takes its amount off the sum.
proof fn lemma_rewards_sum_remove(es: Seq<RewardEntry>, i: int)
    requires
        0 <= i < es.len(),
    ensures
        rewards_sum(es) == rewards_sum(es.remove(i)) + es[i].amount,
    decreases es.len(),
{
    if i < es.len() - 1 {
        lemma_rewards_sum_remove(es.drop_last(), i);
        assert(es.remove(i).drop_last() =~= es.drop_last().remove(i));
        assert(es.remove(i).last() == es.last());
    } else {
        assert(es.remove(i) =~= es.drop_last());
    }
}

/// A sorted sequence of entries each found in the reward map of `ds` adds up
/// to no more than the rewards of `ds` (a bond whose owner comes again later
/// is counted, but its entry was replaced).
proof fn lemma_rewards_sum_le(es: Seq<RewardEntry>, ds: Seq<Bond>, f: spec_fn(Bond) -> u128)
    requires
        strictly_sorted(es),
        forall|k: u64| #[trigger] key_map(es).contains_key(k) ==> rewards_map(ds, f).contains_key(k)
            && rewards_map(ds, f)[k] == key_map(es)[k],
    ensures
        rewards_sum(es) <= f_sum(ds, f),
    decreases ds.len(),
{
    if ds.len() == 0 {
        if es.len() > 0 {
            lemma_entry_of(es, 0);
            assert(false);
        }
    } else {
        let rest = ds.drop_last();
        let b = ds.last();
        let o = b.owner;
        if key_map(es).contains_key(o) {
            let i = choose|i: int| 0 <= i < es.len() && es[i].spec_key() == o;
            lemma_entry_of(es, i);
            lemma_key_map_remove(es, i);
            let es2 = es.remove(i);
            assert(strictly_sorted(es2)) by {
                assert forall|a: int, c: int| 0 <= a < c < es2.len() implies es2[a].spec_key() < es2[c].spec_key() by {
                    let a0 = if a < i { a } else { a + 1 };
                    let c0 = if c < i { c } else { c + 1 };
                    assert(es2[a] == es[a0] && es2[c] == es[c0]);
                }
            }
            assert forall|k: u64| #[trigger] key_map(es2).contains_key(k) implies rewards_map(rest, f).contains_key(k)
                && rewards_map(rest, f)[k] == key_map(es2)[k] by {
                assert(key_map(es).contains_key(k) && k != o);
            }
            lemma_rewards_sum_le(es2, rest, f);
            lemma_rewards_sum_remove(es, i);
            assert(es[i] == entry_for(b, f(b)));
        } else {
            assert forall|k: u64| #[trigger] key_map(es).contains_key(k) implies rewards_map(rest, f).contains_key(k)
                && rewards_map(rest, f)[k] == key_map(es)[k] by {
                assert(k != o);
            }
            lemma_rewards_sum_le(es, rest, f);
        }
    }
}

/// The shares of `ds` are `share_down` of each bond, added up.
proof fn lemma_f_sum_shares(ds: Seq<Bond>, x: int, total: int)
    ensures
        f_sum(ds, |b: Bond| share_down(x, b.amount as int, total)) == shares_sum(ds, x, total),
    decreases ds.len(),
{
    if ds.len() > 0 {
        lemma_f_sum_shares(ds.drop_last(), x, total);
    }
}

/// The owners rewarded by the reward map of `ds` are the owners of `ds`.
pub proof fn lemma_rewards_map_dom(ds: Seq<Bond>, f: spec_fn(Bond) -> u128, k: u64)
    ensures
        rewards_map(ds, f).contains_key(k) <==> exists|i: int| 0 <= i < ds.len() && ds[i].owner == k,
    decreases ds.len(),
{
    if ds.len() > 0 {
        lemma_rewards_map_dom(ds.drop_last(), f, k);
        if exists|i: int| 0 <= i < ds.drop_last().len() && ds.drop_last()[i].owner == k {
            let i = choose|i: int| 0 <= i < ds.drop_last().len() && ds.drop_last()[i].owner == k;
            assert(ds[i].owner == k);
        }
        if exists|i: int| 0 <= i < ds.len() && ds[i].owner == k {
            let i = choose|i: int| 0 <= i < ds.len() && ds[i].owner == k;
            if i < ds.len() - 1 {
                assert(ds.drop_last()[i].owner == k);
            }
        }
    }
}

/// A recorded split never hands out more than the reward: the collator's part
/// and the delegators' rewards as stored add up to at most `reward`, when the
/// snapshot's bond and delegations fit in its total and the commission is at
/// most a whole. The delegators rewarded are exactly the owners of the
/// snapshot's delegations.
pub proof fn law_recorded_split_within_reward(
    snap: CollatorSnapshot,
    commission_parts: int,
    reward: Balance,
    collator_reward: Balance,
    delegator_rewards: Seq<RewardEntry>,
    rewards_view: Map<u64, RewardEntry>,
)
    requires
        0 <= commission_parts <= billion(),
        delegations_fit(snap),
        strictly_sorted(delegator_rewards),
        rewards_view == key_map(delegator_rewards),
        if snap.delegations@.len() == 0 {
            collator_reward == reward && rewards_view == Map::<u64, RewardEntry>::empty()
        } else {
            let c = commission_of(reward as int, commission_parts);
            &&& collator_reward == collator_part(snap, commission_parts, reward as int)
            &&& rewards_view == rewards_map(snap.delegations@, |b: Bond| share_down(reward - c, b.amount as int, snap.total as int))
        },
    ensures
        collator_reward + rewards_sum(delegator_rewards) <= reward,
        forall|k: u64| rewards_view.contains_key(k) <==> exists|i: int| 0 <= i < snap.delegations@.len() && snap.delegations@[i].owner == k,
{
    let c = commission_of(reward as int, commission_parts);
    let x = reward - c;
    let f = |b: Bond| share_down(x, b.amount as int, snap.total as int);
    if snap.delegations@.len() == 0 {
        if delegator_rewards.len() > 0 {
            lemma_entry_of(delegator_rewards, 0);
            assert(false);
        }
        assert forall|k: u64| rewards_view.contains_key(k) <==> exists|i: int| 0 <= i < snap.delegations@.len() && snap.delegations@[i].owner == k by {}
    } else {
        lemma_rewards_sum_le(delegator_rewards, snap.delegations@, f);
        lemma_f_sum_shares(snap.delegations@, x, snap.total as int);
        law_split_within_reward(snap, commission_parts, reward);
        assert forall|k: u64| rewards_view.contains_key(k) <==> exists|i: int| 0 <= i < snap.delegations@.len() && snap.delegations@[i].owner == k by {
            lemma_rewards_map_dom(snap.delegations@, f, k);
        }
    }
}

/// The collator's part of a split is at least the commission, which is
/// itself between nothing and the whole reward.
pub proof fn law_collator_part_covers_commission(snap: CollatorSnapshot, commission_parts: int, reward: Balance)
    requires
        0 <= commission_parts <= billion(),
    ensures
        0 <= commission_of(reward as int, commission_parts) <= reward,
        collator_part(snap, commission_parts, reward as int) >= commission_of(reward as int, commission_parts),
{
    let r = reward as int;
    lemma_part_le(r, commission_parts);
    let c = commission_of(r, commission_parts);
    let x = r - c;
    let pb = spec_perbill_from_rational(snap.bond as int, snap.total as int);
    assert(pb >= 0) by {
        if !(snap.total == 0 || snap.bond > snap.total) {
            assert(billion() * (snap.bond as int) / (snap.total as int) >= 0) by (nonlinear_arith)
                requires
                    snap.bond >= 0,
                    snap.total > 0,
            ;
        }
    }
    assert(x * pb / billion() >= 0) by (nonlinear_arith)
        requires
            x >= 0,
            pb >= 0,
    ;
}

} // verus!
