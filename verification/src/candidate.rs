//! Collator candidates: their self bond, the delegations backing them (the
//! counted top and the uncounted bottom), pending self-bond changes and status.

use crate::bond::{
    asc_by_amount, desc_by_amount, lemma_owners_concat, lemma_owners_insert, lemma_owners_permutes, lemma_owners_push,
    lemma_owners_remove, lemma_owners_update, lemma_sum_insert, lemma_sum_nonneg, lemma_sum_permutes,
    lemma_sum_push, lemma_sum_remove, lemma_sum_update, lemma_owners_count, owners, permutes,
    sort_asc, sort_desc, sum_amounts, Bond,
};
use crate::ordered_set::{has_key, OrderedSet, SetKey};
use crate::staking_events::{Error, Event};
use crate::{AccountId, Balance, CurrencyId, RoundIndex};
use vstd::multiset::Multiset;
use vstd::prelude::*;
use vstd::std_specs::convert::FromSpecImpl;

verus! {

broadcast use vstd::seq_lib::group_to_multiset_ensures, vstd::multiset::group_multiset_axioms;

/// `a + b` on `u32`, saturating at the maximum.
pub open spec fn sat_add_u32(a: u32, b: u32) -> u32 {
    if a + b > u32::MAX {
        u32::MAX
    } else {
        (a + b) as u32
    }
}

/// The activity status of a collator candidate.
#[derive(Clone, Copy, Debug, PartialEq, Eq, Structural)]
pub enum CollatorStatus {
    /// Committed to be online and producing valid blocks.
    Active,
    /// Temporarily inactive and excused for inactivity.
    Idle,
    /// Bonded until the inner round.
    Leaving(RoundIndex),
}

impl CollatorStatus {
    /// The default status, `Active`.
    pub fn default() -> (r: CollatorStatus)
        ensures
            r == CollatorStatus::Active,
    {
        CollatorStatus::Active
    }
}

/// Changes that a collator candidate may request to its self bond.
#[derive(Clone, Copy, Debug, PartialEq, Eq, Structural)]
pub enum CandidateBondChange {
    Increase,
    Decrease,
}

/// A scheduled change of a candidate's self bond.
#[derive(Clone, Copy, Debug, PartialEq, Eq, Structural)]
pub struct CandidateBondRequest {
    pub amount: Balance,
    pub change: CandidateBondChange,
    pub when_executable: RoundIndex,
}

/// Where a new delegation went: into the counted top (with the new counted
/// total), or into the bottom.
#[derive(Clone, Copy, Debug, PartialEq, Eq, Structural)]
pub enum DelegatorAdded {
    AddedToTop { new_total: Balance },
    AddedToBottom,
}

/// Every top delegation is at least as large as every bottom delegation.
pub open spec fn separated(top: Seq<Bond>, bottom: Seq<Bond>) -> bool {
    forall|i: int, j: int|
        0 <= i < top.len() && 0 <= j < bottom.len() ==> top[i].amount >= bottom[j].amount
}

/// `t` holds the bonds of `s`, sorted from the greatest amount to the least.
pub open spec fn sorted_desc_of(s: Seq<Bond>, t: Seq<Bond>) -> bool {
    desc_by_amount(t) && permutes(s, t)
}

/// `t` holds the bonds of `s`, sorted from the least amount to the greatest.
pub open spec fn sorted_asc_of(s: Seq<Bond>, t: Seq<Bond>) -> bool {
    asc_by_amount(t) && permutes(s, t)
}

/// `t` is `s` with `b` inserted where it keeps amounts non-increasing.
pub open spec fn inserted_desc(s: Seq<Bond>, t: Seq<Bond>, b: Bond) -> bool {
    exists|i: int|
        0 <= i <= s.len() && t == s.insert(i, b) && (forall|j: int|
            0 <= j < i ==> s[j].amount >= b.amount) && (forall|j: int|
            i <= j < s.len() ==> s[j].amount <= b.amount)
}

/// `t` is `s` with `b` inserted where it keeps amounts non-decreasing.
pub open spec fn inserted_asc(s: Seq<Bond>, t: Seq<Bond>, b: Bond) -> bool {
    exists|i: int|
        0 <= i <= s.len() && t == s.insert(i, b) && (forall|j: int|
            0 <= j < i ==> s[j].amount <= b.amount) && (forall|j: int|
            i <= j < s.len() ==> s[j].amount >= b.amount)
}

/// The index of the bond of `d` in `s` (meaningful when there is one).
pub open spec fn index_of_owner(s: Seq<Bond>, d: AccountId) -> int {
    choose|i: int| 0 <= i < s.len() && s[i].owner == d
}

/// `b` with amount `amount`.
pub open spec fn with_amount(b: Bond, amount: int) -> Bond {
    Bond { amount: amount as u128, ..b }
}

/// Collator candidate state: self bond and delegations.
#[derive(Clone, Debug, PartialEq)]
pub struct CollatorCandidate {
    /// The account of this collator.
    pub id: AccountId,
    /// This collator's self stake.
    pub bond: Balance,
    /// The liquidity token the collator stakes.
    pub liquidity_token: CurrencyId,
    /// All delegator accounts.
    pub delegators: OrderedSet<AccountId>,
    /// Counted delegations, ordered greatest to least.
    pub top_delegations: Vec<Bond>,
    /// Uncounted delegations, ordered least to greatest.
    pub bottom_delegations: Vec<Bond>,
    /// Sum of the top delegations and the self bond.
    pub total_counted: Balance,
    /// Sum of all delegations and the self bond.
    pub total_backing: Balance,
    /// At most one pending request to change the self bond.
    pub request: Option<CandidateBondRequest>,
    /// Current status of the collator.
    pub state: CollatorStatus,
}

/// Snapshot of a collator's state at the start of a round it was selected for.
#[derive(Clone, Debug, PartialEq)]
pub struct CollatorSnapshot {
    pub bond: Balance,
    pub delegations: Vec<Bond>,
    pub total: Balance,
    pub liquidity_token: CurrencyId,
}

impl CollatorSnapshot {
    /// An empty snapshot: no bond, no delegations, token zero.
    pub fn default() -> (r: CollatorSnapshot)
        ensures
            r.bond == 0,
            r.delegations@.len() == 0,
            r.total == 0,
            r.liquidity_token == 0,
    {
        CollatorSnapshot { bond: 0, delegations: Vec::new(), total: 0, liquidity_token: 0 }
    }
}

impl From<CollatorCandidate> for CollatorSnapshot {
    fn from(other: CollatorCandidate) -> (r: CollatorSnapshot) {
        CollatorSnapshot {
            bond: other.bond,
            delegations: other.top_delegations,
            total: other.total_counted,
            liquidity_token: other.liquidity_token,
        }
    }
}

impl FromSpecImpl<CollatorCandidate> for CollatorSnapshot {
    open spec fn obeys_from_spec() -> bool {
        true
    }

    open spec fn from_spec(other: CollatorCandidate) -> CollatorSnapshot {
        CollatorSnapshot {
            bond: other.bond,
            delegations: other.top_delegations,
            total: other.total_counted,
            liquidity_token: other.liquidity_token,
        }
    }
}

/// The index of the bond of `d` in `v`, if any.
fn find_owner(v: &Vec<Bond>, d: AccountId) -> (r: Option<usize>)
    ensures
        match r {
            Some(i) => i < v@.len() && v@[i as int].owner == d,
            None => forall|i: int| 0 <= i < v@.len() ==> v@[i].owner != d,
        },
{
    let mut i: usize = 0;
    while i < v.len()
        invariant
            i <= v@.len(),
            forall|j: int| 0 <= j < i ==> v@[j].owner != d,
        decreases v@.len() - i,
    {
        if v[i].owner == d {
            return Some(i);
        }
        i = i + 1;
    }
    None
}

/// Inserting into a non-increasing sequence where the amounts allow it keeps
/// it non-increasing, and is a reordering of appending.
pub proof fn lemma_inserted_desc(s: Seq<Bond>, t: Seq<Bond>, b: Bond)
    requires
        desc_by_amount(s),
        inserted_desc(s, t, b),
    ensures
        sorted_desc_of(s.push(b), t),
{
    let i = choose|i: int|
        0 <= i <= s.len() && t == s.insert(i, b) && (forall|j: int|
            0 <= j < i ==> s[j].amount >= b.amount) && (forall|j: int|
            i <= j < s.len() ==> s[j].amount <= b.amount);
    assert forall|a: int, c: int| 0 <= a < c < t.len() implies t[a].amount >= t[c].amount by {
        if c < i {
        } else if a < i && c == i {
        } else if a < i {
            assert(t[c] == s[c - 1]);
        } else if a == i {
            assert(t[c] == s[c - 1]);
        } else {
            assert(t[a] == s[a - 1]);
            assert(t[c] == s[c - 1]);
        }
    }
    assert(s.push(b).to_multiset() =~= t.to_multiset());
}

/// Inserting into a non-decreasing sequence where the amounts allow it keeps
/// it non-decreasing, and is a reordering of appending.
pub proof fn lemma_inserted_asc(s: Seq<Bond>, t: Seq<Bond>, b: Bond)
    requires
        asc_by_amount(s),
        inserted_asc(s, t, b),
    ensures
        sorted_asc_of(s.push(b), t),
{
    let i = choose|i: int|
        0 <= i <= s.len() && t == s.insert(i, b) && (forall|j: int|
            0 <= j < i ==> s[j].amount <= b.amount) && (forall|j: int|
            i <= j < s.len() ==> s[j].amount >= b.amount);
    assert forall|a: int, c: int| 0 <= a < c < t.len() implies t[a].amount <= t[c].amount by {
        if c < i {
        } else if a < i && c == i {
        } else if a < i {
            assert(t[c] == s[c - 1]);
        } else if a == i {
            assert(t[c] == s[c - 1]);
        } else {
            assert(t[a] == s[a - 1]);
            assert(t[c] == s[c - 1]);
        }
    }
    assert(s.push(b).to_multiset() =~= t.to_multiset());
}

/// A reordering keeps the amounts that occur: every bond of `t` comes from `s`.
pub proof fn lemma_permutes_member(s: Seq<Bond>, t: Seq<Bond>, j: int)
    requires
        permutes(s, t),
        0 <= j < t.len(),
    ensures
        exists|i: int| 0 <= i < s.len() && s[i] == t[j],
{
    assert(t.contains(t[j]));
    assert(t.to_multiset().count(t[j]) > 0);
    assert(s.to_multiset().count(t[j]) > 0);
    assert(s.contains(t[j]));
}

/// Sums and owners of a reordering, and of a sequence after an element moved in or out.
pub proof fn lemma_permutes_facts(s: Seq<Bond>, t: Seq<Bond>)
    requires
        permutes(s, t),
    ensures
        sum_amounts(s) == sum_amounts(t),
        owners(s) == owners(t),
        s.len() == t.len(),
{
    lemma_sum_permutes(s, t);
    lemma_owners_permutes(s, t);
    vstd::seq_lib::to_multiset_len(s);
    vstd::seq_lib::to_multiset_len(t);
}

/// Reordering both sides keeps every top amount above every bottom amount.
pub proof fn lemma_separated_permutes(a: Seq<Bond>, b: Seq<Bond>, a2: Seq<Bond>, b2: Seq<Bond>)
    requires
        separated(a, b),
        permutes(a, a2),
        permutes(b, b2),
    ensures
        separated(a2, b2),
{
    assert forall|i: int, j: int| 0 <= i < a2.len() && 0 <= j < b2.len() implies a2[i].amount
        >= b2[j].amount by {
        lemma_permutes_member(a, a2, i);
        lemma_permutes_member(b, b2, j);
    }
}

/// A reordering of a sequence whose amounts are all at least (at most) `x`
/// has the same property.
pub proof fn lemma_bound_permutes(s: Seq<Bond>, t: Seq<Bond>, x: int)
    requires
        permutes(s, t),
    ensures
        (forall|i: int| 0 <= i < s.len() ==> s[i].amount >= x) ==> (forall|i: int|
            0 <= i < t.len() ==> t[i].amount >= x),
        (forall|i: int| 0 <= i < s.len() ==> s[i].amount <= x) ==> (forall|i: int|
            0 <= i < t.len() ==> t[i].amount <= x),
{
    assert forall|i: int| #![trigger t[i]] 0 <= i < t.len() implies exists|k: int|
        0 <= k < s.len() && #[trigger] s[k] == t[i] by {
        lemma_permutes_member(s, t, i);
    }
}

/// `s` is its prefix without the last bond, followed by that bond.
pub proof fn lemma_drop_last_push(s: Seq<Bond>)
    requires
        s.len() > 0,
    ensures
        s.drop_last().push(s.last()) == s,
        sum_amounts(s) == sum_amounts(s.drop_last()) + s.last().amount,
        owners(s) == owners(s.drop_last()).insert(s.last().owner),
{
    assert(s.drop_last().push(s.last()) =~= s);
    lemma_sum_push(s.drop_last(), s.last());
    lemma_owners_push(s.drop_last(), s.last());
}

/// Keys after inserting `a` into a sequence of accounts.
pub proof fn lemma_has_key_insert(s: Seq<AccountId>, t: Seq<AccountId>, a: AccountId)
    requires
        exists|i: int| 0 <= i <= s.len() && t == s.insert(i, a),
    ensures
        forall|k: AccountId| has_key(t, k) <==> has_key(s, k) || k == a,
{
    let i = choose|i: int| 0 <= i <= s.len() && t == s.insert(i, a);
    assert forall|k: AccountId| has_key(t, k) <==> has_key(s, k) || k == a by {
        if has_key(t, k) {
            let j = choose|j: int| 0 <= j < t.len() && t[j].spec_key() == k;
            if j < i {
                assert(s[j] == t[j]);
            } else if j > i {
                assert(s[j - 1] == t[j]);
            }
        }
        if has_key(s, k) {
            let j = choose|j: int| 0 <= j < s.len() && s[j].spec_key() == k;
            if j < i {
                assert(t[j] == s[j]);
            } else {
                assert(t[j + 1] == s[j]);
            }
        }
        if k == a {
            assert(t[i] == a);
        }
    }
}

/// Keys after removing the element at `i` from a sequence of accounts
/// whose keys are distinct.
pub proof fn lemma_has_key_remove(s: Seq<AccountId>, i: int)
    requires
        crate::ordered_set::strictly_sorted(s),
        0 <= i < s.len(),
    ensures
        forall|k: AccountId| has_key(s.remove(i), k) <==> has_key(s, k) && k != s[i],
{
    let t = s.remove(i);
    assert forall|k: AccountId| has_key(t, k) <==> has_key(s, k) && k != s[i] by {
        if has_key(t, k) {
            let j = choose|j: int| 0 <= j < t.len() && t[j].spec_key() == k;
            if j < i {
                assert(s[j] == t[j]);
            } else {
                assert(s[j + 1] == t[j]);
            }
        }
        if has_key(s, k) && k != s[i] {
            let j = choose|j: int| 0 <= j < s.len() && s[j].spec_key() == k;
            if j < i {
                assert(t[j] == s[j]);
            } else {
                assert(j != i);
                assert(t[j - 1] == s[j]);
            }
        }
    }
}

/// With no owner occurring twice, the bond of an owner sits at one index.
pub proof fn lemma_unique_owner(s: Seq<Bond>, i: int, j: int)
    requires
        owners(s).count(s[i].owner) <= 1,
        0 <= i < s.len(),
        0 <= j < s.len(),
        s[i].owner == s[j].owner,
    ensures
        i == j,
{
    if i != j {
        lemma_owners_remove(s, i);
        let t = s.remove(i);
        let k = if j < i { j } else { j - 1 };
        assert(t[k] == s[j]);
        lemma_owners_count(t, s[i].owner);
        assert(owners(t).count(s[i].owner) > 0);
        assert(owners(s).count(s[i].owner) == owners(t).count(s[i].owner) + 1);
    }
}

/// The delegations of a candidate, counted first, have distinct owners.
pub proof fn lemma_owners_distinct(c: CollatorCandidate)
    requires
        c.inv(),
    ensures
        forall|i: int, j: int|
            0 <= i < j < (c.top_delegations@ + c.bottom_delegations@).len() ==> (c.top_delegations@
                + c.bottom_delegations@)[i].owner != (c.top_delegations@ + c.bottom_delegations@)[j].owner,
{
    let all = c.top_delegations@ + c.bottom_delegations@;
    lemma_owners_concat(c.top_delegations@, c.bottom_delegations@);
    assert forall|i: int, j: int| 0 <= i < j < all.len() implies all[i].owner != all[j].owner by {
        if all[i].owner == all[j].owner {
            assert(owners(all).count(all[i].owner) <= 1);
            lemma_unique_owner(all, i, j);
        }
    }
}

/// Removing an element keeps a sequence ordered.
pub proof fn lemma_remove_sorted(s: Seq<Bond>, i: int)
    requires
        0 <= i < s.len(),
    ensures
        desc_by_amount(s) ==> desc_by_amount(s.remove(i)),
        asc_by_amount(s) ==> asc_by_amount(s.remove(i)),
{
    let t = s.remove(i);
    assert forall|a: int| 0 <= a < t.len() implies #[trigger] t[a] == (if a < i {
        s[a]
    } else {
        s[a + 1]
    }) by {}
}

/// The owner clauses of the candidate invariant, from the multiset of owners
/// and the set of delegator keys.
pub proof fn lemma_owner_clauses(
    delegators: Seq<AccountId>,
    total: Multiset<AccountId>,
    old_delegators: Seq<AccountId>,
    old_total: Multiset<AccountId>,
    added: Option<AccountId>,
    removed: Option<AccountId>,
)
    requires
        forall|k: AccountId| #[trigger] old_total.count(k) <= 1,
        forall|k: AccountId| has_key(old_delegators, k) <==> #[trigger] old_total.count(k) > 0,
        match (added, removed) {
            (None, None) => total == old_total && (forall|k: AccountId|
                has_key(delegators, k) <==> has_key(old_delegators, k)),
            (Some(a), None) => !has_key(old_delegators, a) && total == old_total.insert(a) && (
            forall|k: AccountId| has_key(delegators, k) <==> has_key(old_delegators, k) || k == a),
            (None, Some(d)) => old_total.count(d) > 0 && total == old_total.remove(d) && (forall|
                k: AccountId,
            | has_key(delegators, k) <==> has_key(old_delegators, k) && k != d),
            (Some(_), Some(_)) => false,
        },
    ensures
        forall|k: AccountId| #[trigger] total.count(k) <= 1,
        forall|k: AccountId| has_key(delegators, k) <==> #[trigger] total.count(k) > 0,
{
    assert forall|k: AccountId| #[trigger] total.count(k) <= 1 by {
        assert(old_total.count(k) <= 1);
    }
    assert forall|k: AccountId| has_key(delegators, k) <==> #[trigger] total.count(k) > 0 by {
        assert(has_key(old_delegators, k) <==> old_total.count(k) > 0);
    }
}

/// Decreasing a delegation counted in the bottom leaves the top and the
/// counted total as they were, takes the amount off the backing, reports that
/// the delegation is not in the top, and leaves the delegator with the rest.
pub proof fn law_decrease_in_bottom_keeps_top(c: CollatorCandidate, i: int, less: Balance, r: Result<bool, Error>, t: CollatorCandidate)
    requires
        c.inv(),
        0 <= i < c.bottom_delegations@.len(),
        less <= c.bottom_delegations@[i].amount,
        decreased_delegation(c, c.bottom_delegations@[i].owner, less, r, t),
    ensures
        r == Ok::<bool, Error>(false),
        t.top_delegations@ == c.top_delegations@,
        t.total_counted == c.total_counted,
        t.total_backing == c.total_backing - less,
        sorted_asc_of(
            c.bottom_delegations@.update(i, with_amount(c.bottom_delegations@[i], c.bottom_delegations@[i].amount - less)),
            t.bottom_delegations@,
        ),
{
    let top = c.top_delegations@;
    let bottom = c.bottom_delegations@;
    let d = bottom[i].owner;
    let all = top + bottom;
    lemma_owners_distinct(c);
    lemma_owners_count(top, d);
    if owners(top).count(d) > 0 {
        let j = choose|j: int| 0 <= j < top.len() && top[j].owner == d;
        assert(all[j].owner == all[top.len() + i].owner);
        assert(false);
    }
    lemma_owners_count(bottom, d);
    assert(bottom[i].owner == d);
    let k = index_of_owner(bottom, d);
    assert(all[top.len() + k].owner == all[top.len() + i].owner);
    assert(k == i);
}

/// A new delegation is reported as added to the top exactly when its owner
/// ends up among the top delegations, the backing grows by its amount, and the
/// top delegations stay within their limit.
pub proof fn law_added_to_top_iff_in_top(
    s: CollatorCandidate,
    acc: AccountId,
    amount: Balance,
    max_top: u32,
    r: Result<DelegatorAdded, Error>,
    t: CollatorCandidate,
)
    requires
        s.inv(),
        !has_key(s.delegators@, acc),
        s.total_backing + amount <= u128::MAX,
        added_delegation(s, acc, amount, max_top, r, t),
    ensures
        r is Ok,
        (r matches Ok(DelegatorAdded::AddedToTop { new_total }) && new_total == t.total_counted)
            <==> owners(t.top_delegations@).count(acc) > 0,
        t.total_backing == s.total_backing + amount,
        0 < max_top && s.top_delegations@.len() <= max_top ==> t.top_delegations@.len() <= max_top,
{
    let top = s.top_delegations@;
    let bottom = s.bottom_delegations@;
    let nb = Bond { owner: acc, amount, liquidity_token: s.liquidity_token };
    if top.len() < max_top {
        lemma_permutes_facts(top.push(nb), t.top_delegations@);
        lemma_owners_push(top, nb);
    } else if amount > top.last().amount {
        lemma_permutes_facts(top.drop_last().push(nb), t.top_delegations@);
        lemma_owners_push(top.drop_last(), nb);
    } else {
        assert(owners(top).add(owners(bottom)).count(acc) == 0);
    }
}

/// A bond of `s` is found again in any reordering of `s`.
proof fn lemma_permutes_keeps(s: Seq<Bond>, t: Seq<Bond>, i: int)
    requires
        permutes(s, t),
        0 <= i < s.len(),
    ensures
        exists|j: int| 0 <= j < t.len() && t[j] == s[i],
{
    lemma_permutes_member(t, s, i);
}

/// In a candidate whose delegations have distinct owners, the delegation of
/// the owner of a top (or bottom) bond is that bond.
proof fn lemma_delegation_of_at(c: CollatorCandidate, j: int, in_top: bool)
    requires
        c.inv(),
        in_top ==> 0 <= j < c.top_delegations@.len(),
        !in_top ==> 0 <= j < c.bottom_delegations@.len(),
    ensures
        in_top ==> delegation_of(c, c.top_delegations@[j].owner) == Some(c.top_delegations@[j].amount)
            && owners(c.top_delegations@).count(c.top_delegations@[j].owner) > 0,
        !in_top ==> delegation_of(c, c.bottom_delegations@[j].owner) == Some(c.bottom_delegations@[j].amount)
            && owners(c.top_delegations@).count(c.bottom_delegations@[j].owner) == 0,
{
    let top = c.top_delegations@;
    let bottom = c.bottom_delegations@;
    let all = top + bottom;
    lemma_owners_distinct(c);
    if in_top {
        let d = top[j].owner;
        lemma_owners_count(top, d);
        let k = index_of_owner(top, d);
        assert(all[k].owner == all[j].owner);
    } else {
        let d = bottom[j].owner;
        lemma_owners_count(top, d);
        if owners(top).count(d) > 0 {
            let k = choose|k: int| 0 <= k < top.len() && top[k].owner == d;
            assert(all[k].owner == all[top.len() + j].owner);
        }
        lemma_owners_count(bottom, d);
        let k = index_of_owner(bottom, d);
        assert(all[top.len() + k].owner == all[top.len() + j].owner);
    }
}

/// Decreasing a delegation by at most its amount succeeds: the delegator's
/// delegation becomes its amount less `less`, the result says whether it is
/// now among the top delegations, the owners of the delegations and the
/// delegators stay the same, and the backing falls by `less`.
pub proof fn law_decrease_delegation(c: CollatorCandidate, d: AccountId, less: Balance, r: Result<bool, Error>, t: CollatorCandidate)
    requires
        c.inv(),
        t.inv(),
        delegation_of(c, d) matches Some(a) && less <= a,
        decreased_delegation(c, d, less, r, t),
    ensures
        r == Ok::<bool, Error>(owners(t.top_delegations@).count(d) > 0),
        delegation_of(t, d) == Some((delegation_of(c, d)->0 - less) as u128),
        owners(t.top_delegations@).add(owners(t.bottom_delegations@)) == owners(c.top_delegations@).add(owners(c.bottom_delegations@)),
        t.delegators == c.delegators,
        t.total_backing == c.total_backing - less,
{
    let top = c.top_delegations@;
    let bottom = c.bottom_delegations@;
    let t_top = t.top_delegations@;
    let t_bottom = t.bottom_delegations@;
    let all = top + bottom;
    lemma_owners_distinct(c);
    lemma_owners_count(top, d);
    lemma_owners_count(bottom, d);
    if owners(top).count(d) > 0 {
        let i = index_of_owner(top, d);
        let a = top[i].amount;
        let nb = with_amount(top[i], a - less);
        lemma_delegation_of_at(c, i, true);
        if bottom.len() > 0 && bottom.last().amount > a - less {
            let bl = bottom.last();
            let n_top = top.remove(i).push(bl);
            let n_bottom = bottom.drop_last().push(nb);
            lemma_permutes_facts(n_top, t_top);
            lemma_permutes_facts(n_bottom, t_bottom);
            lemma_owners_push(top.remove(i), bl);
            lemma_owners_push(bottom.drop_last(), nb);
            lemma_owners_push(bottom.drop_last(), bl);
            assert(bottom.drop_last().push(bl) == bottom);
            lemma_owners_remove(top, i);
            if bl.owner == d {
                assert(all[i].owner == all[top.len() + bottom.len() - 1].owner);
            }
            assert(owners(t_top).add(owners(t_bottom)) =~= owners(top).add(owners(bottom)));
            assert(owners(top).add(owners(bottom)).count(d) <= 1);
            assert(owners(t_top).count(d) == 0);
            assert(n_bottom[n_bottom.len() - 1] == nb);
            lemma_permutes_keeps(n_bottom, t_bottom, n_bottom.len() - 1);
            let j = choose|j: int| 0 <= j < t_bottom.len() && t_bottom[j] == nb;
            lemma_delegation_of_at(t, j, false);
        } else {
            let n_top = top.update(i, nb);
            lemma_permutes_facts(n_top, t_top);
            lemma_owners_update(top, i, nb);
            assert(owners(t_top).add(owners(t_bottom)) =~= owners(top).add(owners(bottom)));
            lemma_permutes_keeps(n_top, t_top, i);
            let j = choose|j: int| 0 <= j < t_top.len() && t_top[j] == nb;
            lemma_delegation_of_at(t, j, true);
        }
    } else {
        let i = index_of_owner(bottom, d);
        let a = bottom[i].amount;
        let nb = with_amount(bottom[i], a - less);
        lemma_delegation_of_at(c, i, false);
        let n_bottom = bottom.update(i, nb);
        lemma_permutes_facts(n_bottom, t_bottom);
        lemma_owners_update(bottom, i, nb);
        assert(owners(t_top).add(owners(t_bottom)) =~= owners(top).add(owners(bottom)));
        lemma_permutes_keeps(n_bottom, t_bottom, i);
        let j = choose|j: int| 0 <= j < t_bottom.len() && t_bottom[j] == nb;
        lemma_delegation_of_at(t, j, false);
    }
}

/// The relation between a candidate `s` before and `t` after `add_delegation`,
/// which returned `r`.
pub open spec fn added_delegation(s: CollatorCandidate, acc: AccountId, amount: Balance, max_top: u32, r: Result<DelegatorAdded, Error>, t: CollatorCandidate) -> bool {
    &&& (has_key(s.delegators@, acc) ==> r == Err::<DelegatorAdded, Error>(
                Error::DelegatorExists,
            ) && t == s)
    &&& (!has_key(s.delegators@, acc) && s.total_backing + amount > u128::MAX
                ==> r == Err::<DelegatorAdded, Error>(Error::MathError) && t == s)
    &&& (!has_key(s.delegators@, acc) && s.total_backing + amount
                <= u128::MAX ==> ({
                let top = s.top_delegations@;
                let bottom = s.bottom_delegations@;
                let nb = Bond { owner: acc, amount, liquidity_token: s.liquidity_token };
                &&& t.id == s.id
                &&& t.bond == s.bond
                &&& t.liquidity_token == s.liquidity_token
                &&& t.request == s.request
                &&& t.state == s.state
                &&& exists|i: int|
                    0 <= i <= s.delegators@.len() && t.delegators@ == s.delegators@.insert(i, acc)
                &&& t.total_backing == s.total_backing + amount
                &&& if top.len() < max_top {
                    &&& sorted_desc_of(top.push(nb), t.top_delegations@)
                    &&& t.bottom_delegations@ == bottom
                    &&& t.total_counted == s.total_counted + amount
                    &&& r == Ok::<DelegatorAdded, Error>(
                        DelegatorAdded::AddedToTop { new_total: t.total_counted },
                    )
                } else if amount > top.last().amount {
                    &&& sorted_desc_of(top.drop_last().push(nb), t.top_delegations@)
                    &&& sorted_asc_of(bottom.push(top.last()), t.bottom_delegations@)
                    &&& t.total_counted == s.total_counted + amount
                        - top.last().amount
                    &&& r == Ok::<DelegatorAdded, Error>(
                        DelegatorAdded::AddedToTop { new_total: t.total_counted },
                    )
                } else {
                    &&& t.top_delegations@ == top
                    &&& sorted_asc_of(bottom.push(nb), t.bottom_delegations@)
                    &&& t.total_counted == s.total_counted
                    &&& r == Ok::<DelegatorAdded, Error>(DelegatorAdded::AddedToBottom)
                }
            }))
}

/// The relation between a candidate `s` before and `t` after `rm_delegator`,
/// which returned `r`.
pub open spec fn removed_delegator(s: CollatorCandidate, delegator: AccountId, r: Result<(bool, Balance), Error>, t: CollatorCandidate) -> bool {
    &&& (!has_key(s.delegators@, delegator) ==> r == Err::<(bool, Balance), Error>(
                Error::DelegatorDNEInDelegatorSet,
            ) && t == s)
    &&& (has_key(s.delegators@, delegator) ==> ({
                let top = s.top_delegations@;
                let bottom = s.bottom_delegations@;
                &&& t.id == s.id
                &&& t.bond == s.bond
                &&& t.liquidity_token == s.liquidity_token
                &&& t.request == s.request
                &&& t.state == s.state
                &&& exists|i: int|
                    0 <= i < s.delegators@.len() && s.delegators@[i] == delegator
                        && t.delegators@ == s.delegators@.remove(i)
                &&& if owners(top).count(delegator) > 0 {
                    let i = index_of_owner(top, delegator);
                    let a = top[i].amount;
                    &&& r == Ok::<(bool, Balance), Error>((true, a))
                    &&& t.total_backing == s.total_backing - a
                    &&& if bottom.len() > 0 {
                        &&& sorted_desc_of(
                            top.remove(i).push(bottom.last()),
                            t.top_delegations@,
                        )
                        &&& t.bottom_delegations@ == bottom.drop_last()
                        &&& t.total_counted == s.total_counted - a
                            + bottom.last().amount
                    } else {
                        &&& t.top_delegations@ == top.remove(i)
                        &&& t.bottom_delegations@ == bottom
                        &&& t.total_counted == s.total_counted - a
                    }
                } else {
                    let i = index_of_owner(bottom, delegator);
                    let a = bottom[i].amount;
                    &&& r == Ok::<(bool, Balance), Error>((false, a))
                    &&& t.top_delegations@ == top
                    &&& t.bottom_delegations@ == bottom.remove(i)
                    &&& t.total_counted == s.total_counted
                    &&& t.total_backing == s.total_backing - a
                }
            }))
}

/// The relation between a candidate `s` before and `t` after `increase_delegation`,
/// which returned `r`.
pub open spec fn increased_delegation(s: CollatorCandidate, delegator: AccountId, more: Balance, r: Result<bool, Error>, t: CollatorCandidate) -> bool {
    &&& (s.total_backing + more > u128::MAX ==> r == Err::<bool, Error>(
                Error::MathError,
            ) && t == s)
    &&& (s.total_backing + more <= u128::MAX ==> ({
                let top = s.top_delegations@;
                let bottom = s.bottom_delegations@;
                &&& t.id == s.id
                &&& t.bond == s.bond
                &&& t.liquidity_token == s.liquidity_token
                &&& t.request == s.request
                &&& t.state == s.state
                &&& t.delegators == s.delegators
                &&& t.total_backing == s.total_backing + more
                &&& if owners(top).count(delegator) > 0 {
                    let i = index_of_owner(top, delegator);
                    &&& sorted_desc_of(
                        top.update(i, with_amount(top[i], top[i].amount + more)),
                        t.top_delegations@,
                    )
                    &&& t.bottom_delegations@ == bottom
                    &&& t.total_counted == s.total_counted + more
                    &&& r == Ok::<bool, Error>(true)
                } else {
                    let i = index_of_owner(bottom, delegator);
                    let nb = with_amount(bottom[i], bottom[i].amount + more);
                    if nb.amount > top.last().amount {
                        &&& sorted_desc_of(top.drop_last().push(nb), t.top_delegations@)
                        &&& sorted_asc_of(
                            bottom.remove(i).push(top.last()),
                            t.bottom_delegations@,
                        )
                        &&& t.total_counted == s.total_counted + nb.amount
                            - top.last().amount
                        &&& r == Ok::<bool, Error>(true)
                    } else {
                        &&& t.top_delegations@ == top
                        &&& sorted_asc_of(bottom.update(i, nb), t.bottom_delegations@)
                        &&& t.total_counted == s.total_counted
                        &&& r == Ok::<bool, Error>(false)
                    }
                }
            }))
}

/// The relation between a candidate `s` before and `t` after `decrease_delegation`,
/// which returned `r`.
pub open spec fn decreased_delegation(s: CollatorCandidate, delegator: AccountId, less: Balance, r: Result<bool, Error>, t: CollatorCandidate) -> bool {
    &&& (({
                let top = s.top_delegations@;
                let bottom = s.bottom_delegations@;
                if owners(top).count(delegator) > 0 {
                    let i = index_of_owner(top, delegator);
                    let a = top[i].amount;
                    let nb = with_amount(top[i], a - less);
                    if less > a {
                        r == Err::<bool, Error>(Error::MathError) && t == s
                    } else if bottom.len() > 0 && bottom.last().amount > a - less {
                        &&& sorted_desc_of(
                            top.remove(i).push(bottom.last()),
                            t.top_delegations@,
                        )
                        &&& sorted_asc_of(bottom.drop_last().push(nb), t.bottom_delegations@)
                        &&& t.total_counted == s.total_counted - a
                            + bottom.last().amount
                        &&& t.total_backing == s.total_backing - less
                        &&& r == Ok::<bool, Error>(false)
                    } else {
                        &&& sorted_desc_of(top.update(i, nb), t.top_delegations@)
                        &&& t.bottom_delegations@ == bottom
                        &&& t.total_counted == s.total_counted - less
                        &&& t.total_backing == s.total_backing - less
                        &&& r == Ok::<bool, Error>(true)
                    }
                } else if owners(bottom).count(delegator) > 0 {
                    let i = index_of_owner(bottom, delegator);
                    let a = bottom[i].amount;
                    if less > a {
                        r == Err::<bool, Error>(Error::MathError) && t == s
                    } else {
                        &&& t.top_delegations@ == top
                        &&& sorted_asc_of(
                            bottom.update(i, with_amount(bottom[i], a - less)),
                            t.bottom_delegations@,
                        )
                        &&& t.total_counted == s.total_counted
                        &&& t.total_backing == s.total_backing - less
                        &&& r == Ok::<bool, Error>(false)
                    }
                } else {
                    &&& t.top_delegations@ == top
                    &&& sorted_asc_of(bottom, t.bottom_delegations@)
                    &&& t.total_counted == s.total_counted
                    &&& t.total_backing == s.total_backing
                    &&& r == Ok::<bool, Error>(false)
                }
            }))
    &&& (t.id == s.id)
    &&& (t.bond == s.bond)
    &&& (t.liquidity_token == s.liquidity_token)
    &&& (t.request == s.request)
    &&& (t.state == s.state)
    &&& (t.delegators == s.delegators)
}

/// The amount `d` delegates to `c`, counted or not, if any.
pub open spec fn delegation_of(c: CollatorCandidate, d: AccountId) -> Option<Balance> {
    let top = c.top_delegations@;
    let bottom = c.bottom_delegations@;
    if owners(top).count(d) > 0 {
        Some(top[index_of_owner(top, d)].amount)
    } else if owners(bottom).count(d) > 0 {
        Some(bottom[index_of_owner(bottom, d)].amount)
    } else {
        None
    }
}

impl CollatorCandidate {
    /// The invariant of a candidate that does not depend on the top size limit.
    pub open spec fn inv(&self) -> bool {
        let top = self.top_delegations@;
        let bottom = self.bottom_delegations@;
        &&& self.delegators.wf()
        &&& desc_by_amount(top)
        &&& asc_by_amount(bottom)
        &&& separated(top, bottom)
        &&& bottom.len() > 0 ==> top.len() > 0
        &&& self.total_counted == self.bond + sum_amounts(top)
        &&& self.total_backing == self.total_counted + sum_amounts(bottom)
        &&& forall|k: AccountId| #[trigger] owners(top).add(owners(bottom)).count(k) <= 1
        &&& forall|k: AccountId|
            has_key(self.delegators@, k) <==> #[trigger] owners(top).add(owners(bottom)).count(k)
                > 0
    }

    /// The invariant, with at least `max_top` counted delegations whenever
    /// some delegation is left uncounted.
    pub open spec fn wf(&self, max_top: u32) -> bool {
        &&& self.inv()
        &&& self.bottom_delegations@.len() > 0 ==> self.top_delegations@.len() >= max_top
    }

    /// A new candidate with self bond `bond` and no delegations.
    pub fn new(id: AccountId, bond: Balance, liquidity_token: CurrencyId) -> (r: Self)
        ensures
            r.id == id,
            r.bond == bond,
            r.liquidity_token == liquidity_token,
            r.delegators@.len() == 0,
            r.top_delegations@.len() == 0,
            r.bottom_delegations@.len() == 0,
            r.total_counted == bond,
            r.total_backing == bond,
            r.request is None,
            r.state == CollatorStatus::Active,
            forall|m: u32| r.wf(m),
    {
        let r = CollatorCandidate {
            id,
            bond,
            liquidity_token,
            delegators: OrderedSet::new(),
            top_delegations: Vec::new(),
            bottom_delegations: Vec::new(),
            total_counted: bond,
            total_backing: bond,
            request: None,
            state: CollatorStatus::default(),
        };
        proof {
            assert(owners(r.top_delegations@) =~= Multiset::<AccountId>::empty());
            assert(owners(r.bottom_delegations@) =~= Multiset::<AccountId>::empty());
        }
        r
    }

    /// Whether the status is `Active`.
    pub fn is_active(&self) -> (r: bool)
        ensures
            r == (self.state == CollatorStatus::Active),
    {
        self.state == CollatorStatus::Active
    }

    /// Whether the status is `Leaving`.
    pub fn is_leaving(&self) -> (r: bool)
        ensures
            r == (self.state is Leaving),
    {
        match self.state {
            CollatorStatus::Leaving(_) => true,
            _ => false,
        }
    }

    /// Whether the candidate may leave in round `now`.
    pub open spec fn can_leave_spec(&self, now: RoundIndex) -> Result<(), Error> {
        match self.state {
            CollatorStatus::Leaving(when) => if now >= when {
                Ok(())
            } else {
                Err(Error::CandidateCannotLeaveYet)
            },
            _ => Err(Error::CandidateNotLeaving),
        }
    }

    /// Whether the candidate may leave in round `now`: it must be leaving, and
    /// `now` must have reached the round it leaves at.
    pub fn can_leave(&self, now: RoundIndex) -> (r: Result<(), Error>)
        ensures
            r == self.can_leave_spec(now),
            r == (match self.state {
                CollatorStatus::Leaving(when) => if now >= when {
                    Ok(())
                } else {
                    Err(Error::CandidateCannotLeaveYet)
                },
                _ => Err(Error::CandidateNotLeaving),
            }),
    {
        if let CollatorStatus::Leaving(when) = self.state {
            if now >= when {
                Ok(())
            } else {
                Err(Error::CandidateCannotLeaveYet)
            }
        } else {
            Err(Error::CandidateNotLeaving)
        }
    }

    /// Schedules an increase of the self bond by `more`, executable `delay`
    /// rounds after `now`. `can_bond` is whether the account can bond `more`.
    pub fn schedule_bond_more(&mut self, more: Balance, now: RoundIndex, delay: RoundIndex, can_bond: bool) -> (r: Result<RoundIndex, Error>)
        ensures
            old(self).request is Some ==> r == Err::<RoundIndex, Error>(
                Error::PendingCandidateRequestAlreadyExists,
            ) && *final(self) == *old(self),
            old(self).request is None && !can_bond ==> r == Err::<RoundIndex, Error>(
                Error::InsufficientBalance,
            ) && *final(self) == *old(self),
            old(self).request is None && can_bond ==> r == Ok::<RoundIndex, Error>(
                sat_add_u32(now, delay),
            ) && *final(self) == (CollatorCandidate {
                request: Some(
                    CandidateBondRequest {
                        change: CandidateBondChange::Increase,
                        amount: more,
                        when_executable: sat_add_u32(now, delay),
                    },
                ),
                ..*old(self)
            }),
    {
        if self.request.is_some() {
            return Err(Error::PendingCandidateRequestAlreadyExists);
        }
        if !can_bond {
            return Err(Error::InsufficientBalance);
        }
        let when_executable = now.saturating_add(delay);
        self.request = Some(
            CandidateBondRequest {
                change: CandidateBondChange::Increase,
                amount: more,
                when_executable,
            },
        );
        Ok(when_executable)
    }

    /// Schedules a decrease of the self bond by `less`, executable `delay`
    /// rounds after `now`. `valuation_after` is the valuation of the bond that
    /// would remain, which must reach `min_candidate_stk`.
    pub fn schedule_bond_less(
        &mut self,
        less: Balance,
        now: RoundIndex,
        delay: RoundIndex,
        min_candidate_stk: Balance,
        valuation_after: Balance,
    ) -> (r: Result<RoundIndex, Error>)
        ensures
            old(self).request is Some ==> r == Err::<RoundIndex, Error>(
                Error::PendingCandidateRequestAlreadyExists,
            ) && *final(self) == *old(self),
            old(self).request is None && (old(self).bond <= less || valuation_after
                < min_candidate_stk) ==> r == Err::<RoundIndex, Error>(
                Error::CandidateBondBelowMin,
            ) && *final(self) == *old(self),
            old(self).request is None && old(self).bond > less && valuation_after
                >= min_candidate_stk ==> r == Ok::<RoundIndex, Error>(sat_add_u32(now, delay))
                && *final(self) == (CollatorCandidate {
                request: Some(
                    CandidateBondRequest {
                        change: CandidateBondChange::Decrease,
                        amount: less,
                        when_executable: sat_add_u32(now, delay),
                    },
                ),
                ..*old(self)
            }),
    {
        if self.request.is_some() {
            return Err(Error::PendingCandidateRequestAlreadyExists);
        }
        if self.bond <= less {
            return Err(Error::CandidateBondBelowMin);
        }
        if valuation_after < min_candidate_stk {
            return Err(Error::CandidateBondBelowMin);
        }
        let when_executable = now.saturating_add(delay);
        self.request = Some(
            CandidateBondRequest {
                change: CandidateBondChange::Decrease,
                amount: less,
                when_executable,
            },
        );
        Ok(when_executable)
    }

    /// Applies the pending self-bond request in round `now` to the candidate's
    /// bond and totals and clears it; returns the event that reports it.
    pub fn execute_pending_request(&mut self, now: RoundIndex) -> (r: Result<Event, Error>)
        ensures
            match old(self).request {
                None => r == Err::<Event, Error>(Error::PendingCandidateRequestsDNE) && *final(self) == *old(self),
                Some(req) => if req.when_executable > now {
                    r == Err::<Event, Error>(Error::PendingCandidateRequestNotDueYet) && *final(self) == *old(self)
                } else if req.change == CandidateBondChange::Increase {
                    if old(self).bond + req.amount > u128::MAX || old(self).total_counted
                        + req.amount > u128::MAX || old(self).total_backing + req.amount
                        > u128::MAX {
                        r == Err::<Event, Error>(Error::MathError) && *final(self) == *old(self)
                    } else {
                        r == Ok::<Event, Error>(
                            Event::CandidateBondedMore(
                                old(self).id,
                                req.amount,
                                (old(self).bond + req.amount) as u128,
                            ),
                        ) && *final(self) == (CollatorCandidate {
                            bond: (old(self).bond + req.amount) as u128,
                            total_counted: (old(self).total_counted + req.amount) as u128,
                            total_backing: (old(self).total_backing + req.amount) as u128,
                            request: None,
                            ..*old(self)
                        })
                    }
                } else {
                    if req.amount > old(self).bond || req.amount > old(self).total_counted
                        || req.amount > old(self).total_backing {
                        r == Err::<Event, Error>(Error::MathError) && *final(self) == *old(self)
                    } else {
                        r == Ok::<Event, Error>(
                            Event::CandidateBondedLess(
                                old(self).id,
                                req.amount,
                                (old(self).bond - req.amount) as u128,
                            ),
                        ) && *final(self) == (CollatorCandidate {
                            bond: (old(self).bond - req.amount) as u128,
                            total_counted: (old(self).total_counted - req.amount) as u128,
                            total_backing: (old(self).total_backing - req.amount) as u128,
                            request: None,
                            ..*old(self)
                        })
                    }
                },
            },
            forall|m: u32| old(self).wf(m) ==> final(self).wf(m),
    {
        let request = match self.request {
            Some(req) => req,
            None => {
                return Err(Error::PendingCandidateRequestsDNE);
            },
        };
        if request.when_executable > now {
            return Err(Error::PendingCandidateRequestNotDueYet);
        }
        match request.change {
            CandidateBondChange::Increase => {
                let bond = match self.bond.checked_add(request.amount) {
                    Some(v) => v,
                    None => {
                        return Err(Error::MathError);
                    },
                };
                let total_counted = match self.total_counted.checked_add(request.amount) {
                    Some(v) => v,
                    None => {
                        return Err(Error::MathError);
                    },
                };
                let total_backing = match self.total_backing.checked_add(request.amount) {
                    Some(v) => v,
                    None => {
                        return Err(Error::MathError);
                    },
                };
                self.bond = bond;
                self.total_counted = total_counted;
                self.total_backing = total_backing;
                self.request = None;
                Ok(Event::CandidateBondedMore(self.id, request.amount, self.bond))
            },
            CandidateBondChange::Decrease => {
                let bond = match self.bond.checked_sub(request.amount) {
                    Some(v) => v,
                    None => {
                        return Err(Error::MathError);
                    },
                };
                let total_counted = match self.total_counted.checked_sub(request.amount) {
                    Some(v) => v,
                    None => {
                        return Err(Error::MathError);
                    },
                };
                let total_backing = match self.total_backing.checked_sub(request.amount) {
                    Some(v) => v,
                    None => {
                        return Err(Error::MathError);
                    },
                };
                self.bond = bond;
                self.total_counted = total_counted;
                self.total_backing = total_backing;
                self.request = None;
                Ok(Event::CandidateBondedLess(self.id, request.amount, self.bond))
            },
        }
    }

    /// Drops the pending self-bond request; returns the event that reports it.
    pub fn cancel_pending_request(&mut self) -> (r: Result<Event, Error>)
        ensures
            old(self).request is None ==> r == Err::<Event, Error>(
                Error::PendingCandidateRequestsDNE,
            ) && *final(self) == *old(self),
            old(self).request is Some ==> r == Ok::<Event, Error>(
                Event::CancelledCandidateBondChange(old(self).id, old(self).request->0),
            ) && *final(self) == (CollatorCandidate { request: None, ..*old(self) }),
    {
        match self.request {
            Some(req) => {
                let event = Event::CancelledCandidateBondChange(self.id, req);
                self.request = None;
                Ok(event)
            },
            None => Err(Error::PendingCandidateRequestsDNE),
        }
    }

    /// Inserts `delegation` into the top delegations where it keeps them ordered
    /// greatest to least.
    pub fn add_top_delegation(&mut self, delegation: Bond)
        requires
            desc_by_amount(old(self).top_delegations@),
        ensures
            inserted_desc(old(self).top_delegations@, final(self).top_delegations@, delegation),
            sorted_desc_of(old(self).top_delegations@.push(delegation), final(self).top_delegations@),
            *final(self) == (CollatorCandidate {
                top_delegations: final(self).top_delegations,
                ..*old(self)
            }),
    {
        let ghost s = self.top_delegations@;
        let mut i: usize = 0;
        while i < self.top_delegations.len() && self.top_delegations[i].amount >= delegation.amount
            invariant
                self.top_delegations@ == s,
                i <= s.len(),
                forall|j: int| 0 <= j < i ==> s[j].amount >= delegation.amount,
            decreases s.len() - i,
        {
            i = i + 1;
        }
        self.top_delegations.insert(i, delegation);
        proof {
            assert(forall|j: int| i <= j < s.len() ==> s[j].amount <= s[i as int].amount);
            assert(self.top_delegations@ == s.insert(i as int, delegation));
            assert(inserted_desc(s, self.top_delegations@, delegation));
            lemma_inserted_desc(s, self.top_delegations@, delegation);
        }
    }

    /// Inserts `delegation` into the bottom delegations where it keeps them
    /// ordered least to greatest.
    pub fn add_bottom_delegation(&mut self, delegation: Bond)
        requires
            asc_by_amount(old(self).bottom_delegations@),
        ensures
            inserted_asc(old(self).bottom_delegations@, final(self).bottom_delegations@, delegation),
            sorted_asc_of(
                old(self).bottom_delegations@.push(delegation),
                final(self).bottom_delegations@,
            ),
            *final(self) == (CollatorCandidate {
                bottom_delegations: final(self).bottom_delegations,
                ..*old(self)
            }),
    {
        let ghost s = self.bottom_delegations@;
        let mut i: usize = 0;
        while i < self.bottom_delegations.len() && self.bottom_delegations[i].amount
            <= delegation.amount
            invariant
                self.bottom_delegations@ == s,
                i <= s.len(),
                forall|j: int| 0 <= j < i ==> s[j].amount <= delegation.amount,
            decreases s.len() - i,
        {
            i = i + 1;
        }
        self.bottom_delegations.insert(i, delegation);
        proof {
            assert(forall|j: int| i <= j < s.len() ==> s[j].amount >= s[i as int].amount);
            assert(self.bottom_delegations@ == s.insert(i as int, delegation));
            assert(inserted_asc(s, self.bottom_delegations@, delegation));
            lemma_inserted_asc(s, self.bottom_delegations@, delegation);
        }
    }

    /// Sorts the top delegations from greatest to least.
    pub fn sort_top_delegations(&mut self)
        ensures
            sorted_desc_of(old(self).top_delegations@, final(self).top_delegations@),
            *final(self) == (CollatorCandidate {
                top_delegations: final(self).top_delegations,
                ..*old(self)
            }),
    {
        sort_desc(&mut self.top_delegations);
    }

    /// Sorts the bottom delegations from least to greatest.
    pub fn sort_bottom_delegations(&mut self)
        ensures
            sorted_asc_of(old(self).bottom_delegations@, final(self).bottom_delegations@),
            *final(self) == (CollatorCandidate {
                bottom_delegations: final(self).bottom_delegations,
                ..*old(self)
            }),
    {
        sort_asc(&mut self.bottom_delegations);
    }

    /// Adds the delegation of `amount` by `acc`. It goes to the top while the
    /// top holds fewer than `max_top` delegations, or when it exceeds the
    /// smallest top delegation, which then moves to the bottom; otherwise it
    /// goes to the bottom.
    pub fn add_delegation(&mut self, acc: AccountId, amount: Balance, max_top: u32) -> (r: Result<
        DelegatorAdded,
        Error,
    >)
        requires
            old(self).wf(max_top),
            old(self).top_delegations@.len() < max_top || old(self).top_delegations@.len() > 0,
        ensures
            final(self).wf(max_top),
            added_delegation(*old(self), acc, amount, max_top, r, *final(self)),
    {
        if self.delegators.contains(&acc) {
            return Err(Error::DelegatorExists);
        }
        let total_backing = match self.total_backing.checked_add(amount) {
            Some(v) => v,
            None => {
                return Err(Error::MathError);
            },
        };
        let ghost o = *self;
        let ghost top = self.top_delegations@;
        let ghost bottom = self.bottom_delegations@;
        proof {
            lemma_sum_nonneg(top);
            lemma_sum_nonneg(bottom);
            assert(owners(top).add(owners(bottom)).count(acc) == 0);
        }
        self.delegators.insert(acc);
        proof {
            lemma_has_key_insert(o.delegators@, self.delegators@, acc);
        }
        self.total_backing = total_backing;
        let nb = Bond { owner: acc, amount, liquidity_token: self.liquidity_token };
        if self.top_delegations.len() < max_top as usize {
            self.add_top_delegation(nb);
            self.total_counted = self.total_counted + amount;
            proof {
                lemma_permutes_facts(top.push(nb), self.top_delegations@);
                lemma_sum_push(top, nb);
                lemma_owners_push(top, nb);
                assert(owners(self.top_delegations@).add(owners(bottom)) =~= owners(top).add(
                    owners(bottom),
                ).insert(acc));
                lemma_owner_clauses(
                    self.delegators@,
                    owners(self.top_delegations@).add(owners(bottom)),
                    o.delegators@,
                    owners(top).add(owners(bottom)),
                    Some(acc),
                    None,
                );
            }
            Ok(DelegatorAdded::AddedToTop { new_total: self.total_counted })
        } else {
            let last = self.top_delegations.pop().unwrap();
            proof {
                lemma_drop_last_push(top);
                assert(self.top_delegations@ == top.drop_last());
            }
            if amount > last.amount {
                self.total_counted = self.total_counted + (amount - last.amount);
                self.add_top_delegation(nb);
                self.add_bottom_delegation(last);
                proof {
                    lemma_permutes_facts(top.drop_last().push(nb), self.top_delegations@);
                    lemma_permutes_facts(bottom.push(last), self.bottom_delegations@);
                    lemma_sum_push(top.drop_last(), nb);
                    lemma_owners_push(top.drop_last(), nb);
                    lemma_sum_push(bottom, last);
                    lemma_owners_push(bottom, last);
                    assert(owners(self.top_delegations@).add(owners(self.bottom_delegations@))
                        =~= owners(top).add(owners(bottom)).insert(acc));
                    lemma_owner_clauses(
                        self.delegators@,
                        owners(self.top_delegations@).add(owners(self.bottom_delegations@)),
                        o.delegators@,
                        owners(top).add(owners(bottom)),
                        Some(acc),
                        None,
                    );
                    assert(separated(top.drop_last().push(nb), bottom.push(last))) by {
                        let a = top.drop_last().push(nb);
                        let b = bottom.push(last);
                        assert forall|i: int, j: int|
                            0 <= i < a.len() && 0 <= j < b.len() implies a[i].amount
                            >= b[j].amount by {
                            if i < a.len() - 1 {
                                assert(a[i] == top[i]);
                            }
                            if j < b.len() - 1 {
                                assert(b[j] == bottom[j]);
                                assert(top[top.len() - 1].amount >= bottom[j].amount);
                            }
                        }
                    }
                    lemma_separated_permutes(
                        top.drop_last().push(nb),
                        bottom.push(last),
                        self.top_delegations@,
                        self.bottom_delegations@,
                    );
                }
                Ok(DelegatorAdded::AddedToTop { new_total: self.total_counted })
            } else {
                self.top_delegations.push(last);
                self.add_bottom_delegation(nb);
                proof {
                    assert(self.top_delegations@ =~= top);
                    lemma_permutes_facts(bottom.push(nb), self.bottom_delegations@);
                    lemma_sum_push(bottom, nb);
                    lemma_owners_push(bottom, nb);
                    assert(owners(top).add(owners(self.bottom_delegations@)) =~= owners(top).add(
                        owners(bottom),
                    ).insert(acc));
                    lemma_owner_clauses(
                        self.delegators@,
                        owners(top).add(owners(self.bottom_delegations@)),
                        o.delegators@,
                        owners(top).add(owners(bottom)),
                        Some(acc),
                        None,
                    );
                    assert(separated(top, bottom.push(nb))) by {
                        let b = bottom.push(nb);
                        assert forall|i: int, j: int|
                            0 <= i < top.len() && 0 <= j < b.len() implies top[i].amount
                            >= b[j].amount by {
                            if j < b.len() - 1 {
                                assert(b[j] == bottom[j]);
                            } else {
                                assert(top[i].amount >= top[top.len() - 1].amount);
                            }
                        }
                    }
                    lemma_separated_permutes(
                        top,
                        bottom.push(nb),
                        top,
                        self.bottom_delegations@,
                    );
                }
                Ok(DelegatorAdded::AddedToBottom)
            }
        }
    }

    /// Removes the delegation of `delegator`; returns whether it was counted
    /// (in the top) and its amount. A top delegation that leaves is replaced by
    /// the greatest bottom delegation, if any.
    pub fn rm_delegator(&mut self, delegator: AccountId) -> (r: Result<(bool, Balance), Error>)
        requires
            old(self).inv(),
        ensures
            final(self).inv(),
            forall|m: u32| old(self).wf(m) ==> final(self).wf(m),
            removed_delegator(*old(self), delegator, r, *final(self)),
    {
        let ghost o = *self;
        let ghost top = self.top_delegations@;
        let ghost bottom = self.bottom_delegations@;
        let ghost total = owners(top).add(owners(bottom));
        if !self.delegators.remove(&delegator) {
            return Err(Error::DelegatorDNEInDelegatorSet);
        }
        proof {
            let k = choose|k: int|
                0 <= k < o.delegators@.len() && o.delegators@[k].spec_key() == delegator
                    && self.delegators@ == o.delegators@.remove(k);
            lemma_has_key_remove(o.delegators@, k);
            assert(total.count(delegator) > 0);
            assert(total.count(delegator) <= 1);
            lemma_sum_nonneg(top);
            lemma_sum_nonneg(bottom);
            lemma_owners_count(top, delegator);
            lemma_owners_count(bottom, delegator);
        }
        match find_owner(&self.top_delegations, delegator) {
            Some(i) => {
                proof {
                    let j = index_of_owner(top, delegator);
                    lemma_unique_owner(top, i as int, j);
                    lemma_sum_remove(top, i as int);
                    lemma_sum_nonneg(top.remove(i as int));
                    lemma_owners_remove(top, i as int);
                    lemma_remove_sorted(top, i as int);
                }
                let a = self.top_delegations[i].amount;
                self.top_delegations.remove(i);
                if self.bottom_delegations.len() > 0 {
                    let last = self.bottom_delegations.pop().unwrap();
                    proof {
                        lemma_drop_last_push(bottom);
                        assert(top[i as int].amount >= bottom.last().amount);
                    }
                    self.total_counted = self.total_counted - (a - last.amount);
                    self.add_top_delegation(last);
                    proof {
                        let t2 = top.remove(i as int);
                        lemma_permutes_facts(t2.push(last), self.top_delegations@);
                        lemma_sum_push(t2, last);
                        lemma_owners_push(t2, last);
                        assert(owners(self.top_delegations@).add(owners(self.bottom_delegations@))
                            =~= total.remove(delegator));
                        lemma_owner_clauses(
                            self.delegators@,
                            owners(self.top_delegations@).add(owners(self.bottom_delegations@)),
                            o.delegators@,
                            total,
                            None,
                            Some(delegator),
                        );
                        assert(separated(t2.push(last), bottom.drop_last())) by {
                            let a2 = t2.push(last);
                            let b2 = bottom.drop_last();
                            assert forall|x: int, y: int|
                                0 <= x < a2.len() && 0 <= y < b2.len() implies a2[x].amount
                                >= b2[y].amount by {
                                assert(b2[y] == bottom[y]);
                                if x < t2.len() {
                                    if x < i {
                                        assert(a2[x] == top[x]);
                                    } else {
                                        assert(a2[x] == top[x + 1]);
                                    }
                                }
                            }
                        }
                        lemma_separated_permutes(
                            t2.push(last),
                            bottom.drop_last(),
                            self.top_delegations@,
                            self.bottom_delegations@,
                        );
                    }
                } else {
                    self.total_counted = self.total_counted - a;
                    proof {
                        assert(owners(bottom) =~= Multiset::<AccountId>::empty());
                        assert(owners(self.top_delegations@).add(owners(self.bottom_delegations@))
                            =~= total.remove(delegator));
                        lemma_owner_clauses(
                            self.delegators@,
                            owners(self.top_delegations@).add(owners(self.bottom_delegations@)),
                            o.delegators@,
                            total,
                            None,
                            Some(delegator),
                        );
                    }
                }
                self.total_backing = self.total_backing - a;
                Ok((true, a))
            },
            None => {
                match find_owner(&self.bottom_delegations, delegator) {
                    Some(i) => {
                        proof {
                            assert(owners(top).count(delegator) == 0);
                            let j = index_of_owner(bottom, delegator);
                            lemma_unique_owner(bottom, i as int, j);
                            lemma_sum_remove(bottom, i as int);
                            lemma_sum_nonneg(bottom.remove(i as int));
                            lemma_owners_remove(bottom, i as int);
                            lemma_remove_sorted(bottom, i as int);
                        }
                        let a = self.bottom_delegations[i].amount;
                        self.bottom_delegations.remove(i);
                        self.total_backing = self.total_backing - a;
                        proof {
                            assert(owners(top).add(owners(self.bottom_delegations@))
                                =~= total.remove(delegator));
                            lemma_owner_clauses(
                                self.delegators@,
                                owners(top).add(owners(self.bottom_delegations@)),
                                o.delegators@,
                                total,
                                None,
                                Some(delegator),
                            );
                            assert(separated(top, self.bottom_delegations@)) by {
                                let b2 = self.bottom_delegations@;
                                assert forall|x: int, y: int|
                                    0 <= x < top.len() && 0 <= y < b2.len() implies top[x].amount
                                    >= b2[y].amount by {
                                    if y < i {
                                        assert(b2[y] == bottom[y]);
                                    } else {
                                        assert(b2[y] == bottom[y + 1]);
                                    }
                                }
                            }
                        }
                        Ok((false, a))
                    },
                    None => {
                        proof {
                            assert(false);
                        }
                        Err(Error::DelegatorDNEinTopNorBottom)
                    },
                }
            },
        }
    }

    /// Increases the delegation of `delegator` by `more`; returns whether it
    /// is in the top afterwards. A bottom delegation that grows beyond the
    /// smallest top delegation trades places with it.
    pub fn increase_delegation(&mut self, delegator: AccountId, more: Balance) -> (r: Result<
        bool,
        Error,
    >)
        requires
            old(self).inv(),
            has_key(old(self).delegators@, delegator),
        ensures
            final(self).inv(),
            forall|m: u32| old(self).wf(m) ==> final(self).wf(m),
            increased_delegation(*old(self), delegator, more, r, *final(self)),
    {
        let ghost o = *self;
        let ghost top = self.top_delegations@;
        let ghost bottom = self.bottom_delegations@;
        let ghost total = owners(top).add(owners(bottom));
        let total_backing = match self.total_backing.checked_add(more) {
            Some(v) => v,
            None => {
                return Err(Error::MathError);
            },
        };
        proof {
            assert(total.count(delegator) > 0);
            assert(total.count(delegator) <= 1);
            lemma_sum_nonneg(top);
            lemma_sum_nonneg(bottom);
            lemma_owners_count(top, delegator);
            lemma_owners_count(bottom, delegator);
        }
        match find_owner(&self.top_delegations, delegator) {
            Some(i) => {
                let b = self.top_delegations[i];
                proof {
                    let j = index_of_owner(top, delegator);
                    lemma_unique_owner(top, i as int, j);
                    lemma_sum_remove(top, i as int);
                    lemma_sum_nonneg(top.remove(i as int));
                }
                let nb = Bond { amount: b.amount + more, ..b };
                self.top_delegations.set(i, nb);
                self.total_counted = self.total_counted + more;
                self.total_backing = total_backing;
                proof {
                    assert(nb == with_amount(top[i as int], top[i as int].amount + more));
                    lemma_sum_update(top, i as int, nb);
                    lemma_owners_update(top, i as int, nb);
                    assert(separated(top.update(i as int, nb), bottom));
                }
                self.sort_top_delegations();
                proof {
                    lemma_permutes_facts(top.update(i as int, nb), self.top_delegations@);
                    lemma_separated_permutes(
                        top.update(i as int, nb),
                        bottom,
                        self.top_delegations@,
                        bottom,
                    );
                    lemma_owner_clauses(
                        self.delegators@,
                        owners(self.top_delegations@).add(owners(bottom)),
                        o.delegators@,
                        total,
                        None,
                        None,
                    );
                }
                Ok(true)
            },
            None => {
                let i = match find_owner(&self.bottom_delegations, delegator) {
                    Some(i) => i,
                    None => {
                        proof {
                            assert(false);
                        }
                        return Err(Error::DelegatorDNEinTopNorBottom);
                    },
                };
                proof {
                    assert(owners(top).count(delegator) == 0);
                    let j = index_of_owner(bottom, delegator);
                    lemma_unique_owner(bottom, i as int, j);
                    lemma_sum_remove(bottom, i as int);
                    lemma_sum_nonneg(bottom.remove(i as int));
                    lemma_owners_remove(bottom, i as int);
                    lemma_remove_sorted(bottom, i as int);
                    lemma_drop_last_push(top);
                    lemma_sum_nonneg(top.drop_last());
                }
                let b = self.bottom_delegations[i];
                let nb = Bond { amount: b.amount + more, ..b };
                let lowest = self.top_delegations[self.top_delegations.len() - 1];
                self.total_backing = total_backing;
                if nb.amount > lowest.amount {
                    self.top_delegations.pop();
                    self.bottom_delegations.remove(i);
                    self.total_counted = self.total_counted + (nb.amount - lowest.amount);
                    proof {
                        assert(self.top_delegations@ == top.drop_last());
                        lemma_remove_sorted(top, top.len() - 1);
                        assert(top.remove(top.len() - 1) =~= top.drop_last());
                    }
                    self.add_top_delegation(nb);
                    self.add_bottom_delegation(lowest);
                    proof {
                        let t2 = top.drop_last();
                        let b2 = bottom.remove(i as int);
                        lemma_permutes_facts(t2.push(nb), self.top_delegations@);
                        lemma_permutes_facts(b2.push(lowest), self.bottom_delegations@);
                        lemma_sum_push(t2, nb);
                        lemma_owners_push(t2, nb);
                        lemma_sum_push(b2, lowest);
                        lemma_owners_push(b2, lowest);
                        assert(owners(self.top_delegations@).add(owners(self.bottom_delegations@))
                            =~= total);
                        lemma_owner_clauses(
                            self.delegators@,
                            owners(self.top_delegations@).add(owners(self.bottom_delegations@)),
                            o.delegators@,
                            total,
                            None,
                            None,
                        );
                        assert(separated(t2.push(nb), b2.push(lowest))) by {
                            let a2 = t2.push(nb);
                            let c2 = b2.push(lowest);
                            assert forall|x: int, y: int|
                                0 <= x < a2.len() && 0 <= y < c2.len() implies a2[x].amount
                                >= c2[y].amount by {
                                if x < t2.len() {
                                    assert(a2[x] == top[x]);
                                    assert(top[x].amount >= top[top.len() - 1].amount);
                                }
                                if y < b2.len() {
                                    if y < i {
                                        assert(c2[y] == bottom[y]);
                                    } else {
                                        assert(c2[y] == bottom[y + 1]);
                                    }
                                    assert(top[top.len() - 1].amount >= c2[y].amount);
                                }
                            }
                        }
                        lemma_separated_permutes(
                            t2.push(nb),
                            b2.push(lowest),
                            self.top_delegations@,
                            self.bottom_delegations@,
                        );
                    }
                    Ok(true)
                } else {
                    self.bottom_delegations.set(i, nb);
                    proof {
                        lemma_sum_update(bottom, i as int, nb);
                        lemma_owners_update(bottom, i as int, nb);
                        assert(separated(top, bottom.update(i as int, nb))) by {
                            let c2 = bottom.update(i as int, nb);
                            assert forall|x: int, y: int|
                                0 <= x < top.len() && 0 <= y < c2.len() implies top[x].amount
                                >= c2[y].amount by {
                                assert(top[x].amount >= top[top.len() - 1].amount);
                            }
                        }
                    }
                    self.sort_bottom_delegations();
                    proof {
                        lemma_permutes_facts(bottom.update(i as int, nb), self.bottom_delegations@);
                        lemma_separated_permutes(
                            top,
                            bottom.update(i as int, nb),
                            top,
                            self.bottom_delegations@,
                        );
                        lemma_owner_clauses(
                            self.delegators@,
                            owners(top).add(owners(self.bottom_delegations@)),
                            o.delegators@,
                            total,
                            None,
                            None,
                        );
                    }
                    Ok(false)
                }
            },
        }
    }

    /// Decreases the delegation of `delegator` by `less`; returns whether it
    /// is in the top afterwards. A top delegation that falls below the greatest
    /// bottom delegation trades places with it. An account without a delegation
    /// leaves the candidate unchanged.
    pub fn decrease_delegation(&mut self, delegator: AccountId, less: Balance) -> (r: Result<
        bool,
        Error,
    >)
        requires
            old(self).inv(),
        ensures
            final(self).inv(),
            forall|m: u32| old(self).wf(m) ==> final(self).wf(m),
            decreased_delegation(*old(self), delegator, less, r, *final(self)),
    {
        let ghost o = *self;
        let ghost top = self.top_delegations@;
        let ghost bottom = self.bottom_delegations@;
        let ghost total = owners(top).add(owners(bottom));
        proof {
            lemma_sum_nonneg(top);
            lemma_sum_nonneg(bottom);
            lemma_owners_count(top, delegator);
            lemma_owners_count(bottom, delegator);
        }
        match find_owner(&self.top_delegations, delegator) {
            Some(i) => {
                let b = self.top_delegations[i];
                proof {
                    assert(total.count(delegator) <= 1);
                    let j = index_of_owner(top, delegator);
                    lemma_unique_owner(top, i as int, j);
                    lemma_sum_remove(top, i as int);
                    lemma_sum_nonneg(top.remove(i as int));
                    lemma_owners_remove(top, i as int);
                    lemma_remove_sorted(top, i as int);
                }
                if less > b.amount {
                    return Err(Error::MathError);
                }
                let nb = Bond { amount: b.amount - less, ..b };
                if self.bottom_delegations.len() > 0 && self.bottom_delegations[self.bottom_delegations.len()
                    - 1].amount > nb.amount {
                    let highest = self.bottom_delegations.pop().unwrap();
                    self.top_delegations.remove(i);
                    proof {
                        lemma_drop_last_push(bottom);
                        lemma_sum_nonneg(bottom.drop_last());
                        assert(b.amount >= highest.amount);
                    }
                    self.total_counted = self.total_counted - b.amount + highest.amount;
                    self.total_backing = self.total_backing - less;
                    self.add_top_delegation(highest);
                    self.add_bottom_delegation(nb);
                    proof {
                        let t2 = top.remove(i as int);
                        let b2 = bottom.drop_last();
                        lemma_permutes_facts(t2.push(highest), self.top_delegations@);
                        lemma_permutes_facts(b2.push(nb), self.bottom_delegations@);
                        lemma_sum_push(t2, highest);
                        lemma_owners_push(t2, highest);
                        lemma_sum_push(b2, nb);
                        lemma_owners_push(b2, nb);
                        assert(owners(self.top_delegations@).add(owners(self.bottom_delegations@))
                            =~= total);
                        lemma_owner_clauses(
                            self.delegators@,
                            owners(self.top_delegations@).add(owners(self.bottom_delegations@)),
                            o.delegators@,
                            total,
                            None,
                            None,
                        );
                        assert(separated(t2.push(highest), b2.push(nb))) by {
                            let a2 = t2.push(highest);
                            let c2 = b2.push(nb);
                            assert forall|x: int, y: int|
                                0 <= x < a2.len() && 0 <= y < c2.len() implies a2[x].amount
                                >= c2[y].amount by {
                                if x < t2.len() {
                                    if x < i {
                                        assert(a2[x] == top[x]);
                                    } else {
                                        assert(a2[x] == top[x + 1]);
                                    }
                                    assert(a2[x].amount >= highest.amount);
                                }
                                if y < b2.len() {
                                    assert(c2[y] == bottom[y]);
                                    assert(bottom[y].amount <= highest.amount);
                                }
                            }
                        }
                        lemma_separated_permutes(
                            t2.push(highest),
                            b2.push(nb),
                            self.top_delegations@,
                            self.bottom_delegations@,
                        );
                    }
                    Ok(false)
                } else {
                    self.top_delegations.set(i, nb);
                    self.total_counted = self.total_counted - less;
                    self.total_backing = self.total_backing - less;
                    proof {
                        lemma_sum_update(top, i as int, nb);
                        lemma_owners_update(top, i as int, nb);
                        assert(separated(top.update(i as int, nb), bottom)) by {
                            let a2 = top.update(i as int, nb);
                            assert forall|x: int, y: int|
                                0 <= x < a2.len() && 0 <= y < bottom.len() implies a2[x].amount
                                >= bottom[y].amount by {
                                if x == i {
                                    assert(bottom[y].amount <= bottom[bottom.len() - 1].amount);
                                }
                            }
                        }
                    }
                    self.sort_top_delegations();
                    proof {
                        lemma_permutes_facts(top.update(i as int, nb), self.top_delegations@);
                        lemma_separated_permutes(
                            top.update(i as int, nb),
                            bottom,
                            self.top_delegations@,
                            bottom,
                        );
                        lemma_owner_clauses(
                            self.delegators@,
                            owners(self.top_delegations@).add(owners(bottom)),
                            o.delegators@,
                            total,
                            None,
                            None,
                        );
                    }
                    Ok(true)
                }
            },
            None => {
                match find_owner(&self.bottom_delegations, delegator) {
                    Some(i) => {
                        let b = self.bottom_delegations[i];
                        proof {
                            assert(owners(top).count(delegator) == 0);
                            assert(total.count(delegator) <= 1);
                            let j = index_of_owner(bottom, delegator);
                            lemma_unique_owner(bottom, i as int, j);
                            lemma_sum_remove(bottom, i as int);
                            lemma_sum_nonneg(bottom.remove(i as int));
                        }
                        if less > b.amount {
                            return Err(Error::MathError);
                        }
                        let nb = Bond { amount: b.amount - less, ..b };
                        self.bottom_delegations.set(i, nb);
                        self.total_backing = self.total_backing - less;
                        proof {
                            lemma_sum_update(bottom, i as int, nb);
                            lemma_owners_update(bottom, i as int, nb);
                        }
                        self.sort_bottom_delegations();
                        proof {
                            lemma_permutes_facts(
                                bottom.update(i as int, nb),
                                self.bottom_delegations@,
                            );
                            lemma_separated_permutes(
                                top,
                                bottom.update(i as int, nb),
                                top,
                                self.bottom_delegations@,
                            );
                            lemma_owner_clauses(
                                self.delegators@,
                                owners(top).add(owners(self.bottom_delegations@)),
                                o.delegators@,
                                total,
                                None,
                                None,
                            );
                        }
                        Ok(false)
                    },
                    None => {
                        proof {
                            assert(bottom.to_multiset() =~= bottom.to_multiset());
                        }
                        Ok(false)
                    },
                }
            },
        }
    }

    /// Sets the status to `Idle`.
    pub fn go_offline(&mut self)
        ensures
            *final(self) == (CollatorCandidate { state: CollatorStatus::Idle, ..*old(self) }),
    {
        self.state = CollatorStatus::Idle;
    }

    /// The amount `d` delegates, counted or not, if any.
    pub fn delegation_amount(&self, d: AccountId) -> (r: Option<Balance>)
        requires
            self.inv(),
        ensures
            r == delegation_of(*self, d),
    {
        let ghost top = self.top_delegations@;
        let ghost bottom = self.bottom_delegations@;
        proof {
            lemma_owners_count(top, d);
            lemma_owners_count(bottom, d);
            assert(owners(top).add(owners(bottom)).count(d) <= 1);
        }
        match find_owner(&self.top_delegations, d) {
            Some(i) => {
                proof {
                    let j = index_of_owner(top, d);
                    lemma_unique_owner(top, i as int, j);
                }
                Some(self.top_delegations[i].amount)
            },
            None => match find_owner(&self.bottom_delegations, d) {
                Some(i) => {
                    proof {
                        let j = index_of_owner(bottom, d);
                        lemma_unique_owner(bottom, i as int, j);
                    }
                    Some(self.bottom_delegations[i].amount)
                },
                None => None,
            },
        }
    }

    /// Sets the status to `Active`.
    pub fn go_online(&mut self)
        ensures
            *final(self) == (CollatorCandidate { state: CollatorStatus::Active, ..*old(self) }),
    {
        self.state = CollatorStatus::Active;
    }

    /// Schedules the candidate to leave `delay` rounds after `now`; returns
    /// `(now, when)`.
    pub fn leave(&mut self, now: RoundIndex, delay: RoundIndex) -> (r: Result<
        (RoundIndex, RoundIndex),
        Error,
    >)
        ensures
            old(self).state is Leaving ==> r == Err::<(RoundIndex, RoundIndex), Error>(
                Error::CandidateAlreadyLeaving,
            ) && *final(self) == *old(self),
            !(old(self).state is Leaving) ==> r == Ok::<(RoundIndex, RoundIndex), Error>(
                (now, sat_add_u32(now, delay)),
            ) && *final(self) == (CollatorCandidate {
                state: CollatorStatus::Leaving(sat_add_u32(now, delay)),
                ..*old(self)
            }),
    {
        if self.is_leaving() {
            return Err(Error::CandidateAlreadyLeaving);
        }
        let when = now.saturating_add(delay);
        self.state = CollatorStatus::Leaving(when);
        Ok((now, when))
    }
}

} // verus!
