//! Bonds (an account's stake in a token) and the sequences of bonds that a
//! collator candidate keeps, ordered by amount.

use crate::ordered_set::SetKey;
use crate::{AccountId, Balance, CurrencyId};
use vstd::multiset::Multiset;
use vstd::prelude::*;
use vstd::std_specs::cmp::PartialEqSpecImpl;

verus! {

broadcast use vstd::seq_lib::group_to_multiset_ensures, vstd::multiset::group_multiset_axioms;

/// Stake of `owner`, in `liquidity_token`. Two bonds are equal, and ordered, by owner.
#[derive(Clone, Copy, Debug)]
pub struct Bond {
    pub owner: AccountId,
    pub amount: Balance,
    pub liquidity_token: CurrencyId,
}

impl PartialEq for Bond {
    fn eq(&self, other: &Self) -> (r: bool) {
        self.owner == other.owner
    }
}

impl PartialEqSpecImpl for Bond {
    open spec fn obeys_eq_spec() -> bool {
        true
    }

    open spec fn eq_spec(&self, other: &Bond) -> bool {
        self.owner == other.owner
    }
}

impl SetKey for Bond {
    open spec fn spec_key(&self) -> u64 {
        self.owner
    }

    fn key(&self) -> (k: u64) {
        self.owner
    }
}

impl Bond {
    /// A bond of `owner` with zero amount in token zero.
    pub fn from_owner(owner: AccountId) -> (r: Bond)
        ensures
            r == (Bond { owner, amount: 0, liquidity_token: 0 }),
    {
        Bond { owner, amount: 0, liquidity_token: 0 }
    }

    /// The bond of account zero, with zero amount in token zero.
    pub fn default() -> (r: Bond)
        ensures
            r == (Bond { owner: 0, amount: 0, liquidity_token: 0 }),
    {
        Bond { owner: 0, amount: 0, liquidity_token: 0 }
    }
}

/// The sum of the amounts of `s`.
pub open spec fn sum_amounts(s: Seq<Bond>) -> int {
    s.fold_left(0int, |acc: int, b: Bond| acc + b.amount)
}

/// Amounts never increase along `s`.
pub open spec fn desc_by_amount(s: Seq<Bond>) -> bool {
    forall|i: int, j: int| 0 <= i < j < s.len() ==> s[i].amount >= s[j].amount
}

/// Amounts never decrease along `s`.
pub open spec fn asc_by_amount(s: Seq<Bond>) -> bool {
    forall|i: int, j: int| 0 <= i < j < s.len() ==> s[i].amount <= s[j].amount
}

/// `t` holds the bonds of `s`, each as often, in any order.
pub open spec fn permutes(s: Seq<Bond>, t: Seq<Bond>) -> bool {
    s.to_multiset() == t.to_multiset()
}

/// Appending a bond adds its amount.
pub proof fn lemma_sum_push(s: Seq<Bond>, b: Bond)
    ensures
        sum_amounts(s.push(b)) == sum_amounts(s) + b.amount,
{
    assert(s.push(b).drop_last() == s);
}

/// Reordering bonds keeps the sum.
pub proof fn lemma_sum_permutes(s: Seq<Bond>, t: Seq<Bond>)
    requires
        permutes(s, t),
    ensures
        sum_amounts(s) == sum_amounts(t),
{
    let f = |acc: int, b: Bond| acc + b.amount;
    assert(vstd::seq_lib::commutative_foldl(f));
    vstd::seq_lib::lemma_fold_left_permutation(s, t, f, 0int);
}

/// Removing the bond at `i` takes off its amount.
pub proof fn lemma_sum_remove(s: Seq<Bond>, i: int)
    requires
        0 <= i < s.len(),
    ensures
        sum_amounts(s.remove(i)) == sum_amounts(s) - s[i].amount,
{
    let t = s.remove(i).push(s[i]);
    assert(t.to_multiset() =~= s.to_multiset().remove(s[i]).insert(s[i]));
    assert(s.to_multiset().count(s[i]) > 0) by {
        assert(s.contains(s[i]));
    }
    assert(s.to_multiset().remove(s[i]).insert(s[i]) =~= s.to_multiset());
    lemma_sum_permutes(t, s);
    lemma_sum_push(s.remove(i), s[i]);
}

/// Inserting a bond adds its amount.
pub proof fn lemma_sum_insert(s: Seq<Bond>, i: int, b: Bond)
    requires
        0 <= i <= s.len(),
    ensures
        sum_amounts(s.insert(i, b)) == sum_amounts(s) + b.amount,
{
    lemma_sum_remove(s.insert(i, b), i);
    assert(s.insert(i, b).remove(i) =~= s);
}

/// Replacing the bond at `i` changes the sum by the difference of the amounts.
pub proof fn lemma_sum_update(s: Seq<Bond>, i: int, b: Bond)
    requires
        0 <= i < s.len(),
    ensures
        sum_amounts(s.update(i, b)) == sum_amounts(s) - s[i].amount + b.amount,
{
    lemma_sum_remove(s.update(i, b), i);
    lemma_sum_remove(s, i);
    assert(s.update(i, b).remove(i) =~= s.remove(i));
}

/// Amounts are never negative, so neither is their sum.
pub proof fn lemma_sum_nonneg(s: Seq<Bond>)
    ensures
        sum_amounts(s) >= 0,
    decreases s.len(),
{
    if s.len() > 0 {
        lemma_sum_nonneg(s.drop_last());
    }
}

/// The owners of the bonds of `s`, each as often as it owns a bond.
pub open spec fn owners(s: Seq<Bond>) -> Multiset<AccountId> {
    s.fold_left(Multiset::<AccountId>::empty(), |m: Multiset<AccountId>, b: Bond| m.insert(b.owner))
}

/// Appending a bond adds its owner.
pub proof fn lemma_owners_push(s: Seq<Bond>, b: Bond)
    ensures
        owners(s.push(b)) == owners(s).insert(b.owner),
{
    assert(s.push(b).drop_last() == s);
}

/// The owners of a concatenation are those of both parts.
pub proof fn lemma_owners_concat(s: Seq<Bond>, t: Seq<Bond>)
    ensures
        owners(s + t) == owners(s).add(owners(t)),
    decreases t.len(),
{
    if t.len() == 0 {
        assert(s + t == s);
        assert(owners(t) =~= Multiset::<AccountId>::empty());
        assert(owners(s).add(owners(t)) =~= owners(s));
    } else {
        let u = t.drop_last();
        lemma_owners_concat(s, u);
        assert(s + t == (s + u).push(t.last()));
        assert(t == u.push(t.last()));
        lemma_owners_push(s + u, t.last());
        lemma_owners_push(u, t.last());
        assert(owners(s).add(owners(u)).insert(t.last().owner) =~= owners(s).add(owners(u).insert(t.last().owner)));
    }
}

/// Reordering bonds keeps the owners.
pub proof fn lemma_owners_permutes(s: Seq<Bond>, t: Seq<Bond>)
    requires
        permutes(s, t),
    ensures
        owners(s) == owners(t),
{
    let f = |m: Multiset<AccountId>, b: Bond| m.insert(b.owner);
    assert forall|x: Bond, y: Bond, v: Multiset<AccountId>| #[trigger] f(f(v, x), y) == f(f(v, y), x) by {
        assert(v.insert(x.owner).insert(y.owner) =~= v.insert(y.owner).insert(x.owner));
    }
    assert(vstd::seq_lib::commutative_foldl(f));
    vstd::seq_lib::lemma_fold_left_permutation(s, t, f, Multiset::<AccountId>::empty());
}

/// Removing the bond at `i` takes off one occurrence of its owner.
pub proof fn lemma_owners_remove(s: Seq<Bond>, i: int)
    requires
        0 <= i < s.len(),
    ensures
        owners(s) == owners(s.remove(i)).insert(s[i].owner),
        owners(s.remove(i)) == owners(s).remove(s[i].owner),
{
    let t = s.remove(i).push(s[i]);
    assert(t.to_multiset() =~= s.to_multiset().remove(s[i]).insert(s[i]));
    assert(s.to_multiset().count(s[i]) > 0) by {
        assert(s.contains(s[i]));
    }
    assert(s.to_multiset().remove(s[i]).insert(s[i]) =~= s.to_multiset());
    lemma_owners_permutes(t, s);
    lemma_owners_push(s.remove(i), s[i]);
    assert(owners(s.remove(i)).insert(s[i].owner).remove(s[i].owner) =~= owners(s.remove(i)));
}

/// Inserting a bond adds its owner.
pub proof fn lemma_owners_insert(s: Seq<Bond>, i: int, b: Bond)
    requires
        0 <= i <= s.len(),
    ensures
        owners(s.insert(i, b)) == owners(s).insert(b.owner),
{
    lemma_owners_remove(s.insert(i, b), i);
    assert(s.insert(i, b).remove(i) =~= s);
}

/// Changing the amount of the bond at `i` keeps the owners.
pub proof fn lemma_owners_update(s: Seq<Bond>, i: int, b: Bond)
    requires
        0 <= i < s.len(),
        b.owner == s[i].owner,
    ensures
        owners(s.update(i, b)) == owners(s),
{
    lemma_owners_remove(s.update(i, b), i);
    lemma_owners_remove(s, i);
    assert(s.update(i, b).remove(i) =~= s.remove(i));
}

/// An account owns a bond of `s` exactly when it occurs among the owners.
pub proof fn lemma_owners_count(s: Seq<Bond>, d: AccountId)
    ensures
        (owners(s).count(d) > 0) <==> (exists|i: int| 0 <= i < s.len() && s[i].owner == d),
    decreases s.len(),
{
    if s.len() > 0 {
        let t = s.drop_last();
        lemma_owners_count(t, d);
        lemma_owners_push(t, s.last());
        assert(t.push(s.last()) == s);
        if exists|i: int| 0 <= i < t.len() && t[i].owner == d {
            let i = choose|i: int| 0 <= i < t.len() && t[i].owner == d;
            assert(s[i].owner == d);
        }
        if exists|i: int| 0 <= i < s.len() && s[i].owner == d {
            let i = choose|i: int| 0 <= i < s.len() && s[i].owner == d;
            if i < t.len() {
                assert(t[i].owner == d);
            }
        }
    } else {
        assert(owners(s) =~= Multiset::<AccountId>::empty());
    }
}

/// Sorts `v` from the greatest amount to the least.
pub fn sort_desc(v: &mut Vec<Bond>)
    ensures
        desc_by_amount(final(v)@),
        permutes(old(v)@, final(v)@),
{
    let n = v.len();
    let mut i: usize = 1;
    if n == 0 {
        return ;
    }
    while i < n
        invariant
            n == v.len(),
            1 <= i <= n,
            desc_by_amount(v@.subrange(0, i as int)),
            permutes(old(v)@, v@),
        decreases n - i,
    {
        assert forall|a: int, b: int| 0 <= a < b < i implies v@[a].amount >= v@[b].amount by {
            assert(v@.subrange(0, i as int)[a] == v@[a]);
            assert(v@.subrange(0, i as int)[b] == v@[b]);
        }
        let mut j: usize = i;
        while j > 0 && v[j - 1].amount < v[j].amount
            invariant
                n == v.len(),
                0 <= j <= i < n,
                permutes(old(v)@, v@),
                forall|a: int, b: int|
                    0 <= a < b <= i && a != j && b != j ==> v@[a].amount >= v@[b].amount,
                forall|b: int| j < b <= i ==> v@[j as int].amount >= v@[b].amount,
                forall|a: int| 0 <= a < j && j + 1 <= i ==> #[trigger] v@[a].amount >= v@[j + 1].amount,
            decreases j,
        {
            let x = v[j - 1];
            let y = v[j];
            let ghost before = v@;
            v.set(j - 1, y);
            v.set(j, x);
            proof {
                assert(v@ == before.update(j as int - 1, y).update(j as int, x));
                assert(v@.to_multiset() =~= before.to_multiset());
            }
            j = j - 1;
        }
        assert forall|a: int, b: int| 0 <= a < b <= i implies v@[a].amount >= v@[b].amount by {
            if b == j && a + 1 < j {
                assert(v@[a].amount >= v@[j - 1].amount);
            }
        }
        assert(desc_by_amount(v@.subrange(0, i + 1)));
        i = i + 1;
    }
    assert(v@.subrange(0, n as int) == v@);
}

/// Sorts `v` from the least amount to the greatest.
pub fn sort_asc(v: &mut Vec<Bond>)
    ensures
        asc_by_amount(final(v)@),
        permutes(old(v)@, final(v)@),
{
    let n = v.len();
    let mut i: usize = 1;
    if n == 0 {
        return ;
    }
    while i < n
        invariant
            n == v.len(),
            1 <= i <= n,
            asc_by_amount(v@.subrange(0, i as int)),
            permutes(old(v)@, v@),
        decreases n - i,
    {
        assert forall|a: int, b: int| 0 <= a < b < i implies v@[a].amount <= v@[b].amount by {
            assert(v@.subrange(0, i as int)[a] == v@[a]);
            assert(v@.subrange(0, i as int)[b] == v@[b]);
        }
        let mut j: usize = i;
        while j > 0 && v[j - 1].amount > v[j].amount
            invariant
                n == v.len(),
                0 <= j <= i < n,
                permutes(old(v)@, v@),
                forall|a: int, b: int|
                    0 <= a < b <= i && a != j && b != j ==> v@[a].amount <= v@[b].amount,
                forall|b: int| j < b <= i ==> v@[j as int].amount <= v@[b].amount,
                forall|a: int| 0 <= a < j && j + 1 <= i ==> #[trigger] v@[a].amount <= v@[j + 1].amount,
            decreases j,
        {
            let x = v[j - 1];
            let y = v[j];
            let ghost before = v@;
            v.set(j - 1, y);
            v.set(j, x);
            proof {
                assert(v@ == before.update(j as int - 1, y).update(j as int, x));
                assert(v@.to_multiset() =~= before.to_multiset());
            }
            j = j - 1;
        }
        assert forall|a: int, b: int| 0 <= a < b <= i implies v@[a].amount <= v@[b].amount by {
            if b == j && a + 1 < j {
                assert(v@[a].amount <= v@[j - 1].amount);
            }
        }
        assert(asc_by_amount(v@.subrange(0, i + 1)));
        i = i + 1;
    }
    assert(v@.subrange(0, n as int) == v@);
}

} // verus!
