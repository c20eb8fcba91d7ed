//! A set kept as a vector sorted by a 64-bit key, with no two elements sharing
//! a key.

use vstd::prelude::*;

verus! {

/// Elements that an `OrderedSet` orders and identifies by a key.
pub trait SetKey: Sized {
    /// The key of the element.
    spec fn spec_key(&self) -> u64;

    /// The key of the element.
    fn key(&self) -> (k: u64)
        ensures
            k == self.spec_key(),
    ;
}

impl SetKey for u64 {
    open spec fn spec_key(&self) -> u64 {
        *self
    }

    fn key(&self) -> (k: u64) {
        *self
    }
}

/// The keys of `s`, in order.
pub open spec fn keys_of<T: SetKey>(s: Seq<T>) -> Seq<u64> {
    s.map_values(|x: T| x.spec_key())
}

/// The keys of `s` increase strictly.
pub open spec fn strictly_sorted<T: SetKey>(s: Seq<T>) -> bool {
    forall|i: int, j: int| 0 <= i < j < s.len() ==> s[i].spec_key() < s[j].spec_key()
}

/// Some element of `s` has key `k`.
pub open spec fn has_key<T: SetKey>(s: Seq<T>, k: u64) -> bool {
    exists|i: int| 0 <= i < s.len() && s[i].spec_key() == k
}

/// The element of `s` with key `k` (meaningful when there is one).
pub open spec fn entry_of<T: SetKey>(s: Seq<T>, k: u64) -> T {
    s[choose|i: int| 0 <= i < s.len() && s[i].spec_key() == k]
}

/// `s` read as a map from keys to elements.
pub open spec fn key_map<T: SetKey>(s: Seq<T>) -> Map<u64, T> {
    Map::new(|k: u64| has_key(s, k), |k: u64| entry_of(s, k))
}

/// In a strictly sorted sequence an element is the entry of its own key.
pub proof fn lemma_entry_of<T: SetKey>(s: Seq<T>, i: int)
    requires
        strictly_sorted(s),
        0 <= i < s.len(),
    ensures
        has_key(s, s[i].spec_key()),
        entry_of(s, s[i].spec_key()) == s[i],
        key_map(s).contains_key(s[i].spec_key()),
        key_map(s)[s[i].spec_key()] == s[i],
{
    let k = s[i].spec_key();
    assert(0 <= i < s.len() && s[i].spec_key() == k);
    let j = choose|j: int| 0 <= j < s.len() && s[j].spec_key() == k;
    if j < i {
        assert(s[j].spec_key() < s[i].spec_key());
    } else if j > i {
        assert(s[i].spec_key() < s[j].spec_key());
    }
}

/// A strictly sorted sequence has exactly as many keys as elements.
pub proof fn lemma_key_map_len<T: SetKey>(s: Seq<T>)
    requires
        strictly_sorted(s),
    ensures
        key_map(s).dom().finite(),
        key_map(s).dom().len() == s.len(),
{
    let ks = keys_of(s);
    assert(ks.no_duplicates()) by {
        assert forall|i: int, j: int| 0 <= i < ks.len() && 0 <= j < ks.len() && i != j implies ks[i] != ks[j] by {
            if i < j {
                assert(s[i].spec_key() < s[j].spec_key());
            } else {
                assert(s[j].spec_key() < s[i].spec_key());
            }
        }
    }
    ks.unique_seq_to_set();
    assert forall|k: u64| #[trigger] key_map(s).dom().contains(k) == ks.to_set().contains(k) by {
        if has_key(s, k) {
            let i = choose|i: int| 0 <= i < s.len() && s[i].spec_key() == k;
            assert(ks[i] == k);
        }
        if ks.to_set().contains(k) {
            assert(ks.contains(k));
            let i = choose|i: int| 0 <= i < ks.len() && ks[i] == k;
            assert(s[i].spec_key() == k);
        }
    }
    assert(key_map(s).dom() =~= ks.to_set());
    vstd::seq_lib::seq_to_set_is_finite(ks);
}

/// Inserting an element with a key that is not present adds that key.
pub proof fn lemma_key_map_insert<T: SetKey>(s: Seq<T>, i: int, x: T)
    requires
        strictly_sorted(s),
        strictly_sorted(s.insert(i, x)),
        0 <= i <= s.len(),
    ensures
        key_map(s.insert(i, x)) == key_map(s).insert(x.spec_key(), x),
{
    let t = s.insert(i, x);
    assert forall|k: u64| #![auto] has_key(t, k) == (k == x.spec_key() || has_key(s, k)) by {
        if has_key(t, k) {
            let j = choose|j: int| 0 <= j < t.len() && t[j].spec_key() == k;
            if j < i {
                assert(s[j].spec_key() == k);
            } else if j > i {
                assert(s[j - 1].spec_key() == k);
            }
        }
        if has_key(s, k) {
            let j = choose|j: int| 0 <= j < s.len() && s[j].spec_key() == k;
            if j < i {
                assert(t[j].spec_key() == k);
            } else {
                assert(t[j + 1].spec_key() == k);
            }
        }
        if k == x.spec_key() {
            assert(t[i].spec_key() == k);
        }
    }
    assert forall|k: u64| #[trigger] key_map(t).contains_key(k) implies key_map(t)[k] == key_map(
        s,
    ).insert(x.spec_key(), x)[k] by {
        let j = choose|j: int| 0 <= j < t.len() && t[j].spec_key() == k;
        lemma_entry_of(t, j);
        if j < i {
            assert(t[j] == s[j]);
            assert(t[j].spec_key() < t[i].spec_key());
            lemma_entry_of(s, j);
        } else if j > i {
            assert(t[j] == s[j - 1]);
            assert(t[i].spec_key() < t[j].spec_key());
            lemma_entry_of(s, j - 1);
        } else {
            assert(t[j] == x);
        }
    }
    assert(key_map(t) =~= key_map(s).insert(x.spec_key(), x));
}

/// Removing the element at `i` drops its key.
pub proof fn lemma_key_map_remove<T: SetKey>(s: Seq<T>, i: int)
    requires
        strictly_sorted(s),
        0 <= i < s.len(),
    ensures
        key_map(s.remove(i)) == key_map(s).remove(s[i].spec_key()),
{
    let t = s.remove(i);
    let k0 = s[i].spec_key();
    assert forall|k: u64| #![auto] has_key(t, k) == (k != k0 && has_key(s, k)) by {
        if has_key(t, k) {
            let j = choose|j: int| 0 <= j < t.len() && t[j].spec_key() == k;
            if j < i {
                assert(s[j].spec_key() == k);
                assert(s[j].spec_key() < s[i].spec_key());
            } else {
                assert(s[j + 1].spec_key() == k);
                assert(s[i].spec_key() < s[j + 1].spec_key());
            }
        }
        if k != k0 && has_key(s, k) {
            let j = choose|j: int| 0 <= j < s.len() && s[j].spec_key() == k;
            if j < i {
                assert(t[j].spec_key() == k);
            } else if j > i {
                assert(t[j - 1].spec_key() == k);
            }
        }
    }
    assert forall|k: u64| #[trigger] key_map(t).contains_key(k) implies key_map(t)[k] == key_map(
        s,
    ).remove(k0)[k] by {
        let j = choose|j: int| 0 <= j < t.len() && t[j].spec_key() == k;
        lemma_entry_of(t, j);
        if j < i {
            assert(t[j] == s[j]);
            lemma_entry_of(s, j);
        } else {
            assert(t[j] == s[j + 1]);
            lemma_entry_of(s, j + 1);
        }
    }
    assert(key_map(t) =~= key_map(s).remove(k0));
}

/// A vector with keys in strictly increasing order.
#[derive(Clone, Debug, PartialEq, Eq)]
pub struct OrderedSet<T>(pub Vec<T>);

impl<T: SetKey> OrderedSet<T> {
    /// The elements, in key order.
    pub open spec fn view(&self) -> Seq<T> {
        self.0@
    }

    /// Keys increase strictly along the vector.
    pub open spec fn wf(&self) -> bool {
        strictly_sorted(self.0@)
    }

    /// The empty set.
    pub fn new() -> (r: Self)
        ensures
            r.wf(),
            r.view().len() == 0,
    {
        OrderedSet(Vec::new())
    }

    /// The index of the first element whose key is not below `k`.
    fn lower_bound(&self, k: u64) -> (i: usize)
        requires
            self.wf(),
        ensures
            i <= self.view().len(),
            forall|j: int| 0 <= j < i ==> self.view()[j].spec_key() < k,
            forall|j: int| i <= j < self.view().len() ==> self.view()[j].spec_key() >= k,
    {
        let mut lo: usize = 0;
        let mut hi: usize = self.0.len();
        while lo < hi
            invariant
                self.wf(),
                lo <= hi <= self.view().len(),
                forall|j: int| 0 <= j < lo ==> self.view()[j].spec_key() < k,
                forall|j: int| hi <= j < self.view().len() ==> self.view()[j].spec_key() >= k,
            decreases hi - lo,
        {
            let mid = lo + (hi - lo) / 2;
            if self.0[mid].key() < k {
                lo = mid + 1;
            } else {
                hi = mid;
            }
        }
        lo
    }

    /// Whether an element with the key of `value` is present.
    pub fn contains(&self, value: &T) -> (r: bool)
        requires
            self.wf(),
        ensures
            r == has_key(self.view(), value.spec_key()),
    {
        let k = value.key();
        let i = self.lower_bound(k);
        i < self.0.len() && self.0[i].key() == k
    }

    /// The element with key `k`, if any.
    pub fn get(&self, k: u64) -> (r: Option<&T>)
        requires
            self.wf(),
        ensures
            match r {
                Some(x) => key_map(self.view()).contains_key(k) && *x == key_map(self.view())[k],
                None => !key_map(self.view()).contains_key(k),
            },
    {
        let i = self.lower_bound(k);
        if i < self.0.len() && self.0[i].key() == k {
            proof {
                lemma_entry_of(self.view(), i as int);
            }
            Some(&self.0[i])
        } else {
            proof {
                if has_key(self.view(), k) {
                    let j = choose|j: int| 0 <= j < self.view().len() && self.view()[j].spec_key() == k;
                    if j > i as int {
                        assert(self.view()[i as int].spec_key() < self.view()[j].spec_key());
                    }
                }
            }
            None
        }
    }

    /// Inserts `value` unless an element with its key is present; returns
    /// whether it inserted.
    pub fn insert(&mut self, value: T) -> (r: bool)
        requires
            old(self).wf(),
        ensures
            final(self).wf(),
            r == !has_key(old(self).view(), value.spec_key()),
            !r ==> *final(self) == *old(self),
            r ==> exists|i: int|
                0 <= i <= old(self).view().len() && final(self).view() == old(self).view().insert(
                    i,
                    value,
                ),
    {
        let k = value.key();
        let i = self.lower_bound(k);
        if i < self.0.len() && self.0[i].key() == k {
            false
        } else {
            let ghost old_s = self.view();
            self.0.insert(i, value);
            assert(self.view() == old_s.insert(i as int, value));
            assert forall|a: int, b: int| 0 <= a < b < self.view().len() implies self.view()[a].spec_key()
                < self.view()[b].spec_key() by {
                if b < i {
                } else if a < i && b == i {
                } else if a < i {
                    assert(self.view()[b] == old_s[b - 1]);
                } else if a == i {
                    assert(self.view()[b] == old_s[b - 1]);
                } else {
                    assert(self.view()[a] == old_s[a - 1]);
                    assert(self.view()[b] == old_s[b - 1]);
                }
            }
            true
        }
    }

    /// Removes the element with the key of `value`; returns whether one was present.
    pub fn remove(&mut self, value: &T) -> (r: bool)
        requires
            old(self).wf(),
        ensures
            final(self).wf(),
            r == has_key(old(self).view(), value.spec_key()),
            !r ==> *final(self) == *old(self),
            r ==> exists|i: int|
                0 <= i < old(self).view().len() && old(self).view()[i].spec_key()
                    == value.spec_key() && final(self).view() == old(self).view().remove(i),
    {
        let k = value.key();
        let i = self.lower_bound(k);
        if i < self.0.len() && self.0[i].key() == k {
            let ghost old_s = self.view();
            self.0.remove(i);
            assert(self.view() == old_s.remove(i as int));
            assert forall|a: int, b: int| 0 <= a < b < self.view().len() implies self.view()[a].spec_key()
                < self.view()[b].spec_key() by {
                if b < i {
                } else if a < i {
                    assert(self.view()[b] == old_s[b + 1]);
                } else {
                    assert(self.view()[a] == old_s[a + 1]);
                    assert(self.view()[b] == old_s[b + 1]);
                }
            }
            true
        } else {
            false
        }
    }

    /// Puts `value` in place of the element with its key, or inserts it.
    pub fn upsert(&mut self, value: T)
        requires
            old(self).wf(),
        ensures
            final(self).wf(),
            key_map(final(self).view()) == key_map(old(self).view()).insert(value.spec_key(), value),
            final(self).view().len() == old(self).view().len() + (if has_key(
                old(self).view(),
                value.spec_key(),
            ) {
                0int
            } else {
                1int
            }),
    {
        let k = value.key();
        let i = self.lower_bound(k);
        let ghost old_s = self.view();
        if i < self.0.len() && self.0[i].key() == k {
            self.0.set(i, value);
            let ghost new_s = self.view();
            assert(new_s == old_s.update(i as int, value));
            assert forall|a: int, b: int| 0 <= a < b < new_s.len() implies new_s[a].spec_key()
                < new_s[b].spec_key() by {
                if a == i as int {
                    assert(old_s[a].spec_key() < old_s[b].spec_key());
                } else if b == i as int {
                    assert(old_s[a].spec_key() < old_s[b].spec_key());
                } else {
                    assert(old_s[a].spec_key() < old_s[b].spec_key());
                }
            }
            assert(has_key(old_s, k)) by {
                assert(old_s[i as int].spec_key() == k);
            }
            assert forall|kk: u64| #![auto] has_key(new_s, kk) == (kk == k || has_key(old_s, kk)) by {
                if has_key(new_s, kk) {
                    let j = choose|j: int| 0 <= j < new_s.len() && new_s[j].spec_key() == kk;
                    if j != i as int {
                        assert(old_s[j].spec_key() == kk);
                    }
                }
                if has_key(old_s, kk) {
                    let j = choose|j: int| 0 <= j < old_s.len() && old_s[j].spec_key() == kk;
                    assert(new_s[j].spec_key() == kk);
                }
                if kk == k {
                    assert(new_s[i as int].spec_key() == kk);
                }
            }
            assert(key_map(new_s) =~= key_map(old_s).insert(k, value)) by {
                assert forall|kk: u64| #[trigger] key_map(new_s).contains_key(kk) implies key_map(
                    new_s,
                )[kk] == key_map(old_s).insert(k, value)[kk] by {
                    let j = choose|j: int| 0 <= j < new_s.len() && new_s[j].spec_key() == kk;
                    lemma_entry_of(new_s, j);
                    if j != i as int {
                        lemma_entry_of(old_s, j);
                    }
                }
            }
        } else {
            self.0.insert(i, value);
            let ghost new_s = self.view();
            assert(new_s == old_s.insert(i as int, value));
            assert forall|a: int, b: int| 0 <= a < b < new_s.len() implies new_s[a].spec_key()
                < new_s[b].spec_key() by {
                if b < i {
                } else if a < i && b == i {
                } else if a < i {
                    assert(new_s[b] == old_s[b - 1]);
                } else if a == i {
                    assert(new_s[b] == old_s[b - 1]);
                } else {
                    assert(new_s[a] == old_s[a - 1]);
                    assert(new_s[b] == old_s[b - 1]);
                }
            }
            assert(!has_key(old_s, k)) by {
                if has_key(old_s, k) {
                    let j = choose|j: int| 0 <= j < old_s.len() && old_s[j].spec_key() == k;
                    if j < i as int {
                    } else {
                    }
                }
            }
            assert forall|kk: u64| #![auto] has_key(new_s, kk) == (kk == k || has_key(old_s, kk)) by {
                if has_key(new_s, kk) {
                    let j = choose|j: int| 0 <= j < new_s.len() && new_s[j].spec_key() == kk;
                    if j < i as int {
                        assert(old_s[j].spec_key() == kk);
                    } else if j > i as int {
                        assert(old_s[j - 1].spec_key() == kk);
                    }
                }
                if has_key(old_s, kk) {
                    let j = choose|j: int| 0 <= j < old_s.len() && old_s[j].spec_key() == kk;
                    if j < i as int {
                        assert(new_s[j].spec_key() == kk);
                    } else {
                        assert(new_s[j + 1].spec_key() == kk);
                    }
                }
                if kk == k {
                    assert(new_s[i as int].spec_key() == kk);
                }
            }
            assert(key_map(new_s) =~= key_map(old_s).insert(k, value)) by {
                assert forall|kk: u64| #[trigger] key_map(new_s).contains_key(kk) implies key_map(
                    new_s,
                )[kk] == key_map(old_s).insert(k, value)[kk] by {
                    let j = choose|j: int| 0 <= j < new_s.len() && new_s[j].spec_key() == kk;
                    lemma_entry_of(new_s, j);
                    if j < i as int {
                        lemma_entry_of(old_s, j);
                    } else if j > i as int {
                        lemma_entry_of(old_s, j - 1);
                    }
                }
            }
        }
    }

    /// The number of elements.
    pub fn len(&self) -> (r: usize)
        ensures
            r == self.view().len(),
    {
        self.0.len()
    }
}

} // verus!
