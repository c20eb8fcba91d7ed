//! Valuing candidate bonds, folding aggregated collators into their aggregators,
//! and choosing the block authors of a round.

use crate::arith::multiply_by_rational_down;
use crate::bond::Bond;
use crate::ordered_set::{has_key, key_map, lemma_entry_of, strictly_sorted, OrderedSet};
use crate::payout::RewardEntry;
use crate::{AccountId, Balance, CurrencyId};
use std::collections::BTreeMap;
use vstd::prelude::*;

verus! {

broadcast use vstd::std_specs::btree::group_btree_axioms;

/// The valuation of `b`: half its amount in the native token; in a listed
/// liquidity token with pool reserves `(r1, r2)`, `r1 != 0`, its amount times
/// `r1 / r2` rounded down (or `u128::MAX` when that is not a `u128`); no
/// valuation otherwise.
pub open spec fn valuation_of(b: Bond, native: CurrencyId, pools: Map<CurrencyId, Option<(Balance, Balance)>>) -> Option<Balance> {
    if b.liquidity_token == native {
        Some(b.amount / 2)
    } else if pools.contains_key(b.liquidity_token) && pools[b.liquidity_token] is Some
        && pools[b.liquidity_token].unwrap().0 != 0 {
        let (r1, r2) = pools[b.liquidity_token].unwrap();
        if r2 != 0 && b.amount * r1 / (r2 as int) <= u128::MAX {
            Some((b.amount * r1 / (r2 as int)) as u128)
        } else {
            Some(u128::MAX)
        }
    } else {
        None
    }
}

/// The valued bonds of `cands`, in order, as (owner, valuation).
pub open spec fn valuated(cands: Seq<Bond>, native: CurrencyId, pools: Map<CurrencyId, Option<(Balance, Balance)>>) -> Seq<RewardEntry>
    decreases cands.len(),
{
    if cands.len() == 0 {
        Seq::empty()
    } else {
        let rest = valuated(cands.drop_last(), native, pools);
        match valuation_of(cands.last(), native, pools) {
            Some(v) => rest.push(RewardEntry { account: cands.last().owner, amount: v }),
            None => rest,
        }
    }
}

/// The valuation of each candidate bond in `cands` that can be valued, in order.
pub fn valuate_bonds(cands: &Vec<Bond>, native: CurrencyId, pools: &BTreeMap<CurrencyId, Option<(Balance, Balance)>>) -> (r: Vec<RewardEntry>)
    ensures
        r@ == valuated(cands@, native, pools@),
{
    let mut r: Vec<RewardEntry> = Vec::new();
    let mut i: usize = 0;
    while i < cands.len()
        invariant
            i <= cands@.len(),
            r@ == valuated(cands@.take(i as int), native, pools@),
        decreases cands@.len() - i,
    {
        let b = cands[i];
        proof {
            assert(cands@.take(i as int + 1).drop_last() == cands@.take(i as int));
            assert(cands@.take(i as int + 1).last() == b);
        }
        if b.liquidity_token == native {
            r.push(RewardEntry { account: b.owner, amount: b.amount / 2 });
        } else {
            match pools.get(&b.liquidity_token) {
                Some(Some(reserves)) => {
                    let (r1, r2) = *reserves;
                    if r1 != 0 {
                        let v = match multiply_by_rational_down(b.amount, r1, r2) {
                            Some(v) => v,
                            None => u128::MAX,
                        };
                        r.push(RewardEntry { account: b.owner, amount: v });
                    }
                },
                _ => {},
            }
        }
        i = i + 1;
    }
    proof {
        assert(cands@.take(i as int) == cands@);
    }
    r
}

/// `a + b`, saturating at `u128::MAX`.
pub open spec fn sat_add_u128(a: u128, b: u128) -> u128 {
    if a + b > u128::MAX {
        u128::MAX
    } else {
        (a + b) as u128
    }
}

/// The summed valuations of aggregators, over the valued bonds `vbs` whose
/// owners aggregate under one (`aggs` maps collator to aggregator).
pub open spec fn aggregated_totals(vbs: Seq<RewardEntry>, aggs: Map<AccountId, AccountId>) -> Map<u64, RewardEntry>
    decreases vbs.len(),
{
    if vbs.len() == 0 {
        Map::empty()
    } else {
        let m = aggregated_totals(vbs.drop_last(), aggs);
        let e = vbs.last();
        if aggs.contains_key(e.account) {
            let a = aggs[e.account];
            let before: u128 = if m.contains_key(a) {
                m[a].amount
            } else {
                0
            };
            m.insert(a, RewardEntry { account: a, amount: sat_add_u128(before, e.amount) })
        } else {
            m
        }
    }
}

/// `m` with the valued bonds of `vbs` whose owners do not aggregate put in,
/// each under its owner.
pub open spec fn with_solo(m: Map<u64, RewardEntry>, vbs: Seq<RewardEntry>, aggs: Map<AccountId, AccountId>) -> Map<u64, RewardEntry>
    decreases vbs.len(),
{
    if vbs.len() == 0 {
        m
    } else {
        let m2 = with_solo(m, vbs.drop_last(), aggs);
        let e = vbs.last();
        if aggs.contains_key(e.account) {
            m2
        } else {
            m2.insert(e.account, e)
        }
    }
}

/// The valuation of every author of a round: each aggregator with the sum of
/// its collators' valuations, each collator that does not aggregate with its own.
pub fn calculate_collators_valuations(vbs: &Vec<RewardEntry>, aggs: &BTreeMap<AccountId, AccountId>) -> (r: OrderedSet<RewardEntry>)
    ensures
        r.wf(),
        key_map(r.view()) == with_solo(aggregated_totals(vbs@, aggs@), vbs@, aggs@),
{
    let mut r: OrderedSet<RewardEntry> = OrderedSet::new();
    proof {
        assert(key_map(r.view()) =~= Map::<u64, RewardEntry>::empty());
    }
    let mut i: usize = 0;
    while i < vbs.len()
        invariant
            i <= vbs@.len(),
            r.wf(),
            key_map(r.view()) == aggregated_totals(vbs@.take(i as int), aggs@),
        decreases vbs@.len() - i,
    {
        let e = vbs[i];
        proof {
            assert(vbs@.take(i as int + 1).drop_last() == vbs@.take(i as int));
            assert(vbs@.take(i as int + 1).last() == e);
        }
        match aggs.get(&e.account) {
            Some(a) => {
                let a = *a;
                let before = match r.get(a) {
                    Some(x) => x.amount,
                    None => 0,
                };
                r.upsert(RewardEntry { account: a, amount: before.saturating_add(e.amount) });
            },
            None => {},
        }
        i = i + 1;
    }
    proof {
        assert(vbs@.take(i as int) == vbs@);
    }
    let ghost base = key_map(r.view());
    let mut j: usize = 0;
    while j < vbs.len()
        invariant
            j <= vbs@.len(),
            r.wf(),
            key_map(r.view()) == with_solo(base, vbs@.take(j as int), aggs@),
        decreases vbs@.len() - j,
    {
        let e = vbs[j];
        proof {
            assert(vbs@.take(j as int + 1).drop_last() == vbs@.take(j as int));
            assert(vbs@.take(j as int + 1).last() == e);
        }
        if !aggs.contains_key(&e.account) {
            r.upsert(e);
        }
        j = j + 1;
    }
    proof {
        assert(vbs@.take(j as int) == vbs@);
    }
    r
}

/// For each aggregator, the valued bonds of its collators, by collator.
pub open spec fn aggregator_info(vbs: Seq<RewardEntry>, aggs: Map<AccountId, AccountId>) -> Map<u64, Map<u64, RewardEntry>>
    decreases vbs.len(),
{
    if vbs.len() == 0 {
        Map::empty()
    } else {
        let m = aggregator_info(vbs.drop_last(), aggs);
        let e = vbs.last();
        if aggs.contains_key(e.account) {
            let a = aggs[e.account];
            let inner = if m.contains_key(a) {
                m[a]
            } else {
                Map::empty()
            };
            m.insert(a, inner.insert(e.account, e))
        } else {
            m
        }
    }
}

/// A map of ordered sets, each read as a map by key.
pub open spec fn nested_view(m: Map<u64, OrderedSet<RewardEntry>>) -> Map<u64, Map<u64, RewardEntry>> {
    m.map_values(|s: OrderedSet<RewardEntry>| key_map(s.view()))
}

/// Every set in `m` is well formed.
pub open spec fn nested_wf(m: Map<u64, OrderedSet<RewardEntry>>) -> bool {
    forall|k: u64| #[trigger] m.contains_key(k) ==> m[k].wf()
}

/// For each aggregator, its collators and their valuations.
pub fn calculate_aggregators_collator_info(vbs: &Vec<RewardEntry>, aggs: &BTreeMap<AccountId, AccountId>) -> (r: BTreeMap<AccountId, OrderedSet<RewardEntry>>)
    ensures
        nested_wf(r@),
        nested_view(r@) == aggregator_info(vbs@, aggs@),
{
    let mut r: BTreeMap<AccountId, OrderedSet<RewardEntry>> = BTreeMap::new();
    proof {
        assert(nested_view(r@) =~= Map::<u64, Map<u64, RewardEntry>>::empty());
    }
    let mut i: usize = 0;
    while i < vbs.len()
        invariant
            i <= vbs@.len(),
            nested_wf(r@),
            nested_view(r@) == aggregator_info(vbs@.take(i as int), aggs@),
        decreases vbs@.len() - i,
    {
        let e = vbs[i];
        proof {
            assert(vbs@.take(i as int + 1).drop_last() == vbs@.take(i as int));
            assert(vbs@.take(i as int + 1).last() == e);
        }
        match aggs.get(&e.account) {
            Some(a) => {
                let a = *a;
                let ghost before = r@;
                let mut inner = match r.remove(&a) {
                    Some(s) => s,
                    None => OrderedSet::new(),
                };
                proof {
                    if !before.contains_key(a) {
                        assert(key_map(inner.view()) =~= Map::<u64, RewardEntry>::empty());
                    }
                }
                inner.upsert(e);
                r.insert(a, inner);
                proof {
                    assert(nested_view(r@) =~= nested_view(before).insert(a, key_map(inner.view())));
                }
            },
            None => {},
        }
        i = i + 1;
    }
    proof {
        assert(vbs@.take(i as int) == vbs@);
    }
    r
}

/// `x` ranks above `y`: a greater valuation, or the same one and a greater account.
pub open spec fn ranks_above(x: RewardEntry, y: RewardEntry) -> bool {
    x.amount > y.amount || (x.amount == y.amount && x.account > y.account)
}

/// The entries of `l` valued at least `min`.
pub open spec fn eligible(l: Seq<RewardEntry>, min: Balance) -> Seq<RewardEntry> {
    l.filter(|e: RewardEntry| e.amount >= min)
}

/// How many entries of `l` rank above `x`.
pub open spec fn rank_in(l: Seq<RewardEntry>, x: RewardEntry) -> nat {
    l.filter(|y: RewardEntry| ranks_above(y, x)).len()
}

/// The entries of `l` with fewer than `n` entries of `l` ranking above them.
pub open spec fn top_ranked(l: Seq<RewardEntry>, n: nat) -> Seq<RewardEntry> {
    l.filter(|x: RewardEntry| rank_in(l, x) < n)
}

/// The entries of `l` valued at least `min`, in order.
fn filter_eligible(l: &Vec<RewardEntry>, min: Balance) -> (r: Vec<RewardEntry>)
    ensures
        r@ == eligible(l@, min),
{
    let mut r: Vec<RewardEntry> = Vec::new();
    let mut i: usize = 0;
    while i < l.len()
        invariant
            i <= l@.len(),
            r@ == eligible(l@.take(i as int), min),
        decreases l@.len() - i,
    {
        proof {
            l@.take(i as int).lemma_filter_push(l@[i as int], |e: RewardEntry| e.amount >= min);
            assert(l@.take(i as int).push(l@[i as int]) == l@.take(i as int + 1));
        }
        if l[i].amount >= min {
            r.push(l[i]);
        }
        i = i + 1;
    }
    proof {
        assert(l@.take(i as int) == l@);
    }
    r
}

/// How many entries of `l` rank above `x`.
fn count_ranking_above(l: &Vec<RewardEntry>, x: RewardEntry) -> (r: usize)
    ensures
        r == rank_in(l@, x),
{
    let mut c: usize = 0;
    let mut i: usize = 0;
    while i < l.len()
        invariant
            i <= l@.len(),
            c == rank_in(l@.take(i as int), x),
            c <= i,
        decreases l@.len() - i,
    {
        proof {
            l@.take(i as int).lemma_filter_push(l@[i as int], |y: RewardEntry| ranks_above(y, x));
            assert(l@.take(i as int).push(l@[i as int]) == l@.take(i as int + 1));
        }
        let y = l[i];
        if y.amount > x.amount || (y.amount == x.amount && y.account > x.account) {
            c = c + 1;
        }
        i = i + 1;
    }
    proof {
        assert(l@.take(i as int) == l@);
    }
    c
}

/// The block authors of a round and the collators behind them.
///
/// Among the authors valued at least `min_collator_stk`, the `total_selected`
/// ranking highest (greatest valuation first; between equal valuations the
/// greater account first) are chosen, in account order. Then each chosen
/// aggregator stands for its collators, in account order, and each chosen
/// solo collator for itself.
pub fn compute_top_candidates(
    valuations: &OrderedSet<RewardEntry>,
    agg_info: &BTreeMap<AccountId, OrderedSet<RewardEntry>>,
    min_collator_stk: Balance,
    total_selected: u32,
) -> (r: (Vec<RewardEntry>, Vec<RewardEntry>))
    requires
        nested_wf(agg_info@),
    ensures
        r.0@ == top_ranked(eligible(valuations.view(), min_collator_stk), total_selected as nat),
        r.1@ == expand_authors(r.0@, agg_info@),
{
    let filtered = filter_eligible(&valuations.0, min_collator_stk);
    let top_n = total_selected as usize;
    let mut selected: Vec<RewardEntry> = Vec::new();
    let ghost l = filtered@;
    let mut i: usize = 0;
    while i < filtered.len()
        invariant
            l == filtered@,
            i <= l.len(),
            top_n == total_selected,
            selected@ == l.take(i as int).filter(|x: RewardEntry| rank_in(l, x) < total_selected as nat),
        decreases l.len() - i,
    {
        proof {
            l.take(i as int).lemma_filter_push(l[i as int], |x: RewardEntry| rank_in(l, x) < total_selected as nat);
            assert(l.take(i as int).push(l[i as int]) == l.take(i as int + 1));
        }
        let above = count_ranking_above(&filtered, filtered[i]);
        if above < top_n {
            selected.push(filtered[i]);
        }
        i = i + 1;
    }
    proof {
        assert(l.take(i as int) == l);
    }
    let mut all: Vec<RewardEntry> = Vec::new();
    let mut j: usize = 0;
    while j < selected.len()
        invariant
            j <= selected@.len(),
            nested_wf(agg_info@),
            all@ == expand_authors(selected@.take(j as int), agg_info@),
        decreases selected@.len() - j,
    {
        let author = selected[j];
        proof {
            assert(selected@.take(j as int + 1).drop_last() == selected@.take(j as int));
            assert(selected@.take(j as int + 1).last() == author);
        }
        match agg_info.get(&author.account) {
            Some(inner) => {
                let mut k: usize = 0;
                let ghost start = all@;
                while k < inner.0.len()
                    invariant
                        k <= inner.view().len(),
                        all@ == start + inner.view().take(k as int),
                    decreases inner.view().len() - k,
                {
                    all.push(inner.0[k]);
                    proof {
                        assert(inner.view().take(k as int + 1) == inner.view().take(k as int).push(inner.view()[k as int]));
                    }
                    k = k + 1;
                }
                proof {
                    assert(inner.view().take(k as int) == inner.view());
                }
            },
            None => {
                all.push(author);
            },
        }
        j = j + 1;
    }
    proof {
        assert(selected@.take(j as int) == selected@);
    }
    (selected, all)
}

/// Each author of `authors` in turn replaced by the collators it aggregates
/// (the entries of its set in `info`, in order), or kept when it aggregates none.
pub open spec fn expand_authors(authors: Seq<RewardEntry>, info: Map<u64, OrderedSet<RewardEntry>>) -> Seq<RewardEntry>
    decreases authors.len(),
{
    if authors.len() == 0 {
        Seq::empty()
    } else {
        let rest = expand_authors(authors.drop_last(), info);
        let a = authors.last();
        if info.contains_key(a.account) {
            rest + info[a.account].view()
        } else {
            rest.push(a)
        }
    }
}

/// `k` is the account of some entry of `vbs`.
pub open spec fn has_account(vbs: Seq<RewardEntry>, k: u64) -> bool {
    exists|i: int| 0 <= i < vbs.len() && vbs[i].account == k
}

/// Every valued bond belongs to an owner of one of the bonds.
pub proof fn lemma_valuated_owners(cands: Seq<Bond>, native: CurrencyId, pools: Map<CurrencyId, Option<(Balance, Balance)>>, k: u64)
    requires
        has_account(valuated(cands, native, pools), k),
    ensures
        exists|j: int| 0 <= j < cands.len() && cands[j].owner == k,
    decreases cands.len(),
{
    let v = valuated(cands, native, pools);
    let rest = valuated(cands.drop_last(), native, pools);
    let i = choose|i: int| 0 <= i < v.len() && v[i].account == k;
    if i < rest.len() {
        assert(v[i] == rest[i]);
        lemma_valuated_owners(cands.drop_last(), native, pools, k);
        let j = choose|j: int| 0 <= j < cands.drop_last().len() && cands.drop_last()[j].owner == k;
        assert(cands[j].owner == k);
    } else {
        assert(cands[cands.len() - 1].owner == k);
    }
}

/// An aggregator's total is recorded just where its collators are.
pub proof fn lemma_totals_are_aggregators(vbs: Seq<RewardEntry>, aggs: Map<AccountId, AccountId>, k: u64)
    requires
        aggregated_totals(vbs, aggs).contains_key(k),
    ensures
        aggregator_info(vbs, aggs).contains_key(k),
    decreases vbs.len(),
{
    if vbs.len() > 0 {
        let e = vbs.last();
        if !(aggs.contains_key(e.account) && aggs[e.account] == k) {
            lemma_totals_are_aggregators(vbs.drop_last(), aggs, k);
        }
    }
}

/// What `with_solo` adds are accounts of `vbs`.
pub proof fn lemma_with_solo_keys(m: Map<u64, RewardEntry>, vbs: Seq<RewardEntry>, aggs: Map<AccountId, AccountId>, k: u64)
    requires
        with_solo(m, vbs, aggs).contains_key(k),
    ensures
        m.contains_key(k) || has_account(vbs, k),
    decreases vbs.len(),
{
    if vbs.len() > 0 {
        let e = vbs.last();
        if !aggs.contains_key(e.account) && e.account == k {
            assert(vbs[vbs.len() - 1].account == k);
        } else {
            lemma_with_solo_keys(m, vbs.drop_last(), aggs, k);
            if has_account(vbs.drop_last(), k) {
                let i = choose|i: int| 0 <= i < vbs.drop_last().len() && vbs.drop_last()[i].account == k;
                assert(vbs[i].account == k);
            }
        }
    }
}

/// The collators listed under an aggregator are accounts of `vbs`.
pub proof fn lemma_info_members(vbs: Seq<RewardEntry>, aggs: Map<AccountId, AccountId>, a: u64, k: u64)
    requires
        aggregator_info(vbs, aggs).contains_key(a),
        aggregator_info(vbs, aggs)[a].contains_key(k),
    ensures
        has_account(vbs, k),
    decreases vbs.len(),
{
    if vbs.len() > 0 {
        let e = vbs.last();
        let m = aggregator_info(vbs.drop_last(), aggs);
        if aggs.contains_key(e.account) && aggs[e.account] == a && e.account == k {
            assert(vbs[vbs.len() - 1].account == k);
        } else {
            lemma_info_members(vbs.drop_last(), aggs, a, k);
            let i = choose|i: int| 0 <= i < vbs.drop_last().len() && vbs.drop_last()[i].account == k;
            assert(vbs[i].account == k);
        }
    }
}

/// What a filter keeps was there.
pub proof fn lemma_filter_in<A>(s: Seq<A>, p: spec_fn(A) -> bool, x: A)
    requires
        s.filter(p).contains(x),
    ensures
        s.contains(x),
    decreases s.len(),
{
    reveal(Seq::filter);
    if s.len() > 0 {
        let f = s.drop_last().filter(p);
        let i = choose|i: int| 0 <= i < s.filter(p).len() && s.filter(p)[i] == x;
        if p(s.last()) && i == f.len() {
            assert(s[s.len() - 1] == x);
        } else {
            assert(f[i] == x);
            lemma_filter_in(s.drop_last(), p, x);
            let j = choose|j: int| 0 <= j < s.drop_last().len() && s.drop_last()[j] == x;
            assert(s[j] == x);
        }
    }
}

/// Each entry of `expand_authors(authors, info)` is a collator listed under
/// one of the authors in `info`, or an author that `info` does not list.
pub proof fn lemma_expand_authors(authors: Seq<RewardEntry>, info: Map<u64, OrderedSet<RewardEntry>>, y: RewardEntry)
    requires
        expand_authors(authors, info).contains(y),
    ensures
        (exists|a: u64| #[trigger] info.contains_key(a) && info[a].view().contains(y))
            || (authors.contains(y) && !info.contains_key(y.account)),
    decreases authors.len(),
{
    if authors.len() > 0 {
        let rest = expand_authors(authors.drop_last(), info);
        let a = authors.last();
        let e = expand_authors(authors, info);
        let i = choose|i: int| 0 <= i < e.len() && e[i] == y;
        if i < rest.len() {
            assert(rest[i] == y);
            lemma_expand_authors(authors.drop_last(), info, y);
            if authors.drop_last().contains(y) {
                let j = choose|j: int| 0 <= j < authors.drop_last().len() && authors.drop_last()[j] == y;
                assert(authors[j] == y);
            }
        } else if info.contains_key(a.account) {
            assert(info[a.account].view()[i - rest.len()] == y);
        } else {
            assert(authors[authors.len() - 1] == y);
        }
    }
}

/// Filtering by a weaker predicate keeps at least as much, and more when the
/// sequence holds an element that only the weaker one accepts.
proof fn lemma_filter_len_le<A>(l: Seq<A>, p: spec_fn(A) -> bool, q: spec_fn(A) -> bool, w: A)
    requires
        forall|z: A| #[trigger] p(z) ==> q(z),
    ensures
        l.filter(p).len() <= l.filter(q).len(),
        l.contains(w) && q(w) && !p(w) ==> l.filter(p).len() < l.filter(q).len(),
    decreases l.len(),
{
    reveal(Seq::filter);
    if l.len() > 0 {
        lemma_filter_len_le(l.drop_last(), p, q, w);
        if l.contains(w) && q(w) && !p(w) && !l.drop_last().contains(w) {
            let i = choose|i: int| 0 <= i < l.len() && l[i] == w;
            if i < l.len() - 1 {
                assert(l.drop_last()[i] == w);
            }
        }
        if l.drop_last().contains(w) {
            let i = choose|i: int| 0 <= i < l.drop_last().len() && l.drop_last()[i] == w;
            assert(l[i] == w);
        }
    }
}

/// The choice of authors is by rank: each chosen author ranks above every
/// eligible author left out.
pub proof fn law_chosen_rank_above(l: Seq<RewardEntry>, n: nat, x: RewardEntry, y: RewardEntry)
    requires
        top_ranked(l, n).contains(x),
        l.contains(y),
        !top_ranked(l, n).contains(y),
    ensures
        ranks_above(x, y),
{
    let pick = |e: RewardEntry| rank_in(l, e) < n;
    l.filter_lemma(pick);
    let i = choose|i: int| 0 <= i < top_ranked(l, n).len() && top_ranked(l, n)[i] == x;
    assert(rank_in(l, x) < n);
    lemma_filter_in(l, pick, x);
    let j = choose|j: int| 0 <= j < l.len() && l[j] == y;
    if rank_in(l, y) < n {
        l.lemma_filter_contains(pick, j);
    }
    assert(rank_in(l, y) >= n);
    if !ranks_above(x, y) {
        assert(x != y);
        assert(ranks_above(y, x));
        let above_y = |z: RewardEntry| ranks_above(z, y);
        let above_x = |z: RewardEntry| ranks_above(z, x);
        lemma_filter_len_le(l, above_y, above_x, y);
        assert(false);
    }
}

} // verus!
