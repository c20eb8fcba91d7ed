//! The start of a round: the staking liquidity tokens are valued anew, the
//! block authors are chosen, the collators behind them are snapshotted, and
//! the round moves on.

use crate::bond::Bond;
use crate::candidate::{CollatorCandidate, CollatorSnapshot};
use crate::ordered_set::{key_map, lemma_entry_of, strictly_sorted, OrderedSet, SetKey};
use crate::payout::RewardEntry;
use crate::round::{sat_add_u64, RoundInfo};
use crate::round_rewards::{aggregator_info_bounded, paid_out, payout_frame, snapshots_bounded};
use crate::selection::{
    aggregated_totals, aggregator_info, calculate_aggregators_collator_info, calculate_collators_valuations,
    compute_top_candidates, eligible, expand_authors, has_account, lemma_expand_authors, lemma_filter_in,
    lemma_info_members, lemma_totals_are_aggregators, lemma_valuated_owners, nested_view, nested_wf, rank_in,
    top_ranked, valuate_bonds, valuated, with_solo,
};
use crate::staking::Staking;
use crate::staking_events::{Error, Event};
use crate::{AccountId, Balance, CurrencyId, RoundIndex};
use std::collections::BTreeMap;
use vstd::prelude::*;
use vstd::std_specs::iter::IteratorSpec;

verus! {

broadcast use vstd::std_specs::btree::group_btree_axioms;

/// The pool state `states` gives for `token`, none when it gives nothing.
pub open spec fn pool_state_of(states: Map<CurrencyId, Option<(Balance, Balance)>>, token: CurrencyId) -> Option<(Balance, Balance)> {
    if states.contains_key(token) {
        states[token]
    } else {
        None
    }
}

/// `t` lists the staking liquidity tokens of `s`, each with the pool state
/// `states` gives for it.
pub open spec fn snapshot_taken(s: Staking, t: Staking, states: Map<CurrencyId, Option<(Balance, Balance)>>) -> bool {
    &&& t.staking_liquidity_tokens@.dom() == s.staking_liquidity_tokens@.dom()
    &&& forall|k: CurrencyId| #[trigger] t.staking_liquidity_tokens@.contains_key(k)
        ==> t.staking_liquidity_tokens@[k] == pool_state_of(states, k)
    &&& t == (Staking { staking_liquidity_tokens: t.staking_liquidity_tokens, ..s })
}

/// The keys of `m`, each once.
fn token_keys<V>(m: &BTreeMap<CurrencyId, V>) -> (r: Vec<CurrencyId>)
    ensures
        r@.to_set() == m@.dom(),
        r@.no_duplicates(),
{
    broadcast use vstd::laws_cmp::group_laws_cmp;
    let ghost all: Seq<CurrencyId> = vstd::std_specs::btree::spec_keys_iter(m).remaining().unref();
    assert(all.to_set() == m@.dom() && all.no_duplicates());
    let mut v: Vec<CurrencyId> = Vec::new();
    for k in it: m.keys()
        invariant
            v@.len() == it.index(),
            it.seq().unref() == all,
            forall|i: int| 0 <= i < v@.len() ==> v@[i] == *it.seq()[i],
    {
        v.push(*k);
    }
    assert(v@ =~= all);
    v
}

/// The snapshot of candidate `c`: its self bond, counted delegations, counted
/// total and token.
pub open spec fn snapshot_of(c: CollatorCandidate) -> CollatorSnapshot {
    CollatorSnapshot { bond: c.bond, delegations: c.top_delegations, total: c.total_counted, liquidity_token: c.liquidity_token }
}

/// Takes the snapshot of `c`.
fn take_snapshot(c: &CollatorCandidate) -> (r: CollatorSnapshot)
    ensures
        r.bond == c.bond,
        r.delegations@ == c.top_delegations@,
        r.total == c.total_counted,
        r.liquidity_token == c.liquidity_token,
{
    let mut v: Vec<Bond> = Vec::new();
    let mut i: usize = 0;
    while i < c.top_delegations.len()
        invariant
            i <= c.top_delegations@.len(),
            v@ == c.top_delegations@.take(i as int),
        decreases c.top_delegations@.len() - i,
    {
        v.push(c.top_delegations[i]);
        i = i + 1;
        proof {
            assert(v@ == c.top_delegations@.take(i as int));
        }
    }
    proof {
        assert(c.top_delegations@.take(i as int) == c.top_delegations@);
    }
    CollatorSnapshot { bond: c.bond, delegations: v, total: c.total_counted, liquidity_token: c.liquidity_token }
}

impl Staking {
    /// The valued bonds of the candidate pool under the listed pools' states.
    pub open spec fn pool_valued(&self) -> Seq<RewardEntry> {
        valuated(self.candidate_pool@, self.config.native_token_id, self.staking_liquidity_tokens@)
    }

    /// Every bond of the candidate pool belongs to a candidate.
    pub open spec fn pool_of_candidates(&self) -> bool {
        forall|j: int| 0 <= j < self.candidate_pool@.len() ==> self.candidate_state@.contains_key(
            #[trigger] self.candidate_pool@[j].owner,
        )
    }

    /// Records each listed staking liquidity token's pool state, as
    /// `pool_states` gives it (the runtime's valuator gives the states).
    pub fn staking_liquidity_tokens_snapshot(&mut self, pool_states: &BTreeMap<CurrencyId, Option<(Balance, Balance)>>)
        ensures
            snapshot_taken(*old(self), *final(self), pool_states@),
    {
        let keys = token_keys(&self.staking_liquidity_tokens);
        let mut next: BTreeMap<CurrencyId, Option<(Balance, Balance)>> = BTreeMap::new();
        let mut i: usize = 0;
        proof {
            assert(keys@.take(0).to_set() =~= Set::<CurrencyId>::empty());
        }
        while i < keys.len()
            invariant
                i <= keys@.len(),
                keys@.to_set() == self.staking_liquidity_tokens@.dom(),
                next@.dom() == keys@.take(i as int).to_set(),
                forall|k: CurrencyId| #[trigger] next@.contains_key(k) ==> next@[k] == pool_state_of(pool_states@, k),
            decreases keys@.len() - i,
        {
            let k = keys[i];
            let state = match pool_states.get(&k) {
                Some(v) => *v,
                None => None,
            };
            next.insert(k, state);
            proof {
                assert(keys@.take(i as int + 1) == keys@.take(i as int).push(k));
                keys@.take(i as int).lemma_push_to_set_commute(k);
                assert(next@.dom() =~= keys@.take(i as int + 1).to_set());
            }
            i = i + 1;
        }
        proof {
            assert(keys@.take(i as int) == keys@);
        }
        self.staking_liquidity_tokens = next;
    }

    /// The valuation of every author of the round (aggregators with their
    /// collators' valuations added up) and each aggregator's collators, from
    /// the candidate pool and the listed pools' states.
    pub fn calculate_valuations_and_aggregation_info(&self) -> (r: (OrderedSet<RewardEntry>, BTreeMap<AccountId, OrderedSet<RewardEntry>>))
        ensures
            r.0.wf(),
            key_map(r.0@) == with_solo(
                aggregated_totals(self.pool_valued(), self.candidate_aggregator@),
                self.pool_valued(),
                self.candidate_aggregator@,
            ),
            nested_wf(r.1@),
            nested_view(r.1@) == aggregator_info(self.pool_valued(), self.candidate_aggregator@),
    {
        let vbs = valuate_bonds(&self.candidate_pool.0, self.config.native_token_id, &self.staking_liquidity_tokens);
        let valuations = calculate_collators_valuations(&vbs, &self.candidate_aggregator);
        let info = calculate_aggregators_collator_info(&vbs, &self.candidate_aggregator);
        (valuations, info)
    }
}

/// The authors chosen from the valuations `vals`.
pub open spec fn chosen(vals: Seq<RewardEntry>, min: Balance, n: u32) -> Seq<RewardEntry> {
    top_ranked(eligible(vals, min), n as nat)
}

/// `e` added to `total`, saturating at `u32::MAX`.
pub open spec fn sat_add_u32(a: u32, b: int) -> u32 {
    if a + b > u32::MAX {
        u32::MAX
    } else {
        (a + b) as u32
    }
}

/// The collators counted, delegations counted and exposure of the snapshots
/// of `all`, as the round's selection adds them up (each saturating).
pub open spec fn selection_counts(s: Staking, all: Seq<RewardEntry>) -> (u32, u32, Balance)
    decreases all.len(),
{
    if all.len() == 0 {
        (0, 0, 0)
    } else {
        let (c, d, t) = selection_counts(s, all.drop_last());
        let e = all.last();
        (
            sat_add_u32(c, 1),
            sat_add_u32(d, (s.candidate_state@[e.account].delegators@.len() as u32) as int),
            crate::selection::sat_add_u128(t, e.amount),
        )
    }
}

/// `t` is `s` after the collators `all` were chosen for round `now`: each
/// has the snapshot of its candidate state for the round, others keep theirs.
pub open spec fn snapshots_taken(s: Staking, t: Staking, now: RoundIndex, all: Seq<RewardEntry>) -> bool {
    let before = if s.at_stake@.contains_key(now) {
        s.at_stake@[now]@
    } else {
        Map::empty()
    };
    &&& t.at_stake@.dom() == s.at_stake@.dom().insert(now)
    &&& forall|q: RoundIndex| q != now && #[trigger] s.at_stake@.contains_key(q) ==> t.at_stake@[q] == s.at_stake@[q]
    &&& forall|c: AccountId| #[trigger] t.at_stake@[now]@.contains_key(c) <==> before.contains_key(c) || has_account(all, c)
    &&& forall|c: AccountId| #[trigger] has_account(all, c) ==> {
        let snap = t.at_stake@[now]@[c];
        let st = s.candidate_state@[c];
        &&& snap.bond == st.bond
        &&& snap.delegations@ == st.top_delegations@
        &&& snap.total == st.total_counted
        &&& snap.liquidity_token == st.liquidity_token
    }
    &&& forall|c: AccountId| #[trigger] before.contains_key(c) && !has_account(all, c) ==> t.at_stake@[now]@[c] == before[c]
}

/// Every collator a round's selection puts forward is a candidate, when every
/// bond of the pool is.
proof fn lemma_chosen_are_candidates(
    s: Staking,
    vals: Seq<RewardEntry>,
    info: Map<u64, OrderedSet<RewardEntry>>,
    sel: Seq<RewardEntry>,
    e: RewardEntry,
)
    requires
        s.pool_of_candidates(),
        strictly_sorted(vals),
        key_map(vals) == with_solo(aggregated_totals(s.pool_valued(), s.candidate_aggregator@), s.pool_valued(), s.candidate_aggregator@),
        nested_wf(info),
        nested_view(info) == aggregator_info(s.pool_valued(), s.candidate_aggregator@),
        sel == chosen(vals, s.config.min_collator_stk, s.total_selected),
        expand_authors(sel, info).contains(e),
    ensures
        s.candidate_state@.contains_key(e.account),
{
    let vbs = s.pool_valued();
    let aggs = s.candidate_aggregator@;
    lemma_expand_authors(sel, info, e);
    if exists|a: u64| #[trigger] info.contains_key(a) && info[a].view().contains(e) {
        let a = choose|a: u64| #[trigger] info.contains_key(a) && info[a].view().contains(e);
        let i = choose|i: int| 0 <= i < info[a].view().len() && info[a].view()[i] == e;
        lemma_entry_of(info[a].view(), i);
        assert(nested_view(info)[a] == key_map(info[a].view()));
        lemma_info_members(vbs, aggs, a, e.account);
    } else {
        let el = eligible(vals, s.config.min_collator_stk);
        lemma_filter_in(el, |x: RewardEntry| rank_in(el, x) < s.total_selected as nat, e);
        lemma_filter_in(vals, |x: RewardEntry| x.amount >= s.config.min_collator_stk, e);
        let i = choose|i: int| 0 <= i < vals.len() && vals[i] == e;
        lemma_entry_of(vals, i);
        crate::selection::lemma_with_solo_keys(aggregated_totals(vbs, aggs), vbs, aggs, e.account);
        if aggregated_totals(vbs, aggs).contains_key(e.account) {
            lemma_totals_are_aggregators(vbs, aggs, e.account);
            assert(nested_view(info).contains_key(e.account));
            assert(false);
        }
    }
    lemma_valuated_owners(s.candidate_pool@, s.config.native_token_id, s.staking_liquidity_tokens@, e.account);
    let j = choose|j: int| 0 <= j < s.candidate_pool@.len() && s.candidate_pool@[j].owner == e.account;
    assert(s.candidate_state@.contains_key(s.candidate_pool@[j].owner));
}

/// The round's choice: `t` is `s` after the pools of the staking liquidity
/// tokens were recorded (giving `mid`), the authors were chosen by the
/// valuations `vals` of `mid`, and the collators behind them snapshotted for
/// round `now`, with the counts `r` and the events `events`.
pub open spec fn selected(s: Staking, t: Staking, mid: Staking, vals: Seq<RewardEntry>, now: RoundIndex, r: (u32, u32, Balance), events: Seq<Event>) -> bool {
    let info = t.round_aggregator_info@[now]@;
    let sel = chosen(vals, s.config.min_collator_stk, s.total_selected);
    let all = expand_authors(sel, info);
    &&& strictly_sorted(vals)
    &&& key_map(vals) == with_solo(aggregated_totals(mid.pool_valued(), mid.candidate_aggregator@), mid.pool_valued(), mid.candidate_aggregator@)
    &&& nested_wf(info)
    &&& nested_view(info) == aggregator_info(mid.pool_valued(), mid.candidate_aggregator@)
    &&& t.round_aggregator_info@.dom() == s.round_aggregator_info@.dom().insert(now)
    &&& forall|q: RoundIndex| q != now && #[trigger] s.round_aggregator_info@.contains_key(q)
        ==> t.round_aggregator_info@[q] == s.round_aggregator_info@[q]
    &&& t.selected_candidates@ == sel.map_values(|e: RewardEntry| e.account)
    &&& snapshots_taken(mid, t, now, all)
    &&& r == selection_counts(mid, all)
    &&& events == all.map_values(|e: RewardEntry| Event::CollatorChosen(now, e.account, e.amount))
    &&& t.staking_liquidity_tokens == mid.staking_liquidity_tokens
    &&& t == (Staking {
        staking_liquidity_tokens: t.staking_liquidity_tokens,
        at_stake: t.at_stake,
        selected_candidates: t.selected_candidates,
        round_aggregator_info: t.round_aggregator_info,
        ..s
    })
}

/// `t` is `s` after the block authors of round `now` were chosen, with the
/// pool states `states`, the counts `counts` and the events `events`.
pub open spec fn round_chosen(s: Staking, t: Staking, now: RoundIndex, states: Map<CurrencyId, Option<(Balance, Balance)>>, counts: (u32, u32, Balance), events: Seq<Event>) -> bool {
    exists|mid: Staking, vals: Seq<RewardEntry>| #[trigger] selected(s, t, mid, vals, now, counts, events) && snapshot_taken(s, mid, states)
}

impl Staking {
    /// Chooses the block authors of round `now` and snapshots the collators
    /// behind them: the staking liquidity tokens' pool states are recorded
    /// (`pool_states`, from the runtime's valuator), the authors valued at
    /// least `MinCollatorStk` that rank among the `TotalSelected` highest are
    /// chosen, and each collator an author stands for gets a snapshot and a
    /// `CollatorChosen` event. Returns the collators counted, the delegations
    /// counted and the exposure, each added up saturating.
    pub fn select_top_candidates(&mut self, now: RoundIndex, pool_states: &BTreeMap<CurrencyId, Option<(Balance, Balance)>>) -> (r: (
        (u32, u32, Balance),
        Vec<Event>,
    ))
        requires
            old(self).pool_of_candidates(),
        ensures
            round_chosen(*old(self), *final(self), now, pool_states@, r.0, r.1@),
    {
        self.staking_liquidity_tokens_snapshot(pool_states);
        let ghost mid = *self;
        let (valuations, info) = self.calculate_valuations_and_aggregation_info();
        let (sel, all) = compute_top_candidates(&valuations, &info, self.config.min_collator_stk, self.total_selected);
        let ghost g_info = info@;
        proof {
            assert forall|j: int| 0 <= j < all@.len() implies mid.candidate_state@.contains_key(#[trigger] all@[j].account) by {
                assert(expand_authors(sel@, g_info).contains(all@[j]));
                lemma_chosen_are_candidates(mid, valuations@, g_info, sel@, all@[j]);
            }
        }
        self.round_aggregator_info.insert(now, info);
        let mut snaps: BTreeMap<AccountId, CollatorSnapshot> = match self.at_stake.remove(&now) {
            Some(m) => m,
            None => BTreeMap::new(),
        };
        let ghost before = snaps@;
        let mut collator_count: u32 = 0;
        let mut delegation_count: u32 = 0;
        let mut total_relevant_exposure: Balance = 0;
        let mut events: Vec<Event> = Vec::new();
        let mut j: usize = 0;
        while j < all.len()
            invariant
                j <= all@.len(),
                self.candidate_state == mid.candidate_state,
                forall|i: int| 0 <= i < all@.len() ==> mid.candidate_state@.contains_key(#[trigger] all@[i].account),
                (collator_count, delegation_count, total_relevant_exposure) == selection_counts(mid, all@.take(j as int)),
                events@ == all@.take(j as int).map_values(|e: RewardEntry| Event::CollatorChosen(now, e.account, e.amount)),
                forall|c: AccountId| #[trigger] snaps@.contains_key(c) <==> before.contains_key(c) || has_account(all@.take(j as int), c),
                forall|c: AccountId| #[trigger] has_account(all@.take(j as int), c) ==> {
                    let snap = snaps@[c];
                    let st = mid.candidate_state@[c];
                    &&& snap.bond == st.bond
                    &&& snap.delegations@ == st.top_delegations@
                    &&& snap.total == st.total_counted
                    &&& snap.liquidity_token == st.liquidity_token
                },
                forall|c: AccountId| #[trigger] before.contains_key(c) && !has_account(all@.take(j as int), c) ==> snaps@[c] == before[c],
            decreases all@.len() - j,
        {
            let e = all[j];
            let ghost prev = all@.take(j as int);
            proof {
                assert(all@.take(j as int + 1) == prev.push(e));
                assert(all@.take(j as int + 1).drop_last() == prev);
                assert(mid.candidate_state@.contains_key(all@[j as int].account));
                assert forall|c: AccountId| #![trigger has_account(prev.push(e), c)]
                    has_account(prev.push(e), c) <==> has_account(prev, c) || c == e.account by {
                    if has_account(prev.push(e), c) {
                        let i = choose|i: int| 0 <= i < prev.push(e).len() && prev.push(e)[i].account == c;
                        if i < prev.len() {
                            assert(prev[i].account == c);
                        }
                    }
                    if has_account(prev, c) {
                        let i = choose|i: int| 0 <= i < prev.len() && prev[i].account == c;
                        assert(prev.push(e)[i].account == c);
                    }
                    if c == e.account {
                        assert(prev.push(e)[prev.len() as int].account == c);
                    }
                }
            }
            let state = self.candidate_state.get(&e.account).unwrap();
            collator_count = collator_count.saturating_add(1);
            #[verifier::truncate]
            let n: u32 = state.delegators.0.len() as u32;
            delegation_count = delegation_count.saturating_add(n);
            total_relevant_exposure = total_relevant_exposure.saturating_add(e.amount);
            let snap = take_snapshot(state);
            snaps.insert(e.account, snap);
            events.push(Event::CollatorChosen(now, e.account, e.amount));
            proof {
                assert(events@ =~= all@.take(j as int + 1).map_values(|e: RewardEntry| Event::CollatorChosen(now, e.account, e.amount)));
            }
            j = j + 1;
        }
        proof {
            assert(all@.take(j as int) == all@);
        }
        let ghost before_at = self.at_stake@;
        self.at_stake.insert(now, snaps);
        let mut accounts: Vec<AccountId> = Vec::new();
        let mut k: usize = 0;
        while k < sel.len()
            invariant
                k <= sel@.len(),
                accounts@ == sel@.take(k as int).map_values(|e: RewardEntry| e.account),
            decreases sel@.len() - k,
        {
            accounts.push(sel[k].account);
            k = k + 1;
            proof {
                assert(accounts@ =~= sel@.take(k as int).map_values(|e: RewardEntry| e.account));
            }
        }
        proof {
            assert(sel@.take(k as int) == sel@);
        }
        self.selected_candidates = accounts;
        proof {
            assert(self.round_aggregator_info@.dom() =~= old(self).round_aggregator_info@.dom().insert(now));
            assert(self.at_stake@.dom() =~= mid.at_stake@.dom().insert(now));
            assert(selected(*old(self), *self, mid, valuations@, now, (collator_count, delegation_count, total_relevant_exposure), events@));
            assert(snapshot_taken(*old(self), mid, pool_states@));
            assert(round_chosen(*old(self), *self, now, pool_states@, (collator_count, delegation_count, total_relevant_exposure), events@));
        }
        ((collator_count, delegation_count, total_relevant_exposure), events)
    }
}

/// The issuance given, zero when none.
pub open spec fn issuance_or_zero(x: Option<Balance>) -> Balance {
    match x {
        Some(v) => v,
        None => 0,
    }
}

/// The round after `r` started at block `first`.
pub open spec fn next_round(r: RoundInfo, first: u64) -> RoundInfo {
    RoundInfo {
        current: if r.current == u32::MAX {
            u32::MAX
        } else {
            (r.current + 1) as u32
        },
        first,
        length: r.length,
    }
}

/// `t` is `s` after a session started at block `block`: the round moved on to
/// `round` (starting at the next block), the round `RewardPaymentDelay`
/// rounds back was paid out with `issuance`, and the authors of the round
/// after `round` were chosen with the pool states `states`, with the counts
/// `counts` and the events `events`.
pub open spec fn session_started(
    s: Staking,
    t: Staking,
    round: RoundInfo,
    issuance: Balance,
    states: Map<CurrencyId, Option<(Balance, Balance)>>,
    counts: (u32, u32, Balance),
    events: Seq<Event>,
) -> bool {
    exists|paid: Staking, chose: Staking| #![trigger round_chosen(paid, chose, sat_add_u32(round.current, 1), states, counts, events)]
    {
        &&& payout_frame(s, paid)
        &&& (round.current < s.config.reward_payment_delay ==> paid == s)
        &&& (round.current >= s.config.reward_payment_delay ==> paid_out(s, paid, (round.current - s.config.reward_payment_delay) as u32, issuance))
        &&& round_chosen(paid, chose, sat_add_u32(round.current, 1), states, counts, events)
        &&& t == (Staking { round, ..chose })
    }
}

/// `t` is `s` after a session started with the round moving on to `round`,
/// emitting `ev` for the new round and `chosen` for the collators chosen.
pub open spec fn started_with(
    s: Staking,
    t: Staking,
    round: RoundInfo,
    issuance: Balance,
    states: Map<CurrencyId, Option<(Balance, Balance)>>,
    ev: Event,
    chosen: Seq<Event>,
) -> bool {
    exists|counts: (u32, u32, Balance)| #[trigger] session_started(s, t, round, issuance, states, counts, chosen)
        && ev == Event::NewRound(round.first, round.current, counts.0, counts.2)
}

impl Staking {
    /// Starts session `session_index` at block `block_number`. Nothing happens
    /// for the first session. Otherwise the round moves on, starting at the
    /// next block; the round `RewardPaymentDelay` rounds back is paid out with
    /// `staking_issuance` (as the runtime's issuance pallet gives it for that
    /// round); the authors of the round after are chosen with `pool_states`;
    /// and `NewRound` is emitted. The runtime is then to compute the issuance
    /// of the new round, which is returned with the events.
    pub fn start_session(
        &mut self,
        session_index: u32,
        block_number: u64,
        staking_issuance: Option<Balance>,
        pool_states: &BTreeMap<CurrencyId, Option<(Balance, Balance)>>,
    ) -> (r: Option<(Event, Vec<Event>, RoundIndex)>)
        requires
            old(self).collator_commission.wf(),
            snapshots_bounded(*old(self)),
            aggregator_info_bounded(*old(self)),
            old(self).pool_of_candidates(),
        ensures
            session_index == 0 ==> r is None && *final(self) == *old(self),
            session_index != 0 ==> {
                let round = next_round(old(self).round, sat_add_u64(block_number, 1));
                &&& r matches Some((ev, chosen, idx)) && idx == round.current
                    && started_with(*old(self), *final(self), round, issuance_or_zero(staking_issuance), pool_states@, ev, chosen@)
            },
    {
        if session_index == 0 {
            return None;
        }
        let n = block_number.saturating_add(1);
        let mut round = self.round;
        round.update(n);
        let ghost s0 = *self;
        self.pay_stakers(round.current, staking_issuance);
        let ghost paid = *self;
        let (counts, chosen) = self.select_top_candidates(round.current.saturating_add(1), pool_states);
        let ghost chose = *self;
        self.round = round;
        proof {
            assert(round == next_round(s0.round, sat_add_u64(block_number, 1)));
            let issuance = issuance_or_zero(staking_issuance);
            assert(round_chosen(paid, chose, sat_add_u32(round.current, 1), pool_states@, counts, chosen@));
            assert(session_started(s0, *self, round, issuance, pool_states@, counts, chosen@));
            assert(started_with(s0, *self, round, issuance, pool_states@,
                Event::NewRound(round.first, round.current, counts.0, counts.2), chosen@));
        }
        Some((Event::NewRound(round.first, round.current, counts.0, counts.2), chosen, round.current))
    }
}

impl Staking {
    /// Lists `added_liquidity_token` (the liquidity token the runtime's
    /// valuator found for the token given, paired with the native token) as a
    /// staking token; `current_liquidity_tokens` bounds the number listed.
    pub fn add_staking_liquidity_token(&mut self, added_liquidity_token: CurrencyId, current_liquidity_tokens: u32) -> (r: Result<(), Error>)
        ensures
            current_liquidity_tokens < old(self).staking_liquidity_tokens@.len()
                ==> r == Err::<(), Error>(Error::TooLowCurrentStakingLiquidityTokensCount) && *final(self) == *old(self),
            current_liquidity_tokens >= old(self).staking_liquidity_tokens@.len()
                && old(self).staking_liquidity_tokens@.contains_key(added_liquidity_token)
                ==> r == Err::<(), Error>(Error::StakingLiquidityTokenAlreadyListed) && *final(self) == *old(self),
            current_liquidity_tokens >= old(self).staking_liquidity_tokens@.len()
                && !old(self).staking_liquidity_tokens@.contains_key(added_liquidity_token) ==> {
                &&& r == Ok::<(), Error>(())
                &&& final(self).staking_liquidity_tokens@ == old(self).staking_liquidity_tokens@.insert(added_liquidity_token, None)
                &&& *final(self) == (Staking { staking_liquidity_tokens: final(self).staking_liquidity_tokens, ..*old(self) })
            },
    {
        if (current_liquidity_tokens as usize) < self.staking_liquidity_tokens.len() {
            return Err(Error::TooLowCurrentStakingLiquidityTokensCount);
        }
        if self.staking_liquidity_tokens.contains_key(&added_liquidity_token) {
            return Err(Error::StakingLiquidityTokenAlreadyListed);
        }
        self.staking_liquidity_tokens.insert(added_liquidity_token, None);
        Ok(())
    }

    /// Stops listing `removed_liquidity_token` as a staking token;
    /// `current_liquidity_tokens` bounds the number listed.
    pub fn remove_staking_liquidity_token(&mut self, removed_liquidity_token: CurrencyId, current_liquidity_tokens: u32) -> (r: Result<(), Error>)
        ensures
            current_liquidity_tokens < old(self).staking_liquidity_tokens@.len()
                ==> r == Err::<(), Error>(Error::TooLowCurrentStakingLiquidityTokensCount) && *final(self) == *old(self),
            current_liquidity_tokens >= old(self).staking_liquidity_tokens@.len()
                && !old(self).staking_liquidity_tokens@.contains_key(removed_liquidity_token)
                ==> r == Err::<(), Error>(Error::StakingLiquidityTokenNotListed) && *final(self) == *old(self),
            current_liquidity_tokens >= old(self).staking_liquidity_tokens@.len()
                && old(self).staking_liquidity_tokens@.contains_key(removed_liquidity_token) ==> {
                &&& r == Ok::<(), Error>(())
                &&& final(self).staking_liquidity_tokens@ == old(self).staking_liquidity_tokens@.remove(removed_liquidity_token)
                &&& *final(self) == (Staking { staking_liquidity_tokens: final(self).staking_liquidity_tokens, ..*old(self) })
            },
    {
        if (current_liquidity_tokens as usize) < self.staking_liquidity_tokens.len() {
            return Err(Error::TooLowCurrentStakingLiquidityTokensCount);
        }
        if !self.staking_liquidity_tokens.contains_key(&removed_liquidity_token) {
            return Err(Error::StakingLiquidityTokenNotListed);
        }
        self.staking_liquidity_tokens.remove(&removed_liquidity_token);
        Ok(())
    }
}

/// Keeping the elements of a strictly sorted sequence that satisfy `p` leaves
/// it strictly sorted.
pub proof fn lemma_filter_strictly_sorted(s: Seq<RewardEntry>, p: spec_fn(RewardEntry) -> bool)
    requires
        strictly_sorted(s),
    ensures
        strictly_sorted(s.filter(p)),
    decreases s.len(),
{
    reveal(Seq::filter);
    if s.len() > 0 {
        let rest = s.drop_last();
        assert(strictly_sorted(rest));
        lemma_filter_strictly_sorted(rest, p);
        let f = rest.filter(p);
        if p(s.last()) {
            assert forall|i: int| 0 <= i < f.len() implies #[trigger] f[i].spec_key() < s.last().spec_key() by {
                assert(f.contains(f[i]));
                rest.lemma_filter_contains_rev(p, f[i]);
                assert(rest.contains(f[i]));
                let j = choose|j: int| 0 <= j < rest.len() && rest[j] == f[i];
                assert(s[j] == rest[j]);
            }
            let g = f.push(s.last());
            assert forall|i: int, j: int| 0 <= i < j < g.len() implies g[i].spec_key() < g[j].spec_key() by {
                if j < f.len() {
                    assert(g[i] == f[i] && g[j] == f[j]);
                } else {
                    assert(g[i] == f[i]);
                }
            }
        }
    }
}

/// The collators selected for a round are in increasing order of account,
/// with no account twice.
pub proof fn law_selected_strictly_increasing(
    s: Staking,
    t: Staking,
    now: RoundIndex,
    states: Map<CurrencyId, Option<(Balance, Balance)>>,
    counts: (u32, u32, Balance),
    events: Seq<Event>,
)
    requires
        round_chosen(s, t, now, states, counts, events),
    ensures
        forall|i: int, j: int| 0 <= i < j < t.selected_candidates@.len() ==> t.selected_candidates@[i] < t.selected_candidates@[j],
{
    let (mid, vals) = choose|mid: Staking, vals: Seq<RewardEntry>| #[trigger] selected(s, t, mid, vals, now, counts, events)
        && snapshot_taken(s, mid, states);
    let el = eligible(vals, s.config.min_collator_stk);
    lemma_filter_strictly_sorted(vals, |e: RewardEntry| e.amount >= s.config.min_collator_stk);
    let n = s.total_selected as nat;
    lemma_filter_strictly_sorted(el, |x: RewardEntry| rank_in(el, x) < n);
    let sel = chosen(vals, s.config.min_collator_stk, s.total_selected);
    assert(strictly_sorted(sel));
    assert forall|i: int, j: int| 0 <= i < j < t.selected_candidates@.len() implies t.selected_candidates@[i] < t.selected_candidates@[j] by {
        assert(t.selected_candidates@[i] == sel[i].account);
        assert(t.selected_candidates@[j] == sel[j].account);
    }
}

} // verus!
