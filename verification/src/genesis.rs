//! The candidates and delegations a chain starts with.

use crate::collator_payout::sorted_keys;
use crate::ordered_set::{has_key, key_map, SetKey};
use crate::pos::{amount2, get_nested32, nested_set32, set_nested32};
use crate::round::RoundInfo;
use crate::round_selection::round_chosen;
use crate::staking::{delegate_outcome, join_outcome, step_calls, step_events, ReserveCall, Staking};
use crate::staking_events::Event;
use crate::{AccountId, Balance, CurrencyId};
use std::collections::BTreeMap;
use vstd::prelude::*;

verus! {

broadcast use vstd::std_specs::btree::group_btree_axioms;

/// The candidates (account, self bond, liquidity token) and the delegations
/// (delegator, candidate, amount) at genesis.
pub struct GenesisConfig {
    pub candidates: Vec<(AccountId, Balance, CurrencyId)>,
    pub delegations: Vec<(AccountId, AccountId, Balance)>,
}

/// The liquidity tokens of `cands`.
pub open spec fn tokens_of(cands: Seq<(AccountId, Balance, CurrencyId)>) -> Set<CurrencyId> {
    Set::new(|t: CurrencyId| exists|i: int| 0 <= i < cands.len() && cands[i].2 == t)
}

/// Why a chain cannot start from a configuration.
#[derive(Clone, Copy, Debug, PartialEq, Eq, Structural)]
pub enum GenesisError {
    /// More distinct liquidity tokens than a 32-bit count holds.
    TooManyLiquidityTokens,
    /// A candidate lacks the balance to bond (the index of the candidate).
    CandidateBalanceTooLow(u64),
    /// A delegation names no configured candidate (the index of the delegation).
    DelegationToUnknownCandidate(u64),
    /// A delegator lacks the balance to delegate (the index of the delegation).
    DelegationBalanceTooLow(u64),
}

/// The liquidity token of the first of `cands[..n]` that is `target`.
pub open spec fn first_token(cands: Seq<(AccountId, Balance, CurrencyId)>, target: AccountId, n: int) -> Option<CurrencyId>
    decreases n,
{
    if n <= 0 {
        None
    } else {
        match first_token(cands, target, n - 1) {
            Some(t) => Some(t),
            None => if cands[n - 1].0 == target {
                Some(cands[n - 1].2)
            } else {
                None
            },
        }
    }
}

/// Once found among a prefix, the first token stays the one found.
pub proof fn lemma_first_token_stable(cands: Seq<(AccountId, Balance, CurrencyId)>, target: AccountId, i: int, n: int)
    requires
        0 <= i <= n,
        first_token(cands, target, i) is Some,
    ensures
        first_token(cands, target, n) == first_token(cands, target, i),
    decreases n - i,
{
    if n > i {
        lemma_first_token_stable(cands, target, i, n - 1);
    }
}

/// `n + 1`, saturating.
pub open spec fn inc_sat(n: u32) -> u32 {
    if n == u32::MAX {
        n
    } else {
        (n + 1) as u32
    }
}

/// The count `m` holds for `a`, zero when none.
pub open spec fn count_of(m: Map<AccountId, u32>, a: AccountId) -> u32 {
    if m.contains_key(a) {
        m[a]
    } else {
        0
    }
}

/// Listing liquidity token `tok` with hint `cur` takes storage `s` to `t`:
/// refused (and nothing changes) when the hint is below the tokens listed or
/// the token is listed already.
pub open spec fn token_step(s: Staking, t: Staking, tok: CurrencyId, cur: u32) -> bool {
    if cur < s.staking_liquidity_tokens@.len() || s.staking_liquidity_tokens@.contains_key(tok) {
        t == s
    } else {
        &&& t.staking_liquidity_tokens@ == s.staking_liquidity_tokens@.insert(tok, None)
        &&& t == (Staking { staking_liquidity_tokens: t.staking_liquidity_tokens, ..s })
    }
}

/// `states` goes from its first to its last storage by listing `tokens`, the
/// `i`-th with hint `i`.
pub open spec fn tokens_chain(states: Seq<Staking>, tokens: Seq<CurrencyId>) -> bool {
    &&& states.len() == tokens.len() + 1
    &&& forall|i: int| 0 <= i < tokens.len() ==> #[trigger] token_step(states[i], states[i + 1], tokens[i], i as u32)
}

/// Candidate `e` (account, bond, token), holding the balance to bond, joins,
/// with the count `n` of
/// candidates so far and `token_count` tokens: `s`, `a` (available balances)
/// and `n` become `t`, `a2` and `n2`; `out` is the event and the reserve of a
/// join, `None` when the join is refused (the count then grows once, not
/// twice, and nothing else changes).
pub open spec fn candidate_step(
    s: Staking,
    t: Staking,
    a: Map<AccountId, BTreeMap<CurrencyId, Balance>>,
    a2: Map<AccountId, BTreeMap<CurrencyId, Balance>>,
    n: u32,
    n2: u32,
    token_count: u32,
    e: (AccountId, Balance, CurrencyId),
    valuation: Balance,
    out: Option<(Event, ReserveCall)>,
) -> bool {
    let n1 = inc_sat(n);
    &&& amount2(a, e.0, e.2) >= e.1
    &&& if s.join_candidates_error(e.0, e.1, e.2, n1, token_count, valuation) is Some {
        &&& t == s
        &&& a2 == a
        &&& n2 == n1
        &&& out is None
    } else {
        &&& out matches Some((ev, call)) && join_outcome(s, t, e.0, e.1, e.2, None, n1, token_count, valuation, Ok((ev, call)))
        &&& n2 == inc_sat(n1)
        &&& nested_set32(a, a2, e.0, e.2, (amount2(a, e.0, e.2) - e.1) as u128)
    }
}

/// The candidates `cands[..k]` joined in turn, each with the balance to bond:
/// `states`, `avail` and `counts` are the storages, available balances and
/// candidate counts before and after each, `outs` the outcomes.
pub open spec fn candidates_chain(
    cands: Seq<(AccountId, Balance, CurrencyId)>,
    valuations: Seq<Balance>,
    token_count: u32,
    states: Seq<Staking>,
    avail: Seq<Map<AccountId, BTreeMap<CurrencyId, Balance>>>,
    counts: Seq<u32>,
    outs: Seq<Option<(Event, ReserveCall)>>,
    k: int,
) -> bool {
    &&& 0 <= k <= cands.len()
    &&& states.len() == k + 1
    &&& avail.len() == k + 1
    &&& counts.len() == k + 1
    &&& outs.len() == k
    &&& counts[0] == 0
    &&& forall|i: int| 0 <= i < k ==> #[trigger] candidate_step(states[i], states[i + 1], avail[i], avail[i + 1], counts[i],
        counts[i + 1], token_count, cands[i], valuations[i], outs[i])
}

/// Delegation `e` (delegator, candidate, amount), to a candidate of `cands`
/// whose token the delegator holds the amount of, is placed with the counts
/// `cc` (delegators per candidate) and `dc` (delegations per delegator) so
/// far: `s`, `a`, `cc`, `dc` become `t`, `a2`, `cc2`, `dc2`; `out` is the event
/// and the reserve, `None` when the delegation is refused (and nothing
/// changes), as it is when the delegator cannot reserve the amount in the
/// candidate's token.
pub open spec fn delegation_step(
    cands: Seq<(AccountId, Balance, CurrencyId)>,
    s: Staking,
    t: Staking,
    a: Map<AccountId, BTreeMap<CurrencyId, Balance>>,
    a2: Map<AccountId, BTreeMap<CurrencyId, Balance>>,
    cc: Map<AccountId, u32>,
    cc2: Map<AccountId, u32>,
    dc: Map<AccountId, u32>,
    dc2: Map<AccountId, u32>,
    e: (AccountId, AccountId, Balance),
    valuation: Balance,
    out: Option<(Event, ReserveCall)>,
) -> bool {
    let cd = count_of(cc, e.1);
    let dd = count_of(dc, e.0);
    let short = s.candidate_state@.contains_key(e.1)
        && amount2(a, e.0, s.candidate_state@[e.1].liquidity_token) < e.2;
    &&& first_token(cands, e.1, cands.len() as int) matches Some(tok) && amount2(a, e.0, tok) >= e.2
    &&& if short || s.delegate_error(e.0, e.1, e.2, cd, dd, valuation) is Some {
        &&& t == s
        &&& a2 == a
        &&& cc2 == cc
        &&& dc2 == dc
        &&& out is None
    } else {
        let tok = s.candidate_state@[e.1].liquidity_token;
        &&& out matches Some((ev, call)) && delegate_outcome(s, t, e.0, e.1, e.2, None, cd, dd, valuation, Ok((ev, call)))
        &&& cc2 == cc.insert(e.1, inc_sat(cd))
        &&& dc2 == dc.insert(e.0, inc_sat(dd))
        &&& nested_set32(a, a2, e.0, tok, (amount2(a, e.0, tok) - e.2) as u128)
    }
}

/// The delegations `dels[..k]` placed in turn, each to a configured candidate
/// (of `cands`) with the delegator holding the amount in that candidate's
/// token.
pub open spec fn delegations_chain(
    cands: Seq<(AccountId, Balance, CurrencyId)>,
    dels: Seq<(AccountId, AccountId, Balance)>,
    valuations: Seq<Balance>,
    states: Seq<Staking>,
    avail: Seq<Map<AccountId, BTreeMap<CurrencyId, Balance>>>,
    cc: Seq<Map<AccountId, u32>>,
    dc: Seq<Map<AccountId, u32>>,
    outs: Seq<Option<(Event, ReserveCall)>>,
    k: int,
) -> bool {
    &&& 0 <= k <= dels.len()
    &&& states.len() == k + 1
    &&& avail.len() == k + 1
    &&& cc.len() == k + 1
    &&& dc.len() == k + 1
    &&& outs.len() == k
    &&& cc[0] == Map::<AccountId, u32>::empty()
    &&& dc[0] == Map::<AccountId, u32>::empty()
    &&& forall|i: int| 0 <= i < k ==> #[trigger] delegation_step(cands, states[i], states[i + 1], avail[i], avail[i + 1],
        cc[i], cc[i + 1], dc[i], dc[i + 1], dels[i], valuations[i], outs[i])
}

/// What the last steps of genesis do to storage `s` (with the delegations
/// placed), giving `t`: the commission and the number selected take their
/// configured values, the collators of round one are chosen (`counts` and
/// `chosen` as `select_top_candidates` gives them), round zero starts at block
/// zero and has round one's snapshots.
pub open spec fn genesis_finished(
    s: Staking,
    t: Staking,
    pool_states: Map<CurrencyId, Option<(Balance, Balance)>>,
    counts: (u32, u32, Balance),
    chosen: Seq<Event>,
) -> bool {
    exists|mid: Staking| {
        &&& #[trigger] round_chosen(
            Staking {
                collator_commission: s.config.default_collator_commission,
                total_selected: s.config.min_selected_candidates,
                ..s
            },
            mid,
            1,
            pool_states,
            counts,
            chosen,
        )
        &&& t.round == (RoundInfo { current: 0, first: 0, length: s.config.blocks_per_round })
        &&& if mid.at_stake@.contains_key(1) {
            &&& t.at_stake@.dom() == mid.at_stake@.dom().insert(0)
            &&& t.at_stake@[0]@ == mid.at_stake@[1]@
            &&& forall|q: u32| q != 0 && #[trigger] mid.at_stake@.contains_key(q) ==> t.at_stake@[q] == mid.at_stake@[q]
        } else {
            t.at_stake@ == mid.at_stake@
        }
        &&& t == (Staking { round: t.round, at_stake: t.at_stake, ..mid })
    }
}

/// The steps genesis went through: the tokens listed, and the storages,
/// available balances, counts and outcomes before and after each candidate
/// and each delegation, up to the first that stopped it (if any).
pub struct GenesisTrace {
    pub tokens: Seq<CurrencyId>,
    pub token_states: Seq<Staking>,
    pub cand_states: Seq<Staking>,
    pub cand_avail: Seq<Map<AccountId, BTreeMap<CurrencyId, Balance>>>,
    pub cand_counts: Seq<u32>,
    pub cand_outs: Seq<Option<(Event, ReserveCall)>>,
    pub cand_done: int,
    pub del_states: Seq<Staking>,
    pub del_avail: Seq<Map<AccountId, BTreeMap<CurrencyId, Balance>>>,
    pub del_cc: Seq<Map<AccountId, u32>>,
    pub del_dc: Seq<Map<AccountId, u32>>,
    pub del_outs: Seq<Option<(Event, ReserveCall)>>,
    pub del_done: int,
    pub counts: (u32, u32, Balance),
    pub chosen: Seq<Event>,
}

/// Genesis from storage `s` and available balances `avail` went as `w` says,
/// ending in storage `t` with result `r`: the candidates' tokens are listed in
/// increasing order; the candidates join in turn, then the delegations are
/// placed in turn, skipping those refused; it stops with an error at the
/// first candidate or delegator short of balance, or delegation to no
/// configured candidate; otherwise the last steps run and the result holds the
/// events (joins, delegations, collators chosen, the new round) and the
/// reserves to make, in order.
pub open spec fn genesis_traced(
    cands: Seq<(AccountId, Balance, CurrencyId)>,
    dels: Seq<(AccountId, AccountId, Balance)>,
    cvals: Seq<Balance>,
    dvals: Seq<Balance>,
    s: Staking,
    t: Staking,
    avail: Map<AccountId, BTreeMap<CurrencyId, Balance>>,
    pool_states: Map<CurrencyId, Option<(Balance, Balance)>>,
    r: Result<(Vec<Event>, Vec<ReserveCall>), GenesisError>,
    w: GenesisTrace,
) -> bool {
    &&& w.tokens.to_set() == tokens_of(cands)
    &&& forall|i: int, j: int| 0 <= i < j < w.tokens.len() ==> w.tokens[i] < w.tokens[j]
    &&& if w.tokens.len() > u32::MAX {
        r == Err::<(Vec<Event>, Vec<ReserveCall>), GenesisError>(GenesisError::TooManyLiquidityTokens)
    } else {
        let tc = w.tokens.len() as u32;
        let c = w.cand_done;
        let d = w.del_done;
        &&& w.token_states[0] == s
        &&& tokens_chain(w.token_states, w.tokens)
        &&& w.cand_states[0] == w.token_states.last()
        &&& w.cand_avail[0] == avail
        &&& candidates_chain(cands, cvals, tc, w.cand_states, w.cand_avail, w.cand_counts, w.cand_outs, c)
        &&& if c < cands.len() {
            &&& amount2(w.cand_avail[c], cands[c].0, cands[c].2) < cands[c].1
            &&& r == Err::<(Vec<Event>, Vec<ReserveCall>), GenesisError>(GenesisError::CandidateBalanceTooLow(c as u64))
        } else {
            &&& w.del_states[0] == w.cand_states.last()
            &&& w.del_avail[0] == w.cand_avail.last()
            &&& delegations_chain(cands, dels, dvals, w.del_states, w.del_avail, w.del_cc, w.del_dc, w.del_outs, d)
            &&& if d < dels.len() {
                match first_token(cands, dels[d].1, cands.len() as int) {
                    None => r == Err::<(Vec<Event>, Vec<ReserveCall>), GenesisError>(
                        GenesisError::DelegationToUnknownCandidate(d as u64)),
                    Some(tok) => amount2(w.del_avail[d], dels[d].0, tok) < dels[d].2
                        && r == Err::<(Vec<Event>, Vec<ReserveCall>), GenesisError>(
                        GenesisError::DelegationBalanceTooLow(d as u64)),
                }
            } else {
                r matches Ok((evs, calls)) && {
                    &&& genesis_finished(w.del_states.last(), t, pool_states, w.counts, w.chosen)
                    &&& evs@ == step_events(w.cand_outs) + step_events(w.del_outs) + w.chosen
                        + seq![Event::NewRound(0, 0, w.counts.0, w.counts.2)]
                    &&& calls@ == step_calls(w.cand_outs) + step_calls(w.del_outs)
                }
            }
        }
    }
}

/// One more candidate step extends a chain of candidate steps.
proof fn lemma_candidates_chain_push(
    cands: Seq<(AccountId, Balance, CurrencyId)>,
    valuations: Seq<Balance>,
    token_count: u32,
    states: Seq<Staking>,
    avail: Seq<Map<AccountId, BTreeMap<CurrencyId, Balance>>>,
    counts: Seq<u32>,
    outs: Seq<Option<(Event, ReserveCall)>>,
    k: int,
    t: Staking,
    a2: Map<AccountId, BTreeMap<CurrencyId, Balance>>,
    n2: u32,
    out: Option<(Event, ReserveCall)>,
)
    requires
        candidates_chain(cands, valuations, token_count, states, avail, counts, outs, k),
        k < cands.len(),
        candidate_step(states[k], t, avail[k], a2, counts[k], n2, token_count, cands[k], valuations[k], out),
    ensures
        candidates_chain(cands, valuations, token_count, states.push(t), avail.push(a2), counts.push(n2), outs.push(out), k + 1),
{
    let s2 = states.push(t);
    let v2 = avail.push(a2);
    let c2 = counts.push(n2);
    let o2 = outs.push(out);
    assert forall|i: int| 0 <= i < k + 1 implies #[trigger] candidate_step(s2[i], s2[i + 1], v2[i], v2[i + 1], c2[i], c2[i + 1], token_count, cands[i],
        valuations[i], o2[i]) by {
        if i < k {
            assert(candidate_step(states[i], states[i + 1], avail[i], avail[i + 1], counts[i], counts[i + 1], token_count,
                cands[i], valuations[i], outs[i]));
            assert(s2[i] == states[i] && s2[i + 1] == states[i + 1] && v2[i] == avail[i] && v2[i + 1] == avail[i + 1]);
            assert(c2[i] == counts[i] && c2[i + 1] == counts[i + 1] && o2[i] == outs[i]);
        }
    }
}

/// One more delegation step extends a chain of delegation steps.
proof fn lemma_delegations_chain_push(
    cands: Seq<(AccountId, Balance, CurrencyId)>,
    dels: Seq<(AccountId, AccountId, Balance)>,
    valuations: Seq<Balance>,
    states: Seq<Staking>,
    avail: Seq<Map<AccountId, BTreeMap<CurrencyId, Balance>>>,
    cc: Seq<Map<AccountId, u32>>,
    dc: Seq<Map<AccountId, u32>>,
    outs: Seq<Option<(Event, ReserveCall)>>,
    k: int,
    t: Staking,
    a2: Map<AccountId, BTreeMap<CurrencyId, Balance>>,
    cc2: Map<AccountId, u32>,
    dc2: Map<AccountId, u32>,
    out: Option<(Event, ReserveCall)>,
)
    requires
        delegations_chain(cands, dels, valuations, states, avail, cc, dc, outs, k),
        k < dels.len(),
        delegation_step(cands, states[k], t, avail[k], a2, cc[k], cc2, dc[k], dc2, dels[k], valuations[k], out),
    ensures
        delegations_chain(cands, dels, valuations, states.push(t), avail.push(a2), cc.push(cc2), dc.push(dc2), outs.push(out), k + 1),
{
    let s2 = states.push(t);
    let v2 = avail.push(a2);
    let x2 = cc.push(cc2);
    let y2 = dc.push(dc2);
    let o2 = outs.push(out);
    assert forall|i: int| 0 <= i < k + 1 implies #[trigger] delegation_step(cands, s2[i], s2[i + 1], v2[i], v2[i + 1], x2[i], x2[i + 1], y2[i], y2[i + 1], dels[i],
            valuations[i], o2[i]) by {
        if i < k {
            assert(delegation_step(cands, states[i], states[i + 1], avail[i], avail[i + 1], cc[i], cc[i + 1], dc[i], dc[i + 1],
                dels[i], valuations[i], outs[i]));
            assert(s2[i] == states[i] && s2[i + 1] == states[i + 1] && v2[i] == avail[i] && v2[i + 1] == avail[i + 1]);
            assert(x2[i] == cc[i] && x2[i + 1] == cc[i + 1] && y2[i] == dc[i] && y2[i + 1] == dc[i + 1] && o2[i] == outs[i]);
        }
    }
}

/// The token of a bond reserve `call`, `other` for any other call.
fn bond_token(call: &ReserveCall, other: CurrencyId) -> (r: CurrencyId)
    ensures
        call matches ReserveCall::Bond { token, .. } ==> r == token,
{
    match call {
        ReserveCall::Bond { token, .. } => *token,
        _ => other,
    }
}

/// Storage in which every pool entry is a candidate stays so when `x` becomes
/// (or stays) a candidate, no candidate goes and no other account enters the
/// pool.
proof fn lemma_pool_step(s: Staking, t: Staking, x: AccountId)
    requires
        s.pool_of_candidates(),
        forall|k: u64| #[trigger] key_map(t.candidate_pool@).contains_key(k) ==> key_map(s.candidate_pool@).contains_key(k) || k == x,
        t.candidate_state@.contains_key(x),
        forall|c: AccountId| #[trigger] s.candidate_state@.contains_key(c) ==> t.candidate_state@.contains_key(c),
    ensures
        t.pool_of_candidates(),
{
    assert forall|j: int| 0 <= j < t.candidate_pool@.len() implies t.candidate_state@.contains_key(#[trigger] t.candidate_pool@[j].owner) by {
        let o = t.candidate_pool@[j].owner;
        assert(t.candidate_pool@[j].spec_key() == o);
        assert(has_key(t.candidate_pool@, o));
        assert(key_map(t.candidate_pool@).contains_key(o));
        if o != x {
            assert(has_key(s.candidate_pool@, o));
            let i = choose|i: int| 0 <= i < s.candidate_pool@.len() && s.candidate_pool@[i].spec_key() == o;
            assert(s.candidate_state@.contains_key(s.candidate_pool@[i].owner));
        }
    }
}

impl GenesisConfig {
    /// No candidates and no delegations.
    pub fn default() -> (r: GenesisConfig)
        ensures
            r.candidates@.len() == 0,
            r.delegations@.len() == 0,
    {
        GenesisConfig { candidates: Vec::new(), delegations: Vec::new() }
    }

    /// The candidates' liquidity tokens, each once, in increasing order: the
    /// tokens listed for staking at genesis.
    pub fn liquidity_tokens(&self) -> (r: Vec<CurrencyId>)
        ensures
            r@.to_set() == tokens_of(self.candidates@),
            forall|i: int, j: int| 0 <= i < j < r@.len() ==> r@[i] < r@[j],
    {
        let mut seen: BTreeMap<CurrencyId, ()> = BTreeMap::new();
        let mut i: usize = 0;
        while i < self.candidates.len()
            invariant
                i <= self.candidates@.len(),
                seen@.dom() == tokens_of(self.candidates@.take(i as int)),
            decreases self.candidates@.len() - i,
        {
            let t = self.candidates[i].2;
            seen.insert(t, ());
            proof {
                let before = self.candidates@.take(i as int);
                let after = self.candidates@.take(i as int + 1);
                assert forall|x: CurrencyId| tokens_of(after).contains(x) == (tokens_of(before).contains(x) || x == t) by {
                    if tokens_of(after).contains(x) {
                        let k = choose|k: int| 0 <= k < after.len() && after[k].2 == x;
                        if k < i {
                            assert(before[k].2 == x);
                        }
                    }
                    if tokens_of(before).contains(x) {
                        let k = choose|k: int| 0 <= k < before.len() && before[k].2 == x;
                        assert(after[k].2 == x);
                    }
                    if x == t {
                        assert(after[i as int].2 == x);
                    }
                }
                assert(seen@.dom() =~= tokens_of(after));
            }
            i = i + 1;
        }
        proof {
            assert(self.candidates@.take(i as int) == self.candidates@);
        }
        sorted_keys(&seen)
    }

    /// The liquidity token of the first candidate `target`, which a
    /// delegation to it is made in.
    pub fn candidate_token(&self, target: AccountId) -> (r: Option<CurrencyId>)
        ensures
            r == first_token(self.candidates@, target, self.candidates@.len() as int),
    {
        let mut i: usize = 0;
        while i < self.candidates.len()
            invariant
                i <= self.candidates@.len(),
                first_token(self.candidates@, target, i as int) is None,
            decreases self.candidates@.len() - i,
        {
            if self.candidates[i].0 == target {
                proof {
                    lemma_first_token_stable(self.candidates@, target, i + 1, self.candidates@.len() as int);
                }
                return Some(self.candidates[i].2);
            }
            i = i + 1;
        }
        None
    }

    /// Builds the staking storage a chain starts with, from `staking` (whose
    /// pool holds only candidates and which has no snapshots of round zero)
    /// and the accounts' available balances `available`. `candidate_valuations`
    /// and `delegation_valuations` are what the runtime's valuator gives for
    /// each candidate's bond and each delegation's amount; `pool_states` are
    /// the pools' states for choosing the first collators.
    ///
    /// Lists the candidates' tokens; joins the candidates and places the
    /// delegations in turn, skipping those refused (each counts the candidates
    /// and the delegations so far as its hints, and reserves from the available
    /// balances); sets the commission and the number selected to their
    /// configured values; chooses round one's collators and starts round zero
    /// with their snapshots. Returns the events and the reserves to make, or the
    /// reason the configuration cannot start a chain.
    pub fn build(
        &self,
        staking: &mut Staking,
        available: BTreeMap<AccountId, BTreeMap<CurrencyId, Balance>>,
        candidate_valuations: &Vec<Balance>,
        delegation_valuations: &Vec<Balance>,
        pool_states: &BTreeMap<CurrencyId, Option<(Balance, Balance)>>,
    ) -> (r: Result<(Vec<Event>, Vec<ReserveCall>), GenesisError>)
        requires
            old(staking).inv(),
            old(staking).pool_of_candidates(),
            !old(staking).at_stake@.contains_key(0),
            candidate_valuations@.len() == self.candidates@.len(),
            delegation_valuations@.len() == self.delegations@.len(),
        ensures
            exists|w: GenesisTrace| #[trigger] genesis_traced(self.candidates@, self.delegations@, candidate_valuations@,
                delegation_valuations@, *old(staking), *final(staking), available@, pool_states@, r, w),
            r is Ok ==> final(staking).inv(),
    {
        let mut avail = available;
        let tokens = self.liquidity_tokens();
        let ghost mut w = GenesisTrace {
            tokens: tokens@,
            token_states: seq![*staking],
            cand_states: Seq::empty(),
            cand_avail: Seq::empty(),
            cand_counts: Seq::empty(),
            cand_outs: Seq::empty(),
            cand_done: 0,
            del_states: Seq::empty(),
            del_avail: Seq::empty(),
            del_cc: Seq::empty(),
            del_dc: Seq::empty(),
            del_outs: Seq::empty(),
            del_done: 0,
            counts: (0, 0, 0),
            chosen: Seq::empty(),
        };
        if tokens.len() > u32::MAX as usize {
            let r = Err(GenesisError::TooManyLiquidityTokens);
            assert(genesis_traced(self.candidates@, self.delegations@, candidate_valuations@,
                delegation_valuations@, *old(staking), *staking, avail@, pool_states@, r, w));
            return r;
        }
        let token_count = tokens.len() as u32;
        let mut i: usize = 0;
        while i < tokens.len()
            invariant
                i <= tokens@.len() <= u32::MAX,
                token_count == tokens@.len(),
                w.tokens == tokens@,
                w.token_states.len() == i + 1,
                w.token_states[0] == *old(staking),
                w.token_states.last() == *staking,
                forall|j: int| 0 <= j < i ==> #[trigger] token_step(w.token_states[j], w.token_states[j + 1], tokens@[j], j as u32),
                staking.inv(),
                staking.pool_of_candidates(),
                !staking.at_stake@.contains_key(0),
            decreases tokens@.len() - i,
        {
            let _ = staking.add_staking_liquidity_token(tokens[i], i as u32);
            proof {
                w.token_states = w.token_states.push(*staking);
                assert(token_step(w.token_states[i as int], w.token_states[i + 1], tokens@[i as int], i as u32));
            }
            i = i + 1;
        }
        proof {
            assert(tokens_chain(w.token_states, w.tokens));
            w.cand_states = seq![*staking];
            w.cand_avail = seq![avail@];
            w.cand_counts = seq![0u32];
            w.cand_outs = Seq::empty();
            assert(step_events(w.cand_outs) == Seq::<Event>::empty());
        }
        let mut events: Vec<Event> = Vec::new();
        let mut calls: Vec<ReserveCall> = Vec::new();
        let mut n: u32 = 0;
        let mut k: usize = 0;
        while k < self.candidates.len()
            invariant
                token_count == tokens@.len() <= u32::MAX,
                w.tokens == tokens@,
                tokens@.to_set() == tokens_of(self.candidates@),
                forall|a: int, b: int| 0 <= a < b < tokens@.len() ==> tokens@[a] < tokens@[b],
                w.token_states[0] == *old(staking),
                tokens_chain(w.token_states, w.tokens),
                w.cand_states[0] == w.token_states.last(),
                w.cand_avail[0] == available@,
                candidates_chain(self.candidates@, candidate_valuations@, token_count, w.cand_states, w.cand_avail,
                    w.cand_counts, w.cand_outs, k as int),
                w.cand_states.last() == *staking,
                w.cand_avail.last() == avail@,
                w.cand_counts.last() == n,
                events@ == step_events(w.cand_outs),
                calls@ == step_calls(w.cand_outs),
                candidate_valuations@.len() == self.candidates@.len(),
                staking.inv(),
                staking.pool_of_candidates(),
                !staking.at_stake@.contains_key(0),
            decreases self.candidates@.len() - k,
        {
            let (acc, bond, tok) = self.candidates[k];
            let have = get_nested32(&avail, acc, tok);
            if have < bond {
                proof {
                    w.cand_done = k as int;
                }
                let r = Err(GenesisError::CandidateBalanceTooLow(k as u64));
                assert(genesis_traced(self.candidates@, self.delegations@, candidate_valuations@,
                    delegation_valuations@, *old(staking), *staking, available@, pool_states@, r, w));
                return r;
            }
            let ghost s0 = *staking;
            let ghost a0 = avail@;
            let ghost n0 = n;
            n = n.saturating_add(1);
            let ghost out: Option<(Event, ReserveCall)>;
            match staking.join_candidates(acc, bond, tok, None, n, token_count, candidate_valuations[k]) {
                Ok((ev, call)) => {
                    events.push(ev);
                    calls.push(call);
                    n = n.saturating_add(1);
                    set_nested32(&mut avail, acc, tok, have - bond);
                    proof {
                        out = Some((ev, call));
                        lemma_pool_step(s0, *staking, acc);
                    }
                },
                Err(_) => {
                    proof {
                        out = None;
                    }
                },
            }
            proof {
                let outs0 = w.cand_outs;
                lemma_candidates_chain_push(self.candidates@, candidate_valuations@, token_count, w.cand_states, w.cand_avail,
                    w.cand_counts, w.cand_outs, k as int, *staking, avail@, n, out);
                w.cand_states = w.cand_states.push(*staking);
                w.cand_avail = w.cand_avail.push(avail@);
                w.cand_counts = w.cand_counts.push(n);
                w.cand_outs = w.cand_outs.push(out);
                assert(w.cand_outs.drop_last() == outs0);
            }
            k = k + 1;
        }
        proof {
            w.cand_done = k as int;
            w.del_states = seq![*staking];
            w.del_avail = seq![avail@];
            w.del_cc = seq![Map::<AccountId, u32>::empty()];
            w.del_dc = seq![Map::<AccountId, u32>::empty()];
            w.del_outs = Seq::empty();
            assert(step_events(w.del_outs) == Seq::<Event>::empty());
            assert(step_calls(w.del_outs) == Seq::<ReserveCall>::empty());
            assert(step_events(w.cand_outs) + step_events(w.del_outs) == step_events(w.cand_outs));
            assert(step_calls(w.cand_outs) + step_calls(w.del_outs) == step_calls(w.cand_outs));
        }
        let mut col_delegator_count: BTreeMap<AccountId, u32> = BTreeMap::new();
        let mut del_delegation_count: BTreeMap<AccountId, u32> = BTreeMap::new();
        let mut j: usize = 0;
        while j < self.delegations.len()
            invariant
                token_count == tokens@.len() <= u32::MAX,
                w.tokens == tokens@,
                tokens@.to_set() == tokens_of(self.candidates@),
                forall|a: int, b: int| 0 <= a < b < tokens@.len() ==> tokens@[a] < tokens@[b],
                w.token_states[0] == *old(staking),
                tokens_chain(w.token_states, w.tokens),
                w.cand_states[0] == w.token_states.last(),
                w.cand_avail[0] == available@,
                w.cand_done == self.candidates@.len(),
                candidates_chain(self.candidates@, candidate_valuations@, token_count, w.cand_states, w.cand_avail,
                    w.cand_counts, w.cand_outs, w.cand_done),
                w.del_states[0] == w.cand_states.last(),
                w.del_avail[0] == w.cand_avail.last(),
                delegations_chain(self.candidates@, self.delegations@, delegation_valuations@, w.del_states, w.del_avail,
                    w.del_cc, w.del_dc, w.del_outs, j as int),
                w.del_states.last() == *staking,
                w.del_avail.last() == avail@,
                w.del_cc.last() == col_delegator_count@,
                w.del_dc.last() == del_delegation_count@,
                events@ == step_events(w.cand_outs) + step_events(w.del_outs),
                calls@ == step_calls(w.cand_outs) + step_calls(w.del_outs),
                delegation_valuations@.len() == self.delegations@.len(),
                staking.inv(),
                staking.pool_of_candidates(),
                !staking.at_stake@.contains_key(0),
            decreases self.delegations@.len() - j,
        {
            let (delegator, target, amount) = self.delegations[j];
            let cfg_token = self.candidate_token(target);
            let tok = match cfg_token {
                Some(t) => t,
                None => {
                    proof {
                        w.del_done = j as int;
                    }
                    let r = Err(GenesisError::DelegationToUnknownCandidate(j as u64));
                    assert(genesis_traced(self.candidates@, self.delegations@, candidate_valuations@,
                        delegation_valuations@, *old(staking), *staking, available@, pool_states@, r, w));
                    return r;
                },
            };
            if get_nested32(&avail, delegator, tok) < amount {
                proof {
                    w.del_done = j as int;
                }
                let r = Err(GenesisError::DelegationBalanceTooLow(j as u64));
                assert(genesis_traced(self.candidates@, self.delegations@, candidate_valuations@,
                    delegation_valuations@, *old(staking), *staking, available@, pool_states@, r, w));
                return r;
            }
            let cd = match col_delegator_count.get(&target) {
                Some(x) => *x,
                None => 0,
            };
            let dd = match del_delegation_count.get(&delegator) {
                Some(x) => *x,
                None => 0,
            };
            let ghost s0 = *staking;
            let short = match staking.candidate_state.get(&target) {
                Some(c) => get_nested32(&avail, delegator, c.liquidity_token) < amount,
                None => false,
            };
            let ghost out: Option<(Event, ReserveCall)>;
            if short {
                proof {
                    out = None;
                }
            } else {
                match staking.delegate(delegator, target, amount, None, cd, dd, delegation_valuations[j]) {
                    Ok((ev, call)) => {
                        let rtok = bond_token(&call, tok);
                        events.push(ev);
                        calls.push(call);
                        col_delegator_count.insert(target, cd.saturating_add(1));
                        del_delegation_count.insert(delegator, dd.saturating_add(1));
                        let have = get_nested32(&avail, delegator, rtok);
                        set_nested32(&mut avail, delegator, rtok, have - amount);
                        proof {
                            out = Some((ev, call));
                            lemma_pool_step(s0, *staking, target);
                        }
                    },
                    Err(_) => {
                        proof {
                            out = None;
                        }
                    },
                }
            }
            proof {
                let outs0 = w.del_outs;
                lemma_delegations_chain_push(self.candidates@, self.delegations@, delegation_valuations@, w.del_states,
                    w.del_avail, w.del_cc, w.del_dc, w.del_outs, j as int, *staking, avail@, col_delegator_count@,
                    del_delegation_count@, out);
                w.del_states = w.del_states.push(*staking);
                w.del_avail = w.del_avail.push(avail@);
                w.del_cc = w.del_cc.push(col_delegator_count@);
                w.del_dc = w.del_dc.push(del_delegation_count@);
                w.del_outs = w.del_outs.push(out);
                assert(w.del_outs.drop_last() == outs0);
            }
            j = j + 1;
        }
        proof {
            w.del_done = j as int;
        }
        staking.collator_commission = staking.config.default_collator_commission;
        staking.total_selected = staking.config.min_selected_candidates;
        let ghost s1 = *staking;
        let (counts, chosen) = staking.select_top_candidates(1, pool_states);
        let ghost mid = *staking;
        staking.round = RoundInfo::new(0, 0, staking.config.blocks_per_round);
        let snaps = match staking.at_stake.get(&1) {
            Some(m) => Some(m.clone()),
            None => None,
        };
        if let Some(m) = snaps {
            staking.at_stake.insert(0, m);
            proof {
                assert(staking.at_stake@.dom() =~= mid.at_stake@.dom().insert(0));
            }
        }
        let mut chosen = chosen;
        let ghost chosen_view = chosen@;
        let ghost before = events@;
        events.append(&mut chosen);
        events.push(Event::NewRound(0, 0, counts.0, counts.2));
        proof {
            assert(events@ =~= before + chosen_view + seq![Event::NewRound(0, 0, counts.0, counts.2)]);
        }
        proof {
            w.counts = counts;
            w.chosen = chosen_view;
            let last = w.del_states.last();
            assert(s1 == (Staking {
                collator_commission: last.config.default_collator_commission,
                total_selected: last.config.min_selected_candidates,
                ..last
            }));
            assert(round_chosen(s1, mid, 1, pool_states@, w.counts, w.chosen));
            assert(mid.config == last.config);
            assert(*staking == (Staking { round: staking.round, at_stake: staking.at_stake, ..mid }));
            assert(genesis_finished(w.del_states.last(), *staking, pool_states@, w.counts, w.chosen));
        }
        let r = Ok((events, calls));
        assert(genesis_traced(self.candidates@, self.delegations@, candidate_valuations@,
            delegation_valuations@, *old(staking), *staking, available@, pool_states@, r, w));
        r
    }
}

} // verus!
