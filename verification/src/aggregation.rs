//! Aggregators: accounts that approve collator candidates and aggregate, per
//! liquidity token, one approved candidate; and each candidate's choice of the
//! aggregator it aggregates under.

use crate::ordered_set::{key_map, lemma_key_map_insert, lemma_key_map_remove, OrderedSet};
use crate::staking::{AggregatorMetadataType, Staking};
use crate::staking_events::{Error, Event, MetadataUpdateAction};
use crate::{AccountId, CurrencyId};
use std::collections::BTreeMap;
use vstd::prelude::*;

verus! {

broadcast use vstd::std_specs::btree::group_btree_axioms;

/// The accounts `s` holds.
pub open spec fn members(s: OrderedSet<AccountId>) -> Set<AccountId> {
    key_map(s@).dom()
}

/// Adds `c` to `s`; returns whether it was new.
fn approve(s: &mut OrderedSet<AccountId>, c: AccountId) -> (r: bool)
    requires
        old(s).wf(),
    ensures
        final(s).wf(),
        r == !members(*old(s)).contains(c),
        members(*final(s)) == members(*old(s)).insert(c),
{
    let ghost before = s@;
    let r = s.insert(c);
    proof {
        if r {
            let i = choose|i: int| 0 <= i <= before.len() && s@ == before.insert(i, c);
            lemma_key_map_insert(before, i, c);
        } else {
            assert(members(*old(s)).insert(c) =~= members(*old(s)));
        }
    }
    r
}

/// Removes `c` from `s`; returns whether it was there.
fn disapprove(s: &mut OrderedSet<AccountId>, c: AccountId) -> (r: bool)
    requires
        old(s).wf(),
    ensures
        final(s).wf(),
        r == members(*old(s)).contains(c),
        members(*final(s)) == members(*old(s)).remove(c),
{
    let ghost before = s@;
    let r = s.remove(&c);
    proof {
        if r {
            let i = choose|i: int| 0 <= i < before.len() && before[i] == c && s@ == before.remove(i);
            lemma_key_map_remove(before, i);
        } else {
            assert(members(*old(s)).remove(c) =~= members(*old(s)));
        }
    }
    r
}

/// What an aggregator's metadata reads as: the candidates it approves, and
/// the candidate it aggregates per token.
pub struct MetaView {
    pub approved: Set<AccountId>,
    pub tokens: Map<CurrencyId, AccountId>,
}

/// `meta` read as sets and maps.
pub open spec fn meta_view(meta: AggregatorMetadataType) -> MetaView {
    MetaView { approved: members(meta.approved_candidates), tokens: meta.token_collator_map@ }
}

impl Staking {
    /// The metadata of `agg` read as sets and maps, empty when it is no
    /// aggregator.
    pub open spec fn meta_of(&self, agg: AccountId) -> MetaView {
        if self.aggregators@.contains_key(agg) {
            meta_view(self.aggregators@[agg])
        } else {
            MetaView { approved: Set::empty(), tokens: Map::empty() }
        }
    }
}

/// The approvals after approving each of `cands` in turn, starting from
/// `approved`: each must be a candidate of `s` not yet approved.
pub open spec fn extend_approved(s: Staking, approved: Set<AccountId>, cands: Seq<AccountId>) -> Result<Set<AccountId>, Error>
    decreases cands.len(),
{
    if cands.len() == 0 {
        Ok(approved)
    } else {
        match extend_approved(s, approved, cands.drop_last()) {
            Err(e) => Err(e),
            Ok(a) => {
                let c = cands.last();
                if !s.candidate_state@.contains_key(c) {
                    Err(Error::CandidateDNE)
                } else if a.contains(c) {
                    Err(Error::CandidateAlreadyApprovedByAggregator)
                } else {
                    Ok(a.insert(c))
                }
            },
        }
    }
}

/// The approvals, tokens and candidates' aggregators after `agg` withdraws
/// its approval of each of `cands` in turn: each must be approved; one that
/// aggregates under `agg` stops doing so and frees its token.
pub open spec fn remove_approved(
    s: Staking,
    agg: AccountId,
    start: (Set<AccountId>, Map<CurrencyId, AccountId>, Map<AccountId, AccountId>),
    cands: Seq<AccountId>,
) -> Result<(Set<AccountId>, Map<CurrencyId, AccountId>, Map<AccountId, AccountId>), Error>
    decreases cands.len(),
{
    if cands.len() == 0 {
        Ok(start)
    } else {
        match remove_approved(s, agg, start, cands.drop_last()) {
            Err(e) => Err(e),
            Ok((a, tm, ca)) => {
                let c = cands.last();
                let detached = s.candidate_state@.contains_key(c) && ca.contains_key(c) && ca[c] == agg;
                if !a.contains(c) {
                    Err(Error::CandidateNotApprovedByAggregator)
                } else if detached {
                    Ok((a.remove(c), tm.remove(s.candidate_state@[c].liquidity_token), ca.remove(c)))
                } else {
                    Ok((a.remove(c), tm, ca))
                }
            },
        }
    }
}

impl Staking {
    /// What updating the metadata of `agg` with `cands` and `action` gives:
    /// its approvals, its tokens and the candidates' aggregators.
    pub open spec fn metadata_update(&self, agg: AccountId, cands: Seq<AccountId>, action: MetadataUpdateAction) -> Result<
        (Set<AccountId>, Map<CurrencyId, AccountId>, Map<AccountId, AccountId>),
        Error,
    > {
        let m = self.meta_of(agg);
        if self.candidate_state@.contains_key(agg) {
            Err(Error::CandidateExists)
        } else if self.delegator_state@.contains_key(agg) {
            Err(Error::DelegatorExists)
        } else {
            match action {
                MetadataUpdateAction::ExtendApprovedCollators => match extend_approved(*self, m.approved, cands) {
                    Ok(a) => Ok((a, m.tokens, self.candidate_aggregator@)),
                    Err(e) => Err(e),
                },
                MetadataUpdateAction::RemoveApprovedCollators => remove_approved(
                    *self,
                    agg,
                    (m.approved, m.tokens, self.candidate_aggregator@),
                    cands,
                ),
            }
        }
    }
}

/// A copy of `meta`.
fn copy_meta(meta: &AggregatorMetadataType) -> (r: AggregatorMetadataType)
    ensures
        meta_view(r) == meta_view(*meta),
        r.approved_candidates@ == meta.approved_candidates@,
{
    let mut v: Vec<AccountId> = Vec::new();
    let mut i: usize = 0;
    while i < meta.approved_candidates.0.len()
        invariant
            i <= meta.approved_candidates@.len(),
            v@ == meta.approved_candidates@.take(i as int),
        decreases meta.approved_candidates@.len() - i,
    {
        v.push(meta.approved_candidates.0[i]);
        i = i + 1;
        proof {
            assert(v@ == meta.approved_candidates@.take(i as int));
        }
    }
    proof {
        assert(meta.approved_candidates@.take(i as int) == meta.approved_candidates@);
    }
    AggregatorMetadataType { token_collator_map: meta.token_collator_map.clone(), approved_candidates: OrderedSet(v) }
}

impl Staking {
    /// `aggregator` approves more candidates or withdraws approvals: with
    /// `ExtendApprovedCollators` each of `collator_candidates` must be a
    /// candidate not yet approved; with `RemoveApprovedCollators` each must be
    /// approved, and one aggregating under `aggregator` stops. An aggregator
    /// left with no approval is no aggregator any more. On an error nothing
    /// changes.
    pub fn aggregator_update_metadata(&mut self, aggregator: AccountId, collator_candidates: Vec<AccountId>, action: MetadataUpdateAction) -> (r: Result<Event, Error>)
        requires
            old(self).inv(),
        ensures
            final(self).inv(),
            old(self).metadata_update(aggregator, collator_candidates@, action) matches Err(e)
                ==> r == Err::<Event, Error>(e) && *final(self) == *old(self),
            old(self).metadata_update(aggregator, collator_candidates@, action) matches Ok((a, tm, ca)) ==> {
                &&& r == Ok::<Event, Error>(Event::AggregatorMetadataUpdated(aggregator))
                &&& final(self).candidate_aggregator@ == ca
                &&& (if a.is_empty() {
                    final(self).aggregators@ == old(self).aggregators@.remove(aggregator)
                } else {
                    &&& final(self).aggregators@.dom() == old(self).aggregators@.dom().insert(aggregator)
                    &&& forall|k: AccountId| k != aggregator && #[trigger] old(self).aggregators@.contains_key(k)
                        ==> final(self).aggregators@[k] == old(self).aggregators@[k]
                    &&& meta_view(final(self).aggregators@[aggregator]) == (MetaView { approved: a, tokens: tm })
                })
                &&& *final(self) == (Staking {
                    aggregators: final(self).aggregators,
                    candidate_aggregator: final(self).candidate_aggregator,
                    ..*old(self)
                })
            },
    {
        if self.candidate_state.contains_key(&aggregator) {
            return Err(Error::CandidateExists);
        }
        if self.delegator_state.contains_key(&aggregator) {
            return Err(Error::DelegatorExists);
        }
        let mut meta = match self.aggregators.get(&aggregator) {
            Some(m) => copy_meta(m),
            None => AggregatorMetadataType { token_collator_map: BTreeMap::new(), approved_candidates: OrderedSet::new() },
        };
        proof {
            if !self.aggregators@.contains_key(aggregator) {
                assert(meta_view(meta).approved =~= Set::<AccountId>::empty());
                assert(meta_view(meta).tokens =~= Map::<CurrencyId, AccountId>::empty());
            }
        }
        let mut ca = self.candidate_aggregator.clone();
        let ghost s0 = *self;
        let ghost m0 = self.meta_of(aggregator);
        let mut i: usize = 0;
        match action {
            MetadataUpdateAction::ExtendApprovedCollators => {
                while i < collator_candidates.len()
                    invariant
                        action == MetadataUpdateAction::ExtendApprovedCollators,
                        *self == s0,
                        s0 == *old(self),
                        m0 == s0.meta_of(aggregator),
                        !s0.candidate_state@.contains_key(aggregator),
                        !s0.delegator_state@.contains_key(aggregator),
                        s0.inv(),
                        meta.approved_candidates.wf(),
                        i <= collator_candidates@.len(),
                        extend_approved(s0, m0.approved, collator_candidates@.take(i as int)) == Ok::<Set<AccountId>, Error>(
                            meta_view(meta).approved,
                        ),
                        meta_view(meta).tokens == m0.tokens,
                        ca@ == s0.candidate_aggregator@,
                    decreases collator_candidates@.len() - i,
                {
                    let c = collator_candidates[i];
                    proof {
                        assert(collator_candidates@.take(i as int + 1).drop_last() == collator_candidates@.take(i as int));
                    }
                    if !self.candidate_state.contains_key(&c) {
                        proof {
                            assert(collator_candidates@.take(i as int + 1).last() == c);
                            assert(extend_approved(s0, m0.approved, collator_candidates@.take(i as int + 1))
                                == Err::<Set<AccountId>, Error>(Error::CandidateDNE));
                            lemma_extend_fails(s0, m0.approved, collator_candidates@, i as int + 1);
                        }
                        return Err(Error::CandidateDNE);
                    }
                    if !approve(&mut meta.approved_candidates, c) {
                        proof {
                            assert(collator_candidates@.take(i as int + 1).last() == c);
                            assert(extend_approved(s0, m0.approved, collator_candidates@.take(i as int + 1))
                                == Err::<Set<AccountId>, Error>(Error::CandidateAlreadyApprovedByAggregator));
                            lemma_extend_fails(s0, m0.approved, collator_candidates@, i as int + 1);
                        }
                        return Err(Error::CandidateAlreadyApprovedByAggregator);
                    }
                    i = i + 1;
                }
            },
            MetadataUpdateAction::RemoveApprovedCollators => {
                while i < collator_candidates.len()
                    invariant
                        action == MetadataUpdateAction::RemoveApprovedCollators,
                        *self == s0,
                        s0 == *old(self),
                        m0 == s0.meta_of(aggregator),
                        !s0.candidate_state@.contains_key(aggregator),
                        !s0.delegator_state@.contains_key(aggregator),
                        s0.inv(),
                        meta.approved_candidates.wf(),
                        i <= collator_candidates@.len(),
                        remove_approved(s0, aggregator, (m0.approved, m0.tokens, s0.candidate_aggregator@), collator_candidates@.take(i as int))
                            == Ok::<(Set<AccountId>, Map<CurrencyId, AccountId>, Map<AccountId, AccountId>), Error>(
                            (meta_view(meta).approved, meta_view(meta).tokens, ca@),
                        ),
                    decreases collator_candidates@.len() - i,
                {
                    let c = collator_candidates[i];
                    proof {
                        assert(collator_candidates@.take(i as int + 1).drop_last() == collator_candidates@.take(i as int));
                    }
                    let token = match self.candidate_state.get(&c) {
                        Some(st) => Some(st.liquidity_token),
                        None => None,
                    };
                    if let Some(t) = token {
                        let under = match ca.get(&c) {
                            Some(x) => *x == aggregator,
                            None => false,
                        };
                        if under {
                            ca.remove(&c);
                            meta.token_collator_map.remove(&t);
                        }
                    }
                    if !disapprove(&mut meta.approved_candidates, c) {
                        proof {
                            assert(collator_candidates@.take(i as int + 1).last() == c);
                            lemma_remove_fails(s0, aggregator, (m0.approved, m0.tokens, s0.candidate_aggregator@), collator_candidates@, i as int + 1);
                        }
                        return Err(Error::CandidateNotApprovedByAggregator);
                    }
                    i = i + 1;
                }
            },
        }
        proof {
            assert(collator_candidates@.take(i as int) == collator_candidates@);
        }
        let empty = meta.approved_candidates.0.len() == 0;
        proof {
            if empty {
                assert(meta_view(meta).approved =~= Set::<AccountId>::empty());
            } else {
                assert(key_map(meta.approved_candidates@).contains_key(meta.approved_candidates@[0]));
            }
        }
        if empty {
            self.aggregators.remove(&aggregator);
        } else {
            self.aggregators.insert(aggregator, meta);
            proof {
                assert(self.aggregators@.dom() =~= old(self).aggregators@.dom().insert(aggregator));
            }
        }
        self.candidate_aggregator = ca;
        Ok(Event::AggregatorMetadataUpdated(aggregator))
    }
}

impl Staking {
    /// The error making `new` the aggregator of the candidate `candidate`
    /// fails with, if any: a candidate may not move to its own aggregator, its
    /// current aggregator and `new` must exist, `new` must approve it and must
    /// aggregate no candidate of its token yet.
    pub open spec fn assign_error(&self, candidate: AccountId, new: AccountId) -> Option<Error> {
        let token = self.candidate_state@[candidate].liquidity_token;
        let to_new = if !self.aggregators@.contains_key(new) {
            Some(Error::AggregatorDNE)
        } else if !members(self.aggregators@[new].approved_candidates).contains(candidate) {
            Some(Error::CandidateNotApprovedByAggregator)
        } else if self.aggregators@[new].token_collator_map@.contains_key(token) {
            Some(Error::AggregatorLiquidityTokenTaken)
        } else {
            None
        };
        if self.candidate_aggregator@.contains_key(candidate) {
            let prev = self.candidate_aggregator@[candidate];
            if prev == new {
                Some(Error::TargettedAggregatorSameAsCurrent)
            } else if !self.aggregators@.contains_key(prev) {
                Some(Error::AggregatorDNE)
            } else {
                to_new
            }
        } else {
            to_new
        }
    }

    /// The error updating the aggregator of `candidate` to `maybe_aggregator`
    /// fails with, if any.
    pub open spec fn update_aggregator_error(&self, candidate: AccountId, maybe_aggregator: Option<AccountId>) -> Option<Error> {
        if !self.candidate_state@.contains_key(candidate) {
            Some(Error::CandidateDNE)
        } else {
            match maybe_aggregator {
                Some(new) => self.assign_error(candidate, new),
                None => if !self.candidate_aggregator@.contains_key(candidate) {
                    Some(Error::CandidateNotAggregating)
                } else if !self.aggregators@.contains_key(self.candidate_aggregator@[candidate]) {
                    Some(Error::AggregatorDNE)
                } else {
                    None
                },
            }
        }
    }
}

/// `t` is `s` after `candidate` moved to the aggregator `new`: its former
/// aggregator, if any, no longer holds it under its token, and `new` does.
pub open spec fn assigned(s: Staking, t: Staking, candidate: AccountId, new: AccountId) -> bool {
    let token = s.candidate_state@[candidate].liquidity_token;
    let prev = s.candidate_aggregator@.get(candidate);
    &&& t.candidate_aggregator@ == s.candidate_aggregator@.insert(candidate, new)
    &&& t.aggregators@.dom() == s.aggregators@.dom()
    &&& forall|k: AccountId| k != new && prev != Some(k) && #[trigger] s.aggregators@.contains_key(k)
        ==> t.aggregators@[k] == s.aggregators@[k]
    &&& t.aggregators@[new].approved_candidates == s.aggregators@[new].approved_candidates
    &&& t.aggregators@[new].token_collator_map@ == s.aggregators@[new].token_collator_map@.insert(token, candidate)
    &&& prev matches Some(p) ==> {
        &&& t.aggregators@[p].approved_candidates == s.aggregators@[p].approved_candidates
        &&& t.aggregators@[p].token_collator_map@ == s.aggregators@[p].token_collator_map@.remove(token)
    }
    &&& t == (Staking { candidate_aggregator: t.candidate_aggregator, aggregators: t.aggregators, ..s })
}

impl Staking {
    /// The candidate `candidate` aggregates under `maybe_aggregator`, or stops
    /// aggregating when it is `None`. On an error nothing changes.
    pub fn do_update_candidate_aggregator(&mut self, candidate: AccountId, maybe_aggregator: Option<AccountId>) -> (r: Result<Event, Error>)
        requires
            old(self).inv(),
        ensures
            final(self).inv(),
            old(self).update_aggregator_error(candidate, maybe_aggregator) matches Some(e)
                ==> r == Err::<Event, Error>(e) && *final(self) == *old(self),
            old(self).update_aggregator_error(candidate, maybe_aggregator) is None ==> {
                &&& r == Ok::<Event, Error>(Event::CandidateAggregatorUpdated(candidate, maybe_aggregator))
                &&& match maybe_aggregator {
                    Some(new) => assigned(*old(self), *final(self), candidate, new),
                    None => {
                        &&& final(self).candidate_aggregator@ == old(self).candidate_aggregator@.remove(candidate)
                        &&& crate::staking::token_released(*old(self), *final(self), old(self).candidate_aggregator@[candidate],
                            old(self).candidate_state@[candidate].liquidity_token)
                        &&& *final(self) == (Staking {
                            candidate_aggregator: final(self).candidate_aggregator,
                            aggregators: final(self).aggregators,
                            ..*old(self)
                        })
                    },
                }
            },
    {
        let token = match self.candidate_state.get(&candidate) {
            Some(c) => c.liquidity_token,
            None => {
                return Err(Error::CandidateDNE);
            },
        };
        match maybe_aggregator {
            Some(new) => {
                let prev = match self.candidate_aggregator.get(&candidate) {
                    Some(p) => Some(*p),
                    None => None,
                };
                if let Some(p) = prev {
                    if p == new {
                        return Err(Error::TargettedAggregatorSameAsCurrent);
                    }
                    if !self.aggregators.contains_key(&p) {
                        return Err(Error::AggregatorDNE);
                    }
                }
                let (approved, taken) = match self.aggregators.get(&new) {
                    Some(m) => (m.approved_candidates.contains(&candidate), m.token_collator_map.contains_key(&token)),
                    None => {
                        return Err(Error::AggregatorDNE);
                    },
                };
                if !approved {
                    return Err(Error::CandidateNotApprovedByAggregator);
                }
                if taken {
                    return Err(Error::AggregatorLiquidityTokenTaken);
                }
                if let Some(p) = prev {
                    let mut pm = self.aggregators.remove(&p).unwrap();
                    pm.token_collator_map.remove(&token);
                    self.aggregators.insert(p, pm);
                }
                let ghost mid = self.aggregators@;
                let mut nm = self.aggregators.remove(&new).unwrap();
                nm.token_collator_map.insert(token, candidate);
                self.aggregators.insert(new, nm);
                self.candidate_aggregator.insert(candidate, new);
                proof {
                    assert(self.aggregators@.dom() =~= old(self).aggregators@.dom());
                }
            },
            None => {
                if let Err(e) = self.remove_aggregator_for_collator(candidate) {
                    return Err(e);
                }
            },
        }
        Ok(Event::CandidateAggregatorUpdated(candidate, maybe_aggregator))
    }

    /// The candidate `candidate` aggregates under `maybe_aggregator`, or stops
    /// aggregating when it is `None`.
    pub fn update_candidate_aggregator(&mut self, candidate: AccountId, maybe_aggregator: Option<AccountId>) -> (r: Result<Event, Error>)
        requires
            old(self).inv(),
        ensures
            final(self).inv(),
            old(self).update_aggregator_error(candidate, maybe_aggregator) matches Some(e)
                ==> r == Err::<Event, Error>(e) && *final(self) == *old(self),
            old(self).update_aggregator_error(candidate, maybe_aggregator) is None ==> {
                &&& r == Ok::<Event, Error>(Event::CandidateAggregatorUpdated(candidate, maybe_aggregator))
                &&& match maybe_aggregator {
                    Some(new) => assigned(*old(self), *final(self), candidate, new),
                    None => {
                        &&& final(self).candidate_aggregator@ == old(self).candidate_aggregator@.remove(candidate)
                        &&& crate::staking::token_released(*old(self), *final(self), old(self).candidate_aggregator@[candidate],
                            old(self).candidate_state@[candidate].liquidity_token)
                        &&& *final(self) == (Staking {
                            candidate_aggregator: final(self).candidate_aggregator,
                            aggregators: final(self).aggregators,
                            ..*old(self)
                        })
                    },
                }
            },
    {
        self.do_update_candidate_aggregator(candidate, maybe_aggregator)
    }
}

/// Once approving a prefix of `cands` fails, approving all of them fails
/// with the same error.
proof fn lemma_extend_fails(s: Staking, approved: Set<AccountId>, cands: Seq<AccountId>, n: int)
    requires
        0 <= n <= cands.len(),
        extend_approved(s, approved, cands.take(n)) is Err,
    ensures
        extend_approved(s, approved, cands) == extend_approved(s, approved, cands.take(n)),
    decreases cands.len() - n,
{
    if n < cands.len() {
        assert(cands.take(n + 1).drop_last() == cands.take(n));
        lemma_extend_fails(s, approved, cands, n + 1);
    } else {
        assert(cands.take(n) == cands);
    }
}

/// Once withdrawing the approvals of a prefix of `cands` fails, withdrawing
/// all of them fails with the same error.
proof fn lemma_remove_fails(
    s: Staking,
    agg: AccountId,
    start: (Set<AccountId>, Map<CurrencyId, AccountId>, Map<AccountId, AccountId>),
    cands: Seq<AccountId>,
    n: int,
)
    requires
        0 <= n <= cands.len(),
        remove_approved(s, agg, start, cands.take(n)) is Err,
    ensures
        remove_approved(s, agg, start, cands) == remove_approved(s, agg, start, cands.take(n)),
    decreases cands.len() - n,
{
    if n < cands.len() {
        assert(cands.take(n + 1).drop_last() == cands.take(n));
        lemma_remove_fails(s, agg, start, cands, n + 1);
    } else {
        assert(cands.take(n) == cands);
    }
}

} // verus!
