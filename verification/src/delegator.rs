//! Delegators: their delegations to collator candidates, pending changes to
//! them, and whether they are leaving.

use crate::bond::Bond;
use crate::candidate::sat_add_u32;
use crate::ordered_set::{has_key, OrderedSet, SetKey};
use crate::staking_events::Error;
use crate::{AccountId, Balance, CurrencyId, RoundIndex};
use std::collections::BTreeMap;
use vstd::prelude::*;

verus! {

/// Changes a delegator may request to a delegation.
#[derive(Clone, Copy, Debug, PartialEq, Eq, Structural)]
pub enum DelegationChange {
    Revoke,
    Increase,
    Decrease,
}

/// A scheduled change of the delegation to `collator`.
#[derive(Clone, Copy, Debug, PartialEq, Eq, Structural)]
pub struct DelegationRequest {
    pub collator: AccountId,
    pub amount: Balance,
    pub when_executable: RoundIndex,
    pub action: DelegationChange,
}

/// Whether a delegator is active or has scheduled its exit.
#[derive(Clone, Copy, Debug, PartialEq, Eq, Structural)]
pub enum DelegatorStatus {
    /// Active with no scheduled exit.
    Active,
    /// Scheduled to revoke all delegations at the inner round.
    Leaving(RoundIndex),
}

/// Pending requests of a delegator, at most one per collator.
#[derive(Clone, Debug, PartialEq)]
pub struct PendingDelegationRequests {
    pub requests: BTreeMap<AccountId, DelegationRequest>,
}

impl PendingDelegationRequests {
    /// No pending requests.
    pub fn new() -> (r: Self)
        ensures
            r.requests@ == Map::<AccountId, DelegationRequest>::empty(),
    {
        PendingDelegationRequests { requests: BTreeMap::new() }
    }

    /// Adds a request of kind `action` for `collator`, unless one is pending.
    fn add(&mut self, collator: AccountId, amount: Balance, when_executable: RoundIndex, action: DelegationChange) -> (r: Result<(), Error>)
        ensures
            old(self).requests@.contains_key(collator) ==> r == Err::<(), Error>(
                Error::PendingDelegationRequestAlreadyExists,
            ) && final(self).requests@ == old(self).requests@,
            !old(self).requests@.contains_key(collator) ==> r == Ok::<(), Error>(()) && final(self).requests@ == old(self).requests@.insert(
                collator,
                DelegationRequest { collator, amount, when_executable, action },
            ),
    {
        if self.requests.contains_key(&collator) {
            return Err(Error::PendingDelegationRequestAlreadyExists);
        }
        self.requests.insert(collator, DelegationRequest { collator, amount, when_executable, action });
        Ok(())
    }

    /// Adds a request to increase the delegation to `collator` by `amount`.
    pub fn bond_more(&mut self, collator: AccountId, amount: Balance, when_executable: RoundIndex) -> (r: Result<(), Error>)
        ensures
            old(self).requests@.contains_key(collator) ==> r == Err::<(), Error>(
                Error::PendingDelegationRequestAlreadyExists,
            ) && final(self).requests@ == old(self).requests@,
            !old(self).requests@.contains_key(collator) ==> r == Ok::<(), Error>(()) && final(self).requests@ == old(self).requests@.insert(
                collator,
                DelegationRequest {
                    collator,
                    amount,
                    when_executable,
                    action: DelegationChange::Increase,
                },
            ),
    {
        self.add(collator, amount, when_executable, DelegationChange::Increase)
    }

    /// Adds a request to decrease the delegation to `collator` by `amount`.
    pub fn bond_less(&mut self, collator: AccountId, amount: Balance, when_executable: RoundIndex) -> (r: Result<(), Error>)
        ensures
            old(self).requests@.contains_key(collator) ==> r == Err::<(), Error>(
                Error::PendingDelegationRequestAlreadyExists,
            ) && final(self).requests@ == old(self).requests@,
            !old(self).requests@.contains_key(collator) ==> r == Ok::<(), Error>(()) && final(self).requests@ == old(self).requests@.insert(
                collator,
                DelegationRequest {
                    collator,
                    amount,
                    when_executable,
                    action: DelegationChange::Decrease,
                },
            ),
    {
        self.add(collator, amount, when_executable, DelegationChange::Decrease)
    }

    /// Adds a request to revoke the delegation (of `amount`) to `collator`.
    pub fn revoke(&mut self, collator: AccountId, amount: Balance, when_executable: RoundIndex) -> (r: Result<(), Error>)
        ensures
            old(self).requests@.contains_key(collator) ==> r == Err::<(), Error>(
                Error::PendingDelegationRequestAlreadyExists,
            ) && final(self).requests@ == old(self).requests@,
            !old(self).requests@.contains_key(collator) ==> r == Ok::<(), Error>(()) && final(self).requests@ == old(self).requests@.insert(
                collator,
                DelegationRequest {
                    collator,
                    amount,
                    when_executable,
                    action: DelegationChange::Revoke,
                },
            ),
    {
        self.add(collator, amount, when_executable, DelegationChange::Revoke)
    }
}

/// The bond of `s` whose owner is `collator` (meaningful when there is one).
pub open spec fn bond_of(s: Seq<Bond>, collator: AccountId) -> Bond {
    s[choose|i: int| 0 <= i < s.len() && s[i].owner == collator]
}

/// Delegator state.
#[derive(Clone, Debug, PartialEq)]
pub struct Delegator {
    /// Delegator account.
    pub id: AccountId,
    /// All current delegations, keyed by collator.
    pub delegations: OrderedSet<Bond>,
    /// Requests to change delegations.
    pub requests: PendingDelegationRequests,
    /// Status of this delegator.
    pub status: DelegatorStatus,
}

impl Delegator {
    /// The delegator of account zero, with nothing delegated.
    pub fn default() -> (r: Delegator)
        ensures
            r.id == 0,
            r.delegations@.len() == 0,
            r.requests.requests@ == Map::<AccountId, DelegationRequest>::empty(),
            r.status == DelegatorStatus::Active,
    {
        Delegator {
            id: 0,
            delegations: OrderedSet::new(),
            requests: PendingDelegationRequests::new(),
            status: DelegatorStatus::Active,
        }
    }

    /// A delegator with the single delegation of `amount` to `collator`.
    pub fn new(id: AccountId, collator: AccountId, amount: Balance, liquidity_token: CurrencyId) -> (r: Self)
        ensures
            r.id == id,
            r.delegations.wf(),
            r.delegations@ == seq![Bond { owner: collator, amount, liquidity_token }],
            r.requests.requests@ == Map::<AccountId, DelegationRequest>::empty(),
            r.status == DelegatorStatus::Active,
    {
        let mut v: Vec<Bond> = Vec::new();
        v.push(Bond { owner: collator, amount, liquidity_token });
        let r = Delegator {
            id,
            delegations: OrderedSet(v),
            requests: PendingDelegationRequests::new(),
            status: DelegatorStatus::Active,
        };
        assert(r.delegations@ =~= seq![Bond { owner: collator, amount, liquidity_token }]);
        r
    }

    /// A copy of this state.
    pub fn duplicate(&self) -> (r: Delegator)
        ensures
            r.id == self.id,
            r.delegations@ == self.delegations@,
            r.requests.requests@ == self.requests.requests@,
            r.status == self.status,
    {
        let mut v: Vec<Bond> = Vec::new();
        let mut i: usize = 0;
        while i < self.delegations.0.len()
            invariant
                i <= self.delegations@.len(),
                v@ == self.delegations@.take(i as int),
            decreases self.delegations@.len() - i,
        {
            v.push(self.delegations.0[i]);
            i = i + 1;
            proof {
                assert(v@ == self.delegations@.take(i as int));
            }
        }
        proof {
            assert(self.delegations@.take(i as int) == self.delegations@);
        }
        Delegator {
            id: self.id,
            delegations: OrderedSet(v),
            requests: PendingDelegationRequests { requests: self.requests.requests.clone() },
            status: self.status,
        }
    }

    /// A copy of the pending requests.
    pub fn requests(&self) -> (r: BTreeMap<AccountId, DelegationRequest>)
        ensures
            r@ == self.requests.requests@,
    {
        self.requests.requests.clone()
    }

    /// Whether the status is `Active`.
    pub fn is_active(&self) -> (r: bool)
        ensures
            r == (self.status == DelegatorStatus::Active),
    {
        self.status == DelegatorStatus::Active
    }

    /// Whether the status is `Leaving`.
    pub fn is_leaving(&self) -> (r: bool)
        ensures
            r == (self.status is Leaving),
    {
        match self.status {
            DelegatorStatus::Leaving(_) => true,
            _ => false,
        }
    }

    /// Whether the delegator may leave in round `now`: the hint must cover its
    /// delegations, it must be leaving, and `now` must have reached its exit round.
    pub fn can_execute_leave(&self, now: RoundIndex, delegation_weight_hint: u32) -> (r: Result<(), Error>)
        ensures
            r == self.can_execute_leave_spec(now, delegation_weight_hint),
    {
        if (delegation_weight_hint as usize) < self.delegations.0.len() {
            return Err(Error::TooLowDelegationCountToLeaveDelegators);
        }
        if let DelegatorStatus::Leaving(when) = self.status {
            if now >= when {
                Ok(())
            } else {
                Err(Error::DelegatorCannotLeaveYet)
            }
        } else {
            Err(Error::DelegatorNotLeaving)
        }
    }

    /// Whether the delegator may leave in round `now`, as `can_execute_leave`
    /// answers.
    pub open spec fn can_execute_leave_spec(&self, now: RoundIndex, delegation_weight_hint: u32) -> Result<(), Error> {
        if (delegation_weight_hint as int) < self.delegations@.len() {
            Err(Error::TooLowDelegationCountToLeaveDelegators)
        } else {
            match self.status {
                DelegatorStatus::Leaving(when) => if now >= when {
                    Ok(())
                } else {
                    Err(Error::DelegatorCannotLeaveYet)
                },
                _ => Err(Error::DelegatorNotLeaving),
            }
        }
    }

    /// Sets the status to leaving at round `when`.
    pub fn set_leaving(&mut self, when: RoundIndex)
        ensures
            *final(self) == (Delegator { status: DelegatorStatus::Leaving(when), ..*old(self) }),
    {
        self.status = DelegatorStatus::Leaving(when);
    }

    /// Schedules the exit `delay` rounds after `now`; returns `(now, when)`.
    pub fn schedule_leave(&mut self, now: RoundIndex, delay: RoundIndex) -> (r: (RoundIndex, RoundIndex))
        ensures
            r == (now, sat_add_u32(now, delay)),
            *final(self) == (Delegator {
                status: DelegatorStatus::Leaving(sat_add_u32(now, delay)),
                ..*old(self)
            }),
    {
        let when = now.saturating_add(delay);
        self.set_leaving(when);
        (now, when)
    }

    /// Sets the status to `Active`.
    pub fn cancel_leave(&mut self)
        ensures
            *final(self) == (Delegator { status: DelegatorStatus::Active, ..*old(self) }),
    {
        self.status = DelegatorStatus::Active;
    }

    /// Adds `bond` unless a delegation to its collator exists; returns whether it did.
    pub fn add_delegation(&mut self, bond: Bond) -> (r: bool)
        requires
            old(self).delegations.wf(),
        ensures
            final(self).delegations.wf(),
            r == !has_key(old(self).delegations@, bond.owner),
            !r ==> *final(self) == *old(self),
            r ==> exists|i: int|
                0 <= i <= old(self).delegations@.len() && final(self).delegations@ == old(self).delegations@.insert(i, bond),
            final(self).id == old(self).id,
            final(self).requests == old(self).requests,
            final(self).status == old(self).status,
    {
        self.delegations.insert(bond)
    }

    /// Removes the delegation to `collator`; returns the number of delegations
    /// left, or `None` when there was none to `collator`.
    pub fn rm_delegation(&mut self, collator: AccountId) -> (r: Option<usize>)
        requires
            old(self).delegations.wf(),
        ensures
            final(self).delegations.wf(),
            !has_key(old(self).delegations@, collator) ==> r is None && *final(self) == *old(self),
            has_key(old(self).delegations@, collator) ==> r == Some(
                final(self).delegations@.len() as usize,
            ) && exists|i: int|
                0 <= i < old(self).delegations@.len() && old(self).delegations@[i].owner
                    == collator && final(self).delegations@ == old(self).delegations@.remove(i),
            final(self).id == old(self).id,
            final(self).requests == old(self).requests,
            final(self).status == old(self).status,
    {
        if self.delegations.remove(&Bond::from_owner(collator)) {
            Some(self.delegations.0.len())
        } else {
            None
        }
    }

    /// Schedules an increase of the delegation to `collator` by `more`,
    /// executable `delay` rounds after `now`. `can_bond` is whether the
    /// delegator can bond `more` of the delegation's token.
    pub fn schedule_increase_delegation(
        &mut self,
        collator: AccountId,
        more: Balance,
        now: RoundIndex,
        delay: RoundIndex,
        can_bond: bool,
    ) -> (r: Result<RoundIndex, Error>)
        ensures
            !has_key(old(self).delegations@, collator) ==> r == Err::<RoundIndex, Error>(
                Error::DelegationDNE,
            ) && *final(self) == *old(self),
            has_key(old(self).delegations@, collator) && !can_bond ==> r == Err::<
                RoundIndex,
                Error,
            >(Error::InsufficientBalance) && *final(self) == *old(self),
            has_key(old(self).delegations@, collator) && can_bond ==> if old(self).requests.requests@.contains_key(collator) {
                r == Err::<RoundIndex, Error>(Error::PendingDelegationRequestAlreadyExists)
                    && final(self).requests.requests@ == old(self).requests.requests@
            } else {
                r == Ok::<RoundIndex, Error>(sat_add_u32(now, delay)) && final(self).requests.requests@ == old(self).requests.requests@.insert(
                    collator,
                    DelegationRequest {
                        collator,
                        amount: more,
                        when_executable: sat_add_u32(now, delay),
                        action: DelegationChange::Increase,
                    },
                )
            },
            final(self).id == old(self).id,
            final(self).delegations == old(self).delegations,
            final(self).status == old(self).status,
    {
        if !self.has_delegation(collator) {
            return Err(Error::DelegationDNE);
        }
        if !can_bond {
            return Err(Error::InsufficientBalance);
        }
        let when = now.saturating_add(delay);
        match self.requests.bond_more(collator, more, when) {
            Ok(()) => Ok(when),
            Err(e) => Err(e),
        }
    }

    /// Schedules a decrease of the delegation to `collator` by `less`,
    /// executable `delay` rounds after `now`; the delegation must keep at
    /// least `min_delegation`.
    pub fn schedule_decrease_delegation(
        &mut self,
        collator: AccountId,
        less: Balance,
        now: RoundIndex,
        delay: RoundIndex,
        min_delegation: Balance,
    ) -> (r: Result<RoundIndex, Error>)
        requires
            old(self).delegations.wf(),
        ensures
            !has_key(old(self).delegations@, collator) ==> r == Err::<RoundIndex, Error>(
                Error::DelegationDNE,
            ) && *final(self) == *old(self),
            has_key(old(self).delegations@, collator) && bond_of(
                old(self).delegations@,
                collator,
            ).amount < (if min_delegation + less > u128::MAX {
                u128::MAX as int
            } else {
                min_delegation + less
            }) ==> r == Err::<RoundIndex, Error>(Error::DelegationBelowMin) && *final(self)
                == *old(self),
            has_key(old(self).delegations@, collator) && bond_of(
                old(self).delegations@,
                collator,
            ).amount >= (if min_delegation + less > u128::MAX {
                u128::MAX as int
            } else {
                min_delegation + less
            }) ==> if old(self).requests.requests@.contains_key(collator) {
                r == Err::<RoundIndex, Error>(Error::PendingDelegationRequestAlreadyExists)
                    && final(self).requests.requests@ == old(self).requests.requests@
            } else {
                r == Ok::<RoundIndex, Error>(sat_add_u32(now, delay)) && final(self).requests.requests@ == old(self).requests.requests@.insert(
                    collator,
                    DelegationRequest {
                        collator,
                        amount: less,
                        when_executable: sat_add_u32(now, delay),
                        action: DelegationChange::Decrease,
                    },
                )
            },
            final(self).id == old(self).id,
            final(self).delegations == old(self).delegations,
            final(self).status == old(self).status,
    {
        let amount = match self.delegation_amount(collator) {
            Some(a) => a,
            None => {
                return Err(Error::DelegationDNE);
            },
        };
        if amount < min_delegation.saturating_add(less) {
            return Err(Error::DelegationBelowMin);
        }
        let when = now.saturating_add(delay);
        match self.requests.bond_less(collator, less, when) {
            Ok(()) => Ok(when),
            Err(e) => Err(e),
        }
    }

    /// Schedules the revocation of the delegation to `collator`, executable
    /// `delay` rounds after `now`; returns `(now, when)`.
    pub fn schedule_revoke(&mut self, collator: AccountId, now: RoundIndex, delay: RoundIndex) -> (r: Result<
        (RoundIndex, RoundIndex),
        Error,
    >)
        requires
            old(self).delegations.wf(),
        ensures
            !has_key(old(self).delegations@, collator) ==> r == Err::<
                (RoundIndex, RoundIndex),
                Error,
            >(Error::DelegationDNE) && *final(self) == *old(self),
            has_key(old(self).delegations@, collator) ==> if old(self).requests.requests@.contains_key(collator) {
                r == Err::<(RoundIndex, RoundIndex), Error>(
                    Error::PendingDelegationRequestAlreadyExists,
                ) && final(self).requests.requests@ == old(self).requests.requests@
            } else {
                r == Ok::<(RoundIndex, RoundIndex), Error>((now, sat_add_u32(now, delay)))
                    && final(self).requests.requests@ == old(self).requests.requests@.insert(
                    collator,
                    DelegationRequest {
                        collator,
                        amount: bond_of(old(self).delegations@, collator).amount,
                        when_executable: sat_add_u32(now, delay),
                        action: DelegationChange::Revoke,
                    },
                )
            },
            final(self).id == old(self).id,
            final(self).delegations == old(self).delegations,
            final(self).status == old(self).status,
    {
        let amount = match self.delegation_amount(collator) {
            Some(a) => a,
            None => {
                return Err(Error::DelegationDNE);
            },
        };
        let when = now.saturating_add(delay);
        match self.requests.revoke(collator, amount, when) {
            Ok(()) => Ok((now, when)),
            Err(e) => Err(e),
        }
    }

    /// Removes and returns the pending request for `candidate`.
    pub fn cancel_pending_request(&mut self, candidate: AccountId) -> (r: Result<DelegationRequest, Error>)
        ensures
            old(self).requests.requests@.contains_key(candidate) ==> r == Ok::<
                DelegationRequest,
                Error,
            >(old(self).requests.requests@[candidate]) && final(self).requests.requests@ == old(self).requests.requests@.remove(candidate),
            !old(self).requests.requests@.contains_key(candidate) ==> r == Err::<
                DelegationRequest,
                Error,
            >(Error::PendingDelegationRequestDNE) && final(self).requests.requests@ == old(self).requests.requests@,
            final(self).id == old(self).id,
            final(self).delegations == old(self).delegations,
            final(self).status == old(self).status,
    {
        match self.requests.requests.remove(&candidate) {
            Some(req) => Ok(req),
            None => Err(Error::PendingDelegationRequestDNE),
        }
    }

    /// Whether there is a delegation to `collator`.
    pub fn has_delegation(&self, collator: AccountId) -> (r: bool)
        ensures
            r == has_key(self.delegations@, collator),
    {
        let mut i: usize = 0;
        while i < self.delegations.0.len()
            invariant
                i <= self.delegations@.len(),
                forall|j: int| 0 <= j < i ==> self.delegations@[j].owner != collator,
            decreases self.delegations@.len() - i,
        {
            if self.delegations.0[i].owner == collator {
                return true;
            }
            i = i + 1;
        }
        false
    }

    /// The amount delegated to `collator`, if any.
    pub fn delegation_amount(&self, collator: AccountId) -> (r: Option<Balance>)
        requires
            self.delegations.wf(),
        ensures
            r == (if has_key(self.delegations@, collator) {
                Some(bond_of(self.delegations@, collator).amount)
            } else {
                None::<Balance>
            }),
    {
        let mut i: usize = 0;
        while i < self.delegations.0.len()
            invariant
                self.delegations.wf(),
                i <= self.delegations@.len(),
                forall|j: int| 0 <= j < i ==> self.delegations@[j].owner != collator,
            decreases self.delegations@.len() - i,
        {
            if self.delegations.0[i].owner == collator {
                proof {
                    let s = self.delegations@;
                    let k = choose|k: int| 0 <= k < s.len() && s[k].owner == collator;
                    if k != i {
                        if k < i {
                            assert(s[k].spec_key() < s[i as int].spec_key());
                        } else {
                            assert(s[i as int].spec_key() < s[k].spec_key());
                        }
                    }
                }
                return Some(self.delegations.0[i].amount);
            }
            i = i + 1;
        }
        None
    }
}

} // verus!
