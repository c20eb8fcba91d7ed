//! Per-session bookkeeping of scheduled (third-party) rewards and of the
//! liquidity activated for them. Changes made during a session are kept as
//! pending and count from the next session on.

use crate::Balance;
use vstd::prelude::*;

verus! {

/// Session numbers of the proof-of-stake pallet.
pub type SessionId = u32;

/// Liquidity activated for one schedule: the settled total and the changes
/// pending from session `pending_session_id`.
#[derive(Clone, Copy, Debug, PartialEq, Eq, Structural)]
pub struct ActivatedLiquidityPerSchedule {
    pub pending_positive: Balance,
    pub pending_negative: Balance,
    pub pending_session_id: SessionId,
    pub total: Balance,
}

/// Whether activated liquidity grows or shrinks.
#[derive(Clone, Copy, Debug, PartialEq, Eq, Structural)]
pub enum LiquidityModification {
    Increase,
    Decrease,
}

impl ActivatedLiquidityPerSchedule {
    /// Nothing activated, nothing pending, at session zero.
    pub fn default() -> (r: ActivatedLiquidityPerSchedule)
        ensures
            r == (ActivatedLiquidityPerSchedule { pending_positive: 0, pending_negative: 0, pending_session_id: 0, total: 0 }),
    {
        ActivatedLiquidityPerSchedule { pending_positive: 0, pending_negative: 0, pending_session_id: 0, total: 0 }
    }

    /// The activated liquidity in session `now`: pending changes count once
    /// their session is over.
    pub open spec fn spec_total(&self, now: SessionId) -> int {
        if now <= self.pending_session_id {
            self.total as int
        } else {
            self.total + self.pending_positive - self.pending_negative
        }
    }

    /// Settling the pending changes does not overflow or go negative.
    pub open spec fn settles(&self) -> bool {
        0 <= self.total + self.pending_positive - self.pending_negative <= u128::MAX
            && self.total + self.pending_positive <= u128::MAX
    }

    /// The state after a change of `amount` of kind `kind` in session `now`.
    pub open spec fn updated(&self, now: SessionId, amount: Balance, kind: LiquidityModification) -> ActivatedLiquidityPerSchedule {
        if now <= self.pending_session_id {
            if kind == LiquidityModification::Increase {
                ActivatedLiquidityPerSchedule { pending_positive: (self.pending_positive + amount) as u128, ..*self }
            } else {
                ActivatedLiquidityPerSchedule { pending_negative: (self.pending_negative + amount) as u128, ..*self }
            }
        } else {
            ActivatedLiquidityPerSchedule {
                total: self.spec_total(now) as u128,
                pending_positive: if kind == LiquidityModification::Increase { amount } else { 0 },
                pending_negative: if kind == LiquidityModification::Increase { 0 } else { amount },
                pending_session_id: now,
            }
        }
    }

    /// Recording a change of `amount` of kind `kind` in session `now` does not
    /// overflow.
    pub open spec fn can_update(&self, now: SessionId, amount: Balance, kind: LiquidityModification) -> bool {
        &&& now <= self.pending_session_id ==> (if kind == LiquidityModification::Increase {
            self.pending_positive + amount <= u128::MAX
        } else {
            self.pending_negative + amount <= u128::MAX
        })
        &&& now > self.pending_session_id ==> self.settles()
    }

    /// The activated liquidity in session `now`.
    pub fn total(&self, now: SessionId) -> (r: Balance)
        requires
            now > self.pending_session_id ==> self.settles(),
        ensures
            r == self.spec_total(now),
    {
        if now <= self.pending_session_id {
            self.total
        } else {
            self.total + self.pending_positive - self.pending_negative
        }
    }

    /// Records a change of `amount` in session `now`: it joins the pending
    /// changes of the session, after the changes of earlier sessions are
    /// settled into the total.
    pub fn update(&mut self, now: SessionId, amount: Balance, kind: LiquidityModification)
        requires
            old(self).can_update(now, amount, kind),
        ensures
            *final(self) == old(self).updated(now, amount, kind),
    {
        if now <= self.pending_session_id {
            if kind == LiquidityModification::Increase {
                self.pending_positive = self.pending_positive + amount;
            } else {
                self.pending_negative = self.pending_negative + amount;
            }
        } else {
            self.total = self.total + self.pending_positive - self.pending_negative;
            if kind == LiquidityModification::Increase {
                self.pending_positive = amount;
                self.pending_negative = 0;
            } else {
                self.pending_positive = 0;
                self.pending_negative = amount;
            }
            self.pending_session_id = now;
        }
    }
}

/// Rewards of one schedule pair: those provided in session
/// `pending_session_id` stay pending until it is over, then join `total`.
#[derive(Clone, Copy, Debug, PartialEq, Eq, Structural)]
pub struct ScheduleRewards {
    pub pending: Balance,
    pub pending_session_id: SessionId,
    pub total: Balance,
}

impl ScheduleRewards {
    /// No rewards, at session zero.
    pub fn default() -> (r: ScheduleRewards)
        ensures
            r == (ScheduleRewards { pending: 0, pending_session_id: 0, total: 0 }),
    {
        ScheduleRewards { pending: 0, pending_session_id: 0, total: 0 }
    }

    /// The rewards ready for distribution in session `now`.
    pub open spec fn spec_total_rewards(&self, now: SessionId) -> int {
        if now <= self.pending_session_id {
            self.total as int
        } else {
            self.total + self.pending
        }
    }

    /// The state after `amount` of rewards is provided in session `now`.
    pub open spec fn provided(&self, now: SessionId, amount: Balance) -> ScheduleRewards {
        if now <= self.pending_session_id {
            ScheduleRewards { pending: (self.pending + amount) as u128, ..*self }
        } else {
            ScheduleRewards { total: (self.total + self.pending) as u128, pending: amount, pending_session_id: now }
        }
    }

    /// Providing `amount` in session `now` does not overflow.
    pub open spec fn can_provide(&self, now: SessionId, amount: Balance) -> bool {
        &&& now <= self.pending_session_id ==> self.pending + amount <= u128::MAX
        &&& now > self.pending_session_id ==> self.total + self.pending <= u128::MAX
    }

    /// The state after the rewards of sessions before `now` are settled.
    pub open spec fn transferred(&self, now: SessionId) -> ScheduleRewards {
        if now > self.pending_session_id {
            ScheduleRewards { total: (self.total + self.pending) as u128, pending: 0, pending_session_id: now }
        } else {
            *self
        }
    }

    /// Adds `amount` of rewards provided in session `now`.
    pub fn provide_rewards(&mut self, now: SessionId, amount: Balance)
        requires
            old(self).can_provide(now, amount),
        ensures
            *final(self) == old(self).provided(now, amount),
    {
        if now <= self.pending_session_id {
            self.pending = self.pending + amount;
        } else {
            self.total = self.total + self.pending;
            self.pending = amount;
            self.pending_session_id = now;
        }
    }

    /// The rewards ready for distribution in session `now`.
    pub fn total_rewards(&self, now: SessionId) -> (r: Balance)
        requires
            now > self.pending_session_id ==> self.total + self.pending <= u128::MAX,
        ensures
            r == self.spec_total_rewards(now),
    {
        if now <= self.pending_session_id {
            self.total
        } else {
            self.total + self.pending
        }
    }

    /// Moves the rewards of sessions before `now` into the total.
    pub fn transfer_pending(&mut self, now: SessionId)
        requires
            now > old(self).pending_session_id ==> old(self).total + old(self).pending <= u128::MAX,
        ensures
            *final(self) == old(self).transferred(now),
    {
        if now > self.pending_session_id {
            self.total = self.total + self.pending;
            self.pending = 0;
            self.pending_session_id = now;
        }
    }

    /// Forgets all rewards, pending ones included, as of session `now`.
    pub fn clear(&mut self, now: SessionId)
        ensures
            *final(self) == (ScheduleRewards { total: 0, pending: 0, pending_session_id: now }),
    {
        self.total = 0;
        self.pending = 0;
        self.pending_session_id = now;
    }

    /// The state after the rewards ready in session `now` are taken out for
    /// distribution: those still pending stay for a later session.
    pub open spec fn taken(&self, now: SessionId) -> ScheduleRewards {
        ScheduleRewards { total: 0, ..self.transferred(now) }
    }

    /// Takes out the rewards ready for distribution in session `now` (those of
    /// earlier sessions), keeping the rewards provided in `now` or later as
    /// pending.
    pub fn take_ready(&mut self, now: SessionId)
        requires
            now > old(self).pending_session_id ==> old(self).total + old(self).pending <= u128::MAX,
        ensures
            *final(self) == old(self).taken(now),
    {
        self.transfer_pending(now);
        self.total = 0;
    }
}

/// Settling pending rewards does not change the rewards ready in the same
/// session.
pub proof fn law_transfer_pending_keeps_total(s: ScheduleRewards, now: SessionId)
    requires
        now > s.pending_session_id ==> s.total + s.pending <= u128::MAX,
    ensures
        s.transferred(now).spec_total_rewards(now) == s.spec_total_rewards(now),
{
}

/// Taking out the rewards ready in a session leaves exactly what becomes ready
/// in the next one: the rewards ready then, less those taken.
pub proof fn law_take_ready_keeps_next_session(s: ScheduleRewards, now: SessionId)
    requires
        now > s.pending_session_id ==> s.total + s.pending <= u128::MAX,
        now < u32::MAX,
    ensures
        s.taken(now).spec_total_rewards(now) == 0,
        s.taken(now).spec_total_rewards((now + 1) as SessionId)
            == s.spec_total_rewards((now + 1) as SessionId) - s.spec_total_rewards(now),
{
}

/// Rewards provided in a session are not ready in that session, and are ready,
/// all of them, in any later session.
pub proof fn law_provided_rewards_count_later(s: ScheduleRewards, now: SessionId, amount: Balance, later: SessionId)
    requires
        now >= s.pending_session_id,
        now < later,
        s.can_provide(now, amount),
    ensures
        s.provided(now, amount).spec_total_rewards(now) == s.spec_total_rewards(now),
        s.provided(now, amount).spec_total_rewards(later) == s.spec_total_rewards(later) + amount,
{
}

/// A change of activated liquidity does not count in its own session, and
/// counts, in full, in any later session.
pub proof fn law_activation_counts_next_session(
    s: ActivatedLiquidityPerSchedule,
    now: SessionId,
    amount: Balance,
    kind: LiquidityModification,
    later: SessionId,
)
    requires
        now >= s.pending_session_id,
        now < later,
        s.settles(),
        s.can_update(now, amount, kind),
    ensures
        s.updated(now, amount, kind).spec_total(now) == s.spec_total(now),
        s.updated(now, amount, kind).spec_total(later) == s.spec_total(later) + (if kind
            == LiquidityModification::Increase {
            amount as int
        } else {
            -(amount as int)
        }),
{
}

} // verus!
