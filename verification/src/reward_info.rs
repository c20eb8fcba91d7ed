//! Reward checkpoints of an account's activated liquidity, and the curves by
//! which rewards accrue between checkpoints.
//!
//! Pool ratios are cumulative rewards per unit of liquidity, scaled by
//! `u128::MAX`. The asymptotic curve of native liquidity mining rises with
//! `1.03` to the power of the sessions passed, scaled by ten thousand; those
//! powers are computed in floating point by the caller and handed in.

use crate::arith::{pow256, U256};
use crate::Balance;
use vstd::prelude::*;

verus! {

/// Precision of the curve computations.
pub open spec fn rewards_precision() -> int {
    10000
}

/// `a - b` when it is not negative.
pub open spec fn sub_opt(a: int, b: int) -> Option<int> {
    if a >= b {
        Some(a - b)
    } else {
        None
    }
}

/// `a * b` when it fits in 256 bits.
pub open spec fn mul256(a: int, b: int) -> Option<int> {
    if a * b < pow256() {
        Some(a * b)
    } else {
        None
    }
}

/// `a + b` when it fits in 256 bits.
pub open spec fn add256(a: int, b: int) -> Option<int> {
    if a + b < pow256() {
        Some(a + b)
    } else {
        None
    }
}

/// `v` when it fits in a `u128`.
pub open spec fn fit128(v: int) -> Option<int> {
    if 0 <= v <= u128::MAX {
        Some(v)
    } else {
        None
    }
}

/// What is known at a checkpoint of an account's activated liquidity.
#[derive(Clone, Copy, Debug, PartialEq, Eq)]
pub struct RewardInfo {
    /// The liquidity activated.
    pub activated_amount: Balance,
    /// Rewards accrued up to the last checkpoint and not yet claimed.
    pub rewards_not_yet_claimed: Balance,
    /// Rewards claimed since the last checkpoint.
    pub rewards_already_claimed: Balance,
    /// The session of the last checkpoint.
    pub last_checkpoint: u32,
    /// The pool's cumulative rewards per liquidity at the last checkpoint.
    pub pool_ratio_at_last_checkpoint: U256,
    /// Where the account stood on the rewards curve at the last checkpoint.
    pub missing_at_last_checkpoint: U256,
}

/// The session now and the pool's cumulative rewards per liquidity now.
#[derive(Clone, Copy, Debug, PartialEq, Eq)]
pub struct RewardsContext {
    pub current_time: u32,
    pub pool_ratio_current: U256,
}

/// A failure of checkpoint arithmetic.
#[derive(Clone, Copy, Debug, PartialEq, Eq, Structural)]
pub enum RewardsCalcError {
    CheckpointMathError,
}

/// The rewards base: the activated amount times the growth of the pool ratio
/// since the checkpoint, divided by `u128::MAX`.
pub open spec fn rewards_base(ctx: RewardsContext, info: RewardInfo) -> Option<int> {
    match sub_opt(ctx.pool_ratio_current.value() as int, info.pool_ratio_at_last_checkpoint.value() as int) {
        Some(ratio) => match mul256(info.activated_amount as int, ratio) {
            Some(p) => Some(p / (u128::MAX as int)),
            None => None,
        },
        None => None,
    }
}

/// How rewards accrue between checkpoints.
pub trait CurveRewards: Sized {
    /// Whether computing the curve for `ctx` and `info` is defined (no
    /// unchecked overflow or division by zero).
    spec fn spec_curve_defined(&self, ctx: RewardsContext, info: RewardInfo) -> bool;

    /// The position on the curve now, if it can be computed.
    spec fn spec_curve_position(&self, ctx: RewardsContext, info: RewardInfo) -> Option<int>;

    /// The rewards accrued since the checkpoint, if they can be computed.
    spec fn spec_curve_rewards(&self, ctx: RewardsContext, info: RewardInfo) -> Option<int>;

    /// Computed rewards fit in a `u128`.
    proof fn lemma_rewards_fit(&self, ctx: RewardsContext, info: RewardInfo)
        ensures
            self.spec_curve_rewards(ctx, info) matches Some(v) ==> 0 <= v <= u128::MAX,
    ;

    /// The curve does not depend on what was claimed or is left to claim.
    proof fn lemma_claims_irrelevant(&self, ctx: RewardsContext, info: RewardInfo, other: RewardInfo)
        requires
            other.activated_amount == info.activated_amount,
            other.last_checkpoint == info.last_checkpoint,
            other.pool_ratio_at_last_checkpoint == info.pool_ratio_at_last_checkpoint,
            other.missing_at_last_checkpoint == info.missing_at_last_checkpoint,
        ensures
            self.spec_curve_defined(ctx, other) == self.spec_curve_defined(ctx, info),
            self.spec_curve_position(ctx, other) == self.spec_curve_position(ctx, info),
            self.spec_curve_rewards(ctx, other) == self.spec_curve_rewards(ctx, info),
    ;

    /// The position on the curve now.
    fn calculate_curve_position(&self, ctx: &RewardsContext, info: &RewardInfo) -> (r: Option<U256>)
        requires
            self.spec_curve_defined(*ctx, *info),
        ensures
            match self.spec_curve_position(*ctx, *info) {
                Some(v) => r matches Some(x) && x.value() == v,
                None => r is None,
            },
    ;

    /// The rewards accrued since the checkpoint.
    fn calculate_curve_rewards(&self, ctx: &RewardsContext, info: &RewardInfo) -> (r: Option<Balance>)
        requires
            self.spec_curve_defined(*ctx, *info),
        ensures
            match self.spec_curve_rewards(*ctx, *info) {
                Some(v) => r == Some(v as u128),
                None => r is None,
            },
    ;
}

/// Rewards that accrue in proportion to activated liquidity and the growth of
/// the pool ratio, with no curve (scheduled rewards).
#[derive(Clone, Copy, Debug, PartialEq, Eq, Structural)]
pub struct ConstCurveRewards;

impl CurveRewards for ConstCurveRewards {
    open spec fn spec_curve_defined(&self, ctx: RewardsContext, info: RewardInfo) -> bool {
        true
    }

    open spec fn spec_curve_position(&self, ctx: RewardsContext, info: RewardInfo) -> Option<int> {
        Some(0)
    }

    open spec fn spec_curve_rewards(&self, ctx: RewardsContext, info: RewardInfo) -> Option<int> {
        match rewards_base(ctx, info) {
            Some(b) => fit128(b),
            None => None,
        }
    }

    proof fn lemma_claims_irrelevant(&self, ctx: RewardsContext, info: RewardInfo, other: RewardInfo) {
    }

    proof fn lemma_rewards_fit(&self, ctx: RewardsContext, info: RewardInfo) {
    }

    fn calculate_curve_position(&self, ctx: &RewardsContext, info: &RewardInfo) -> (r: Option<U256>) {
        Some(U256::zero())
    }

    fn calculate_curve_rewards(&self, ctx: &RewardsContext, info: &RewardInfo) -> (r: Option<Balance>) {
        let base = match compute_rewards_base(ctx, info) {
            Some(b) => b,
            None => {
                return None;
            },
        };
        match base.to_u128() {
            Some(v) => Some(v),
            None => None,
        }
    }
}

/// The rewards base, as `rewards_base` states it.
fn compute_rewards_base(ctx: &RewardsContext, info: &RewardInfo) -> (r: Option<U256>)
    ensures
        match rewards_base(*ctx, *info) {
            Some(v) => r matches Some(x) && x.value() == v,
            None => r is None,
        },
{
    let ratio = match ctx.pool_ratio_current.checked_sub(&info.pool_ratio_at_last_checkpoint) {
        Some(v) => v,
        None => {
            return None;
        },
    };
    let product = match U256::from_u128(info.activated_amount).checked_mul(&ratio) {
        Some(v) => v,
        None => {
            return None;
        },
    };
    product.checked_div(&U256::from_u128(u128::MAX))
}

/// Native liquidity mining rewards, which ramp up with the sessions an amount
/// stays activated. `q_pow_elapsed` and `q_pow_next` are `floor(1.03^n * 10000)`
/// for `n == sessions`, and for one more session; the curve applies to a
/// checkpoint exactly `sessions` sessions old.
#[derive(Clone, Copy, Debug, PartialEq, Eq, Structural)]
pub struct AsymptoticCurveRewards {
    pub sessions: u32,
    pub q_pow_elapsed: u128,
    pub q_pow_next: u128,
}

/// The sessions since the checkpoint.
pub open spec fn time_passed(ctx: RewardsContext, info: RewardInfo) -> int {
    ctx.current_time - info.last_checkpoint
}

/// `missing * 103 / 3`, the asymptote the missing part tends to.
pub open spec fn asymptote_of(missing: int) -> Option<int> {
    match mul256(missing, 103) {
        Some(m) => Some(m / 3),
        None => None,
    }
}

impl AsymptoticCurveRewards {
    /// Whether the curve work is computed: some time passed and something is
    /// activated.
    pub open spec fn works(ctx: RewardsContext, info: RewardInfo) -> bool {
        time_passed(ctx, info) != 0 && info.activated_amount != 0
    }

    /// The missing part of the curve accumulated since the checkpoint.
    pub open spec fn cumulative_missing(&self, base: int, missing: int) -> int {
        base - base * rewards_precision() / (self.q_pow_next as int) - missing
    }
}

/// The native curve never pays more than full proportional rewards: what it
/// computes lies between nothing and the activated amount times the growth of
/// the pool ratio, divided by `u128::MAX`. Nothing is computed when the ratio
/// fell, and nothing accrues when no session passed.
pub proof fn law_curve_rewards_within_base(c: AsymptoticCurveRewards, ctx: RewardsContext, info: RewardInfo)
    requires
        c.spec_curve_defined(ctx, info),
    ensures
        c.spec_curve_rewards(ctx, info) matches Some(r) ==> rewards_base(ctx, info) matches Some(b) && 0 <= r <= b,
        (ctx.pool_ratio_current.value() as int) < (info.pool_ratio_at_last_checkpoint.value() as int)
            ==> c.spec_curve_rewards(ctx, info) is None,
        ctx.current_time == info.last_checkpoint && rewards_base(ctx, info) is Some
            ==> c.spec_curve_rewards(ctx, info) == Some(0int),
{
    if let Some(b) = rewards_base(ctx, info) {
        let ratio = ctx.pool_ratio_current.value() - info.pool_ratio_at_last_checkpoint.value();
        let a = info.activated_amount as int;
        let p = a * ratio;
        assert(p >= 0) by (nonlinear_arith)
            requires
                a >= 0,
                ratio >= 0,
                p == a * ratio,
        ;
        assert(b >= 0);
        if AsymptoticCurveRewards::works(ctx, info) {
            if let Some(mw) = mul256(a, time_passed(ctx, info)) {
                let t = time_passed(ctx, info);
                assert(mw > 0) by (nonlinear_arith)
                    requires
                        a > 0,
                        t > 0,
                        mw == a * t,
                ;
                let missing = info.missing_at_last_checkpoint.value() as int;
                if let Some(base) = asymptote_of(missing) {
                    if t + 1 <= u32::MAX {
                        if let Some(work) = sub_opt(mw, c.cumulative_missing(base, missing)) {
                            if let Some(q) = mul256(b, work) {
                                assert(0 <= q / mw <= b) by (nonlinear_arith)
                                    requires
                                        q == b * work,
                                        b >= 0,
                                        0 <= work <= mw,
                                        mw > 0,
                                {
                                    assert(b * work <= b * mw);
                                    assert((b * mw) / mw == b);
                                    assert(q / mw <= (b * mw) / mw) by {
                                        vstd::arithmetic::div_mod::lemma_div_is_ordered(q, b * mw, mw);
                                    }
                                }
                            }
                        }
                    }
                }
            }
        }
    }
}

impl CurveRewards for AsymptoticCurveRewards {
    open spec fn spec_curve_defined(&self, ctx: RewardsContext, info: RewardInfo) -> bool {
        let missing = info.missing_at_last_checkpoint.value() as int;
        &&& ctx.current_time >= info.last_checkpoint
        &&& self.sessions == time_passed(ctx, info)
        &&& self.q_pow_elapsed > 0
        &&& missing * rewards_precision() < pow256()
        &&& (Self::works(ctx, info) && rewards_base(ctx, info) is Some
            && mul256(info.activated_amount as int, time_passed(ctx, info)) is Some
            && asymptote_of(missing) is Some && ctx.current_time - info.last_checkpoint < u32::MAX) ==> {
            let base = asymptote_of(missing)->0;
            &&& self.q_pow_next > 0
            &&& base * rewards_precision() < pow256()
            &&& base - base * rewards_precision() / (self.q_pow_next as int) - missing >= 0
        }
    }

    open spec fn spec_curve_position(&self, ctx: RewardsContext, info: RewardInfo) -> Option<int> {
        Some((info.missing_at_last_checkpoint.value() as int) * rewards_precision() / (self.q_pow_elapsed as int))
    }

    open spec fn spec_curve_rewards(&self, ctx: RewardsContext, info: RewardInfo) -> Option<int> {
        let missing = info.missing_at_last_checkpoint.value() as int;
        match rewards_base(ctx, info) {
            None => None,
            Some(b) => if Self::works(ctx, info) {
                match mul256(info.activated_amount as int, time_passed(ctx, info)) {
                    None => None,
                    Some(max_work) => match asymptote_of(missing) {
                        None => None,
                        Some(base) => if time_passed(ctx, info) + 1 > u32::MAX {
                            None
                        } else {
                            match sub_opt(max_work, self.cumulative_missing(base, missing)) {
                                None => None,
                                Some(work) => match mul256(b, work) {
                                    None => None,
                                    Some(p) => fit128(p / max_work),
                                },
                            }
                        },
                    },
                }
            } else {
                Some(0)
            },
        }
    }

    proof fn lemma_claims_irrelevant(&self, ctx: RewardsContext, info: RewardInfo, other: RewardInfo) {
    }

    proof fn lemma_rewards_fit(&self, ctx: RewardsContext, info: RewardInfo) {
    }

    fn calculate_curve_position(&self, ctx: &RewardsContext, info: &RewardInfo) -> (r: Option<U256>) {
        let scaled = info.missing_at_last_checkpoint.checked_mul(&U256::from_u128(10000)).unwrap();
        scaled.checked_div(&U256::from_u128(self.q_pow_elapsed))
    }

    fn calculate_curve_rewards(&self, ctx: &RewardsContext, info: &RewardInfo) -> (r: Option<Balance>) {
        let base_rewards = match compute_rewards_base(ctx, info) {
            Some(b) => b,
            None => {
                return None;
            },
        };
        let time_passed: u32 = ctx.current_time - info.last_checkpoint;
        if time_passed == 0 || info.activated_amount == 0 {
            return Some(0);
        }
        let max_work = match U256::from_u128(info.activated_amount).checked_mul(&U256::from_u128(time_passed as u128)) {
            Some(v) => v,
            None => {
                return None;
            },
        };
        proof {
            let a = info.activated_amount as int;
            let t = time_passed as int;
            assert(a * t > 0) by (nonlinear_arith)
                requires
                    a > 0,
                    t > 0,
            ;
        }
        let base = match info.missing_at_last_checkpoint.checked_mul(&U256::from_u128(103)) {
            Some(v) => v.checked_div(&U256::from_u128(3)).unwrap(),
            None => {
                return None;
            },
        };
        if time_passed == u32::MAX {
            return None;
        }
        let scaled = base.checked_mul(&U256::from_u128(10000)).unwrap();
        let share = scaled.checked_div(&U256::from_u128(self.q_pow_next)).unwrap();
        let cumulative_missing_new = base.checked_sub(&share).unwrap().checked_sub(&info.missing_at_last_checkpoint).unwrap();
        let work = match max_work.checked_sub(&cumulative_missing_new) {
            Some(v) => v,
            None => {
                return None;
            },
        };
        let product = match base_rewards.checked_mul(&work) {
            Some(v) => v,
            None => {
                return None;
            },
        };
        match product.checked_div(&max_work) {
            Some(v) => v.to_u128(),
            None => None,
        }
    }
}

/// A curve, the context now and an account's last checkpoint: what the
/// rewards calculations start from.
pub struct RewardsCalculator<C> {
    pub rewards_context: RewardsContext,
    pub rewards_info: RewardInfo,
    pub curve: C,
}

/// `current + not_yet - already`, the rewards available to claim, when
/// neither step leaves a `u128`.
pub open spec fn available_of(current: int, not_yet: int, already: int) -> Option<int> {
    match fit128(current + not_yet) {
        Some(t) => sub_opt(t, already),
        None => None,
    }
}

/// `r` is a checkpoint with these contents.
pub open spec fn checkpoint_is(
    r: RewardInfo,
    activated: int,
    ratio: U256,
    missing: int,
    not_yet: int,
    time: u32,
) -> bool {
    &&& r.activated_amount == activated
    &&& r.pool_ratio_at_last_checkpoint == ratio
    &&& r.missing_at_last_checkpoint.value() == missing
    &&& r.rewards_not_yet_claimed == not_yet
    &&& r.rewards_already_claimed == 0
    &&& r.last_checkpoint == time
}

impl<C: CurveRewards> RewardsCalculator<C> {
    /// The calculator for `info` at `ctx` on `curve`.
    pub fn new(rewards_context: RewardsContext, rewards_info: RewardInfo, curve: C) -> (r: Self)
        ensures
            r.rewards_context == rewards_context,
            r.rewards_info == rewards_info,
            r.curve == curve,
    {
        RewardsCalculator { rewards_context, rewards_info, curve }
    }

    /// The curve is defined for this context and checkpoint.
    pub open spec fn defined(&self) -> bool {
        self.curve.spec_curve_defined(self.rewards_context, self.rewards_info)
    }

    /// The rewards accrued since the checkpoint, if they can be computed.
    pub open spec fn current_rewards(&self) -> Option<int> {
        self.curve.spec_curve_rewards(self.rewards_context, self.rewards_info)
    }

    /// The rewards available to claim, if they can be computed.
    pub open spec fn available(&self) -> Option<int> {
        match self.current_rewards() {
            Some(c) => available_of(c, self.rewards_info.rewards_not_yet_claimed as int, self.rewards_info.rewards_already_claimed as int),
            None => None,
        }
    }

    /// The checkpoint after claiming: nothing left unclaimed, the current
    /// rewards counted as claimed.
    pub open spec fn claimed_info(&self) -> RewardInfo {
        RewardInfo {
            rewards_not_yet_claimed: 0,
            rewards_already_claimed: self.current_rewards()->0 as u128,
            ..self.rewards_info
        }
    }

    fn calculate_rewards_impl(&self) -> (r: Result<Balance, RewardsCalcError>)
        requires
            self.defined(),
        ensures
            match self.current_rewards() {
                Some(v) => r == Ok::<Balance, RewardsCalcError>(v as u128) && 0 <= v <= u128::MAX,
                None => r == Err::<Balance, RewardsCalcError>(RewardsCalcError::CheckpointMathError),
            },
    {
        proof {
            self.curve.lemma_rewards_fit(self.rewards_context, self.rewards_info);
        }
        match self.curve.calculate_curve_rewards(&self.rewards_context, &self.rewards_info) {
            Some(v) => Ok(v),
            None => Err(RewardsCalcError::CheckpointMathError),
        }
    }

    /// The rewards accrued since the checkpoint.
    pub fn calculate_rewards(self) -> (r: Result<Balance, RewardsCalcError>)
        requires
            self.defined(),
        ensures
            match self.current_rewards() {
                Some(v) => r == Ok::<Balance, RewardsCalcError>(v as u128),
                None => r == Err::<Balance, RewardsCalcError>(RewardsCalcError::CheckpointMathError),
            },
    {
        self.calculate_rewards_impl()
    }

    /// A new checkpoint with `liquidity_assets_added` more activated: the
    /// position on the curve moves by the amount added, and what accrued so
    /// far is kept as not yet claimed.
    pub fn activate_more(self, liquidity_assets_added: Balance) -> (r: Result<RewardInfo, RewardsCalcError>)
        requires
            self.defined(),
        ensures
            ({
                let info = self.rewards_info;
                let ctx = self.rewards_context;
                let activated = info.activated_amount + liquidity_assets_added;
                let position = self.curve.spec_curve_position(ctx, info);
                if activated <= u128::MAX && position is Some
                    && add256(position->0, liquidity_assets_added as int) is Some
                    && self.current_rewards() is Some && self.available() is Some {
                    r matches Ok(n) && checkpoint_is(n, activated, ctx.pool_ratio_current,
                        position->0 + liquidity_assets_added, self.available()->0, ctx.current_time)
                } else {
                    r == Err::<RewardInfo, RewardsCalcError>(RewardsCalcError::CheckpointMathError)
                }
            }),
    {
        let activated_amount = match self.rewards_info.activated_amount.checked_add(liquidity_assets_added) {
            Some(v) => v,
            None => {
                return Err(RewardsCalcError::CheckpointMathError);
            },
        };
        let missing_at_last_checkpoint = match self.curve.calculate_curve_position(&self.rewards_context, &self.rewards_info) {
            Some(v) => match v.checked_add(&U256::from_u128(liquidity_assets_added)) {
                Some(w) => w,
                None => {
                    return Err(RewardsCalcError::CheckpointMathError);
                },
            },
            None => {
                return Err(RewardsCalcError::CheckpointMathError);
            },
        };
        let user_current_rewards = match self.calculate_rewards_impl() {
            Ok(v) => v,
            Err(e) => {
                return Err(e);
            },
        };
        let rewards_not_yet_claimed = match user_current_rewards.checked_add(self.rewards_info.rewards_not_yet_claimed) {
            Some(v) => match v.checked_sub(self.rewards_info.rewards_already_claimed) {
                Some(w) => w,
                None => {
                    return Err(RewardsCalcError::CheckpointMathError);
                },
            },
            None => {
                return Err(RewardsCalcError::CheckpointMathError);
            },
        };
        Ok(RewardInfo {
            activated_amount,
            pool_ratio_at_last_checkpoint: self.rewards_context.pool_ratio_current,
            rewards_already_claimed: 0,
            missing_at_last_checkpoint,
            rewards_not_yet_claimed,
            last_checkpoint: self.rewards_context.current_time,
        })
    }

    /// A new checkpoint with `liquidity_assets_removed` less activated: the
    /// position on the curve shrinks in proportion, and what accrued so far is
    /// kept as not yet claimed.
    pub fn activate_less(self, liquidity_assets_removed: Balance) -> (r: Result<RewardInfo, RewardsCalcError>)
        requires
            self.defined(),
        ensures
            ({
                let info = self.rewards_info;
                let ctx = self.rewards_context;
                let position = self.curve.spec_curve_position(ctx, info);
                let activated = info.activated_amount - liquidity_assets_removed;
                if activated >= 0 && position is Some && mul256(activated, position->0) is Some
                    && info.activated_amount != 0 && self.current_rewards() is Some && self.available() is Some {
                    r matches Ok(n) && checkpoint_is(n, activated, ctx.pool_ratio_current,
                        activated * position->0 / (info.activated_amount as int), self.available()->0, ctx.current_time)
                } else {
                    r == Err::<RewardInfo, RewardsCalcError>(RewardsCalcError::CheckpointMathError)
                }
            }),
    {
        let activated_amount = match self.rewards_info.activated_amount.checked_sub(liquidity_assets_removed) {
            Some(v) => v,
            None => {
                return Err(RewardsCalcError::CheckpointMathError);
            },
        };
        let missing_at_checkpoint_new = match self.curve.calculate_curve_position(&self.rewards_context, &self.rewards_info) {
            Some(v) => v,
            None => {
                return Err(RewardsCalcError::CheckpointMathError);
            },
        };
        let missing_at_checkpoint_after_burn = match U256::from_u128(activated_amount).checked_mul(&missing_at_checkpoint_new) {
            Some(v) => match v.checked_div(&U256::from_u128(self.rewards_info.activated_amount)) {
                Some(w) => w,
                None => {
                    return Err(RewardsCalcError::CheckpointMathError);
                },
            },
            None => {
                return Err(RewardsCalcError::CheckpointMathError);
            },
        };
        let user_current_rewards = match self.calculate_rewards_impl() {
            Ok(v) => v,
            Err(e) => {
                return Err(e);
            },
        };
        let total_available_rewards = match user_current_rewards.checked_add(self.rewards_info.rewards_not_yet_claimed) {
            Some(v) => match v.checked_sub(self.rewards_info.rewards_already_claimed) {
                Some(w) => w,
                None => {
                    return Err(RewardsCalcError::CheckpointMathError);
                },
            },
            None => {
                return Err(RewardsCalcError::CheckpointMathError);
            },
        };
        Ok(RewardInfo {
            activated_amount,
            pool_ratio_at_last_checkpoint: self.rewards_context.pool_ratio_current,
            rewards_already_claimed: 0,
            missing_at_last_checkpoint: missing_at_checkpoint_after_burn,
            rewards_not_yet_claimed: total_available_rewards,
            last_checkpoint: self.rewards_context.current_time,
        })
    }

    /// Claims everything available: returns the checkpoint with nothing left
    /// unclaimed (the current rewards counted as claimed) and the amount claimed.
    pub fn claim_rewards(self) -> (r: Result<(RewardInfo, Balance), RewardsCalcError>)
        requires
            self.defined(),
        ensures
            self.current_rewards() is Some && self.available() is Some
                ==> r == Ok::<(RewardInfo, Balance), RewardsCalcError>((self.claimed_info(), self.available()->0 as u128)),
            !(self.current_rewards() is Some && self.available() is Some)
                ==> r == Err::<(RewardInfo, Balance), RewardsCalcError>(RewardsCalcError::CheckpointMathError),
    {
        let current_rewards = match self.calculate_rewards_impl() {
            Ok(v) => v,
            Err(e) => {
                return Err(e);
            },
        };
        let total_available_rewards = match current_rewards.checked_add(self.rewards_info.rewards_not_yet_claimed) {
            Some(v) => match v.checked_sub(self.rewards_info.rewards_already_claimed) {
                Some(w) => w,
                None => {
                    return Err(RewardsCalcError::CheckpointMathError);
                },
            },
            None => {
                return Err(RewardsCalcError::CheckpointMathError);
            },
        };
        let mut info = self.rewards_info;
        info.rewards_not_yet_claimed = 0;
        info.rewards_already_claimed = current_rewards;
        Ok((info, total_available_rewards))
    }
}

/// After a claim, nothing is left to claim at the same moment: the rewards
/// available to the claimed checkpoint are zero.
pub proof fn law_claim_leaves_nothing<C: CurveRewards>(c: RewardsCalculator<C>)
    requires
        c.defined(),
        c.current_rewards() is Some,
        c.available() is Some,
    ensures
        (RewardsCalculator { rewards_info: c.claimed_info(), ..c }).available() == Some(0int),
{
    c.curve.lemma_claims_irrelevant(c.rewards_context, c.rewards_info, c.claimed_info());
    c.curve.lemma_rewards_fit(c.rewards_context, c.rewards_info);
}

} // verus!
