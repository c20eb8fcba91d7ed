//! The storage of the proof-of-stake pallet and the calls that change it:
//! native liquidity mining rewards, and third-party reward schedules kept in a
//! linked list that is walked a few schedules per block.
//!
//! Moving tokens is the runtime's business: a call that needs it returns the
//! operations to perform, and a call whose operation the runtime refuses is to
//! be undone as a whole.

use crate::arith::{billion, spec_perbill_from_rational, Perbill, U256};
use crate::reward_info::{
    add256, available_of, law_claim_leaves_nothing, checkpoint_is, fit128, mul256, sub_opt, AsymptoticCurveRewards, ConstCurveRewards,
    CurveRewards, RewardInfo, RewardsCalculator, RewardsContext,
};
use crate::schedule_rewards::{ActivatedLiquidityPerSchedule, ScheduleRewards, SessionId};
use crate::{AccountId, Balance, CurrencyId};
use std::collections::BTreeMap;
use vstd::prelude::*;
use vstd::std_specs::btree::spec_keys_iter;
use vstd::std_specs::iter::IteratorSpec;

verus! {

broadcast use vstd::std_specs::btree::group_btree_axioms;

/// Identifiers of reward schedules.
pub type ScheduleId = u64;

/// The key of the pair (`a`, `b`) of tokens in the pallet's maps.
pub open spec fn spec_pair_key(a: CurrencyId, b: CurrencyId) -> u64 {
    (a as int * 0x1_0000_0000 + b as int) as u64
}

/// The key of the pair (`a`, `b`) of tokens.
pub fn pair_key(a: CurrencyId, b: CurrencyId) -> (r: u64)
    ensures
        r == spec_pair_key(a, b),
        r as int == a as int * 0x1_0000_0000 + b as int,
{
    (a as u64) * 0x1_0000_0000u64 + (b as u64)
}

/// Distinct pairs have distinct keys.
pub proof fn lemma_pair_key_injective(a: CurrencyId, b: CurrencyId, c: CurrencyId, d: CurrencyId)
    requires
        spec_pair_key(a, b) == spec_pair_key(c, d),
    ensures
        a == c && b == d,
{
    assert(a as int * 0x1_0000_0000 + b as int <= u64::MAX);
    assert(c as int * 0x1_0000_0000 + d as int <= u64::MAX);
}

/// Rewards of `amount_per_session` of `reward_token` for the liquidity of
/// `liq_token`, in every session after `scheduled_at` up to `last_session`.
#[derive(Clone, Copy, Debug, PartialEq, Eq, Structural)]
pub struct Schedule {
    pub scheduled_at: SessionId,
    pub last_session: SessionId,
    pub liq_token: CurrencyId,
    pub reward_token: CurrencyId,
    pub amount_per_session: Balance,
}

/// The ends of the list of schedules, the last schedule visited in the
/// current session, and the number of schedules.
#[derive(Clone, Copy, Debug, PartialEq, Eq, Structural)]
pub struct SchedulesList {
    pub head: Option<ScheduleId>,
    pub tail: Option<ScheduleId>,
    pub pos: Option<ScheduleId>,
    pub count: u64,
}

impl SchedulesList {
    /// The empty list.
    pub fn default() -> (r: SchedulesList)
        ensures
            r == (SchedulesList { head: None, tail: None, pos: None, count: 0 }),
    {
        SchedulesList { head: None, tail: None, pos: None, count: 0 }
    }
}

/// A pool's weight in native rewards and its cumulative rewards per liquidity.
#[derive(Clone, Copy, Debug, PartialEq, Eq)]
pub struct PromotedPools {
    pub weight: u8,
    pub rewards: U256,
}

/// Where tokens to activate are taken from.
#[derive(Clone, Copy, Debug, PartialEq, Eq, Structural)]
pub enum ActivateKind {
    AvailableBalance,
    StakedUnactivatedReserves,
    UnspentReserves,
}

/// What liquidity activated for third-party rewards comes from: reserves of
/// the given kind, liquidity already activated for another reward token, or
/// liquidity activated for native rewards.
#[derive(Clone, Copy, Debug, PartialEq, Eq, Structural)]
pub enum ThirdPartyActivationKind {
    ActivateKind(Option<ActivateKind>),
    ActivatedLiquidity(CurrencyId),
    NativeRewardsLiquidity,
}

/// Errors of the proof-of-stake pallet.
#[derive(Clone, Copy, Debug, PartialEq, Eq, Structural)]
pub enum PosError {
    NotEnoughAssets,
    MathOverflow,
    NotEnoughRewardsEarned,
    NotAPromotedPool,
    PastTimeCalculation,
    LiquidityCheckpointMathError,
    CalculateRewardsMathError,
    MathError,
    CalculateRewardsAllMathError,
    MissingRewardsInfoError,
    DeprecatedExtrinsic,
    CannotScheduleRewardsInPast,
    PoolDoesNotExist,
    TooManySchedules,
    TooLittleRewards,
    TooSmallVolume,
    LiquidityLockedIn3rdpartyRewards,
    NoThirdPartyPartyRewardsToClaim,
}

/// Events of the proof-of-stake pallet.
#[derive(Clone, Copy, Debug, PartialEq, Eq, Structural)]
pub enum PosEvent {
    PoolPromotionUpdated(CurrencyId, Option<u8>),
    LiquidityActivated(AccountId, CurrencyId, Balance),
    LiquidityDeactivated(AccountId, CurrencyId, Balance),
    RewardsClaimed(AccountId, CurrencyId, Balance),
    ThirdPartyRewardsClaimed(AccountId, CurrencyId, CurrencyId, Balance),
}

/// A token operation that a call asks the runtime to perform.
#[derive(Clone, Copy, Debug, PartialEq, Eq, Structural)]
pub enum PosCall {
    /// Move `amount` of `token` from `from` to the pallet's account.
    TransferToPallet { token: CurrencyId, from: AccountId, amount: Balance },
    /// Move `amount` of `token` from the pallet's account to `to`.
    TransferFromPallet { token: CurrencyId, to: AccountId, amount: Balance },
    /// Move `amount` of the native token from the liquidity mining vault to `to`.
    TransferFromVault { to: AccountId, amount: Balance },
    /// Activate `amount` of `token` of `account`, taken as `use_balance_from` says.
    Activate { token: CurrencyId, account: AccountId, amount: Balance, use_balance_from: Option<ActivateKind> },
    /// Deactivate `amount` of `token` of `account`.
    Deactivate { token: CurrencyId, account: AccountId, amount: Balance },
}

/// The constants the runtime configures the pallet with.
#[derive(Clone, Copy, Debug, PartialEq, Eq, Structural)]
pub struct PosConfig {
    /// The native token, paid as liquidity mining rewards.
    pub native_currency_id: CurrencyId,
    /// Blocks per rewards session.
    pub rewards_distribution_period: u32,
    /// The most schedules active at once.
    pub rewards_schedules_limit: u32,
    /// The least valuation of a schedule's rewards per session.
    pub min3rd_party_reward_valutation_per_session: u128,
    /// The least native reserves of a reward token's pool.
    pub min3rd_party_reward_volume: u128,
    /// Schedules visited per block.
    pub schedules_per_block: u32,
}

/// The part of the storage that walking the schedules reads and writes.
pub struct ListView {
    pub meta: SchedulesList,
    pub list: Map<ScheduleId, (Schedule, Option<ScheduleId>)>,
    pub totals: Map<u64, ScheduleRewards>,
}

/// The schedule a walk step visits: the one after the last visited, or the
/// head when none was visited this session.
pub open spec fn next_pos(v: ListView) -> Option<ScheduleId> {
    match v.meta.pos {
        Some(p) => if v.list.contains_key(p) {
            v.list[p].1
        } else {
            None
        },
        None => v.meta.head,
    }
}

/// The rewards of pair key `k` in `totals`, empty when there are none.
pub open spec fn totals_at(totals: Map<u64, ScheduleRewards>, k: u64) -> ScheduleRewards {
    if totals.contains_key(k) {
        totals[k]
    } else {
        ScheduleRewards { pending: 0, pending_session_id: 0, total: 0 }
    }
}

/// One step of the walk in session `sid`: a schedule still running provides
/// its rewards for the session (if it started before it) and becomes the last
/// visited; an expired schedule is unlinked.
pub open spec fn walk_step(v: ListView, sid: SessionId) -> ListView {
    let last_valid = v.meta.pos;
    match next_pos(v) {
        None => v,
        Some(pv) => if !v.list.contains_key(pv) {
            v
        } else {
            let schedule = v.list[pv].0;
            let next = v.list[pv].1;
            if schedule.last_session >= sid {
                let k = spec_pair_key(schedule.liq_token, schedule.reward_token);
                ListView {
                    meta: SchedulesList { pos: Some(pv), ..v.meta },
                    totals: if schedule.scheduled_at < sid {
                        v.totals.insert(k, totals_at(v.totals, k).provided(sid, schedule.amount_per_session))
                    } else {
                        v.totals
                    },
                    ..v
                }
            } else {
                let meta = v.meta;
                if meta.head is Some && meta.tail is Some {
                    let head = meta.head->0;
                    let tail = meta.tail->0;
                    if head == pv && head != tail {
                        match next {
                            Some(n) => ListView { meta: SchedulesList { head: Some(n), count: (meta.count - 1) as u64, ..meta }, ..v },
                            None => v,
                        }
                    } else if tail == pv && head == tail {
                        ListView { meta: SchedulesList { tail: None, head: None, pos: None, count: 0 }, ..v }
                    } else if tail == pv && head != tail {
                        match last_valid {
                            Some(lv) => ListView {
                                meta: SchedulesList { tail: Some(lv), count: (meta.count - 1) as u64, ..meta },
                                list: if v.list.contains_key(lv) {
                                    v.list.insert(lv, (v.list[lv].0, None))
                                } else {
                                    v.list
                                },
                                ..v
                            },
                            None => v,
                        }
                    } else {
                        match last_valid {
                            Some(lv) => ListView {
                                meta: SchedulesList { count: (meta.count - 1) as u64, ..meta },
                                list: if v.list.contains_key(lv) {
                                    v.list.insert(lv, (v.list[lv].0, next))
                                } else {
                                    v.list
                                },
                                ..v
                            },
                            None => v,
                        }
                    }
                } else {
                    v
                }
            }
        },
    }
}

/// The step does not overflow: rewards provided fit, and a count that goes
/// down is not zero.
pub open spec fn walk_step_ok(v: ListView, sid: SessionId) -> bool {
    match next_pos(v) {
        None => true,
        Some(pv) => if !v.list.contains_key(pv) {
            true
        } else {
            let schedule = v.list[pv].0;
            let next = v.list[pv].1;
            if schedule.last_session >= sid {
                schedule.scheduled_at < sid ==> totals_at(
                    v.totals,
                    spec_pair_key(schedule.liq_token, schedule.reward_token),
                ).can_provide(sid, schedule.amount_per_session)
            } else {
                let meta = v.meta;
                meta.head is Some && meta.tail is Some && !(meta.tail->0 == pv && meta.head->0 == meta.tail->0)
                    && (meta.head->0 == pv ==> next is Some) && (meta.head->0 != pv ==> v.meta.pos is Some)
                    ==> meta.count > 0
            }
        },
    }
}

/// The walk of at most `n` steps, stopping when no schedule is left to visit.
pub open spec fn walk(v: ListView, sid: SessionId, n: nat) -> ListView
    decreases n,
{
    if n == 0 || next_pos(v) is None {
        v
    } else {
        walk(walk_step(v, sid), sid, (n - 1) as nat)
    }
}

/// Every step of the walk of at most `n` steps is defined.
pub open spec fn walk_ok(v: ListView, sid: SessionId, n: nat) -> bool
    decreases n,
{
    if n == 0 || next_pos(v) is None {
        true
    } else {
        walk_step_ok(v, sid) && walk_ok(walk_step(v, sid), sid, (n - 1) as nat)
    }
}

/// Each link of the schedule list leads to a larger id, so following the
/// links never comes back to a schedule.
pub open spec fn links_increase(list: Map<ScheduleId, (Schedule, Option<ScheduleId>)>) -> bool {
    forall|id: ScheduleId| #[trigger] list.contains_key(id) && list[id].1 is Some ==> id < list[id].1->0
}

/// Setting one entry whose link (if any) leads to a larger id keeps the links
/// increasing.
pub proof fn lemma_links_set(list: Map<ScheduleId, (Schedule, Option<ScheduleId>)>, id: ScheduleId, e: (Schedule, Option<ScheduleId>))
    requires
        links_increase(list),
        e.1 matches Some(n) ==> id < n,
    ensures
        links_increase(list.insert(id, e)),
{
    let l2 = list.insert(id, e);
    assert forall|x: ScheduleId| #[trigger] l2.contains_key(x) && l2[x].1 is Some implies x < l2[x].1->0 by {
        if x != id {
            assert(l2[x] == list[x]);
        }
    }
}

/// The list has both ends or neither.
pub open spec fn ends_agree(meta: SchedulesList) -> bool {
    meta.head is None <==> meta.tail is None
}

/// A step of the walk, and so a walk, keeps the list with both ends or neither.
pub proof fn lemma_walk_ends(v: ListView, sid: SessionId, n: nat)
    requires
        ends_agree(v.meta),
    ensures
        ends_agree(walk_step(v, sid).meta),
        ends_agree(walk(v, sid, n).meta),
    decreases n,
{
    if n > 0 && next_pos(v) is Some {
        lemma_walk_ends(walk_step(v, sid), sid, (n - 1) as nat);
    }
}

/// A step of the walk keeps the links increasing.
pub proof fn lemma_walk_step_links(v: ListView, sid: SessionId)
    requires
        links_increase(v.list),
    ensures
        links_increase(walk_step(v, sid).list),
{
    let w = walk_step(v, sid);
    match next_pos(v) {
        None => {},
        Some(pv) => {
            if v.list.contains_key(pv) && v.list[pv].0.last_session < sid {
                if let Some(lv) = v.meta.pos {
                    if v.list.contains_key(lv) {
                        assert(v.list[lv].1 == Some(pv));
                        assert forall|id: ScheduleId| #[trigger] w.list.contains_key(id) && w.list[id].1 is Some
                            implies id < w.list[id].1->0 by {
                            if id != lv {
                                assert(w.list[id] == v.list[id]);
                            }
                        }
                    }
                }
            }
        },
    }
}

/// The walk of at most `n` steps keeps the links increasing.
pub proof fn lemma_walk_links(v: ListView, sid: SessionId, n: nat)
    requires
        links_increase(v.list),
    ensures
        links_increase(walk(v, sid, n).list),
    decreases n,
{
    if n > 0 && next_pos(v) is Some {
        lemma_walk_step_links(v, sid);
        lemma_walk_links(walk_step(v, sid), sid, (n - 1) as nat);
    }
}

/// Within a session the walk moves forward: the schedule it visits next lies
/// after the last one visited, and the last visited never moves back. So no
/// schedule is visited, and credited, twice before the position is reset at
/// the end of the session.
pub proof fn law_walk_moves_forward(v: ListView, sid: SessionId)
    requires
        links_increase(v.list),
        v.meta.pos matches Some(p) && v.list.contains_key(p),
    ensures
        next_pos(v) matches Some(q) ==> v.meta.pos->0 < q,
        walk_step(v, sid).meta.pos matches Some(q) ==> v.meta.pos->0 <= q,
{
}

/// `ids` is the list of schedules `list` links from its first to its last:
/// each is stored, links to the next, the last links nowhere, and the ids
/// increase.
pub open spec fn linked(list: Map<ScheduleId, (Schedule, Option<ScheduleId>)>, ids: Seq<ScheduleId>) -> bool {
    &&& forall|i: int| 0 <= i < ids.len() ==> #[trigger] list.contains_key(ids[i])
    &&& forall|i: int| 0 <= i < ids.len() - 1 ==> #[trigger] list[ids[i]].1 == Some(ids[i + 1])
    &&& ids.len() > 0 ==> list[ids.last()].1 is None
    &&& forall|i: int, j: int| 0 <= i < j < ids.len() ==> ids[i] < ids[j]
}

/// The schedule list of `meta` and `list` is `ids`: the ids reachable from the
/// head, in order, ending at the tail, as many as the count says, with the last
/// visited one of them (if any).
pub open spec fn list_of(meta: SchedulesList, list: Map<ScheduleId, (Schedule, Option<ScheduleId>)>, ids: Seq<ScheduleId>) -> bool {
    &&& linked(list, ids)
    &&& meta.head == (if ids.len() == 0 { None } else { Some(ids[0]) })
    &&& meta.tail == (if ids.len() == 0 { None } else { Some(ids.last()) })
    &&& meta.count == ids.len()
    &&& meta.pos matches Some(p) ==> ids.contains(p)
}

/// The schedule list is well formed: some list of ids is reachable from the
/// head, acyclic with increasing ids, ends at the tail, is as long as the count
/// says, and holds the last visited schedule.
pub open spec fn list_wf(meta: SchedulesList, list: Map<ScheduleId, (Schedule, Option<ScheduleId>)>) -> bool {
    exists|ids: Seq<ScheduleId>| #[trigger] list_of(meta, list, ids)
}

/// The index of `x` in the increasing `ids` is the only one holding it.
proof fn lemma_increasing_index(ids: Seq<ScheduleId>, a: int, b: int)
    requires
        forall|i: int, j: int| 0 <= i < j < ids.len() ==> ids[i] < ids[j],
        0 <= a < ids.len(),
        0 <= b < ids.len(),
        ids[a] == ids[b],
    ensures
        a == b,
{
    if a < b {
        assert(ids[a] < ids[b]);
    } else if b < a {
        assert(ids[b] < ids[a]);
    }
}

/// The schedule the walk visits next is on the list, right after the last
/// visited (or first when none was visited).
proof fn lemma_next_on_list(v: ListView, ids: Seq<ScheduleId>)
    requires
        list_of(v.meta, v.list, ids),
        next_pos(v) is Some,
    ensures
        exists|k: int| 0 <= k < ids.len() && ids[k] == next_pos(v)->0
            && (v.meta.pos matches Some(p) ==> k > 0 && ids[k - 1] == p)
            && (v.meta.pos is None ==> k == 0),
{
    match v.meta.pos {
        None => {
            assert(ids.len() > 0);
            assert(ids[0] == next_pos(v)->0);
        },
        Some(p) => {
            let m = choose|m: int| 0 <= m < ids.len() && ids[m] == p;
            assert(v.list.contains_key(ids[m]));
            if m == ids.len() - 1 {
                assert(v.list[ids.last()].1 is None);
            }
            assert(v.list[ids[m]].1 == Some(ids[m + 1]));
            assert(ids[m + 1] == next_pos(v)->0);
        },
    }
}

/// A step of the walk keeps the schedule list well formed: a running schedule
/// stays on it and becomes the last visited; an expired one leaves it.
pub proof fn lemma_walk_step_wf(v: ListView, sid: SessionId, ids: Seq<ScheduleId>)
    requires
        list_of(v.meta, v.list, ids),
    ensures
        list_wf(walk_step(v, sid).meta, walk_step(v, sid).list),
{
    let w = walk_step(v, sid);
    if next_pos(v) is None {
        assert(list_of(w.meta, w.list, ids));
    } else {
        lemma_walk_step_wf_visit(v, sid, ids);
    }
}

/// A step of the walk that visits a schedule keeps the list well formed.
proof fn lemma_walk_step_wf_visit(v: ListView, sid: SessionId, ids: Seq<ScheduleId>)
    requires
        list_of(v.meta, v.list, ids),
        next_pos(v) is Some,
    ensures
        list_wf(walk_step(v, sid).meta, walk_step(v, sid).list),
{
    let w = walk_step(v, sid);
    lemma_next_on_list(v, ids);
    let pv = next_pos(v)->0;
    let k = choose|k: int| 0 <= k < ids.len() && ids[k] == pv
        && (v.meta.pos matches Some(p) ==> k > 0 && ids[k - 1] == p)
        && (v.meta.pos is None ==> k == 0);
    let n = ids.len();
    assert(v.list.contains_key(pv));
    let next = v.list[pv].1;
    if v.list[pv].0.last_session >= sid {
        assert(list_of(w.meta, w.list, ids));
    } else {
        lemma_walk_step_wf_expired(v, sid, ids, k);
    }
}

/// A step of the walk that reaches an expired schedule unlinks it and keeps
/// the list well formed.
proof fn lemma_walk_step_wf_expired(v: ListView, sid: SessionId, ids: Seq<ScheduleId>, k: int)
    requires
        list_of(v.meta, v.list, ids),
        next_pos(v) is Some,
        0 <= k < ids.len(),
        ids[k] == next_pos(v)->0,
        v.meta.pos matches Some(p) ==> k > 0 && ids[k - 1] == p,
        v.meta.pos is None ==> k == 0,
        v.list[next_pos(v)->0].0.last_session < sid,
    ensures
        list_of(walk_step(v, sid).meta, walk_step(v, sid).list, ids.remove(k)),
        walk_step(v, sid).totals == v.totals,
{
    let w = walk_step(v, sid);
    let pv = next_pos(v)->0;
    let n = ids.len();
    assert(v.list.contains_key(pv));
    let next = v.list[pv].1;
    let head = ids[0];
    let tail = ids.last();
    if head == pv && head != tail {
        assert(k == 0) by {
            lemma_increasing_index(ids, k, 0);
        }
        assert(n > 1);
        assert(next == Some(ids[1]));
        let ids2 = ids.drop_first();
        assert(linked(w.list, ids2)) by {
            assert forall|i: int| 0 <= i < ids2.len() - 1 implies #[trigger] w.list[ids2[i]].1 == Some(ids2[i + 1]) by {
                assert(ids2[i] == ids[i + 1] && ids2[i + 1] == ids[i + 2]);
                assert(v.list[ids[i + 1]].1 == Some(ids[i + 2]));
            }
            assert forall|i: int| 0 <= i < ids2.len() implies #[trigger] w.list.contains_key(ids2[i]) by {
                assert(v.list.contains_key(ids[i + 1]));
            }
        }
        assert(list_of(w.meta, w.list, ids2));
        assert(ids2 =~= ids.remove(k));
    } else if tail == pv && head == tail {
        if n > 1 {
            assert(ids[0] < ids[n - 1]);
        }
        assert(list_of(w.meta, w.list, Seq::<ScheduleId>::empty()));
        assert(ids.remove(k) =~= Seq::<ScheduleId>::empty());
    } else if tail == pv && head != tail {
        assert(k == n - 1) by {
            lemma_increasing_index(ids, k, n - 1);
        }
        assert(v.meta.pos is Some) by {
            if v.meta.pos is None {
                assert(k == 0);
            }
        }
        let lv = v.meta.pos->0;
        let ids2 = ids.drop_last();
        assert(ids2.last() == lv);
        assert(linked(w.list, ids2)) by {
            assert forall|i: int| 0 <= i < ids2.len() - 1 implies #[trigger] w.list[ids2[i]].1 == Some(ids2[i + 1]) by {
                assert(ids[i] < ids[n - 2]);
                assert(v.list[ids[i]].1 == Some(ids[i + 1]));
            }
            assert forall|i: int| 0 <= i < ids2.len() implies #[trigger] w.list.contains_key(ids2[i]) by {
                assert(v.list.contains_key(ids[i]));
            }
        }
        assert(ids2.contains(lv)) by {
            assert(ids2[n - 2] == lv);
        }
        assert(list_of(w.meta, w.list, ids2));
        assert(ids2 =~= ids.remove(k));
    } else {
        assert(pv != head) by {
            if pv == head {
                assert(head == tail);
            }
        }
        assert(k > 0) by {
            if k == 0 {
                assert(ids[0] == pv);
            }
        }
        assert(v.meta.pos is Some);
        let lv = v.meta.pos->0;
        assert(k < n - 1) by {
            if k == n - 1 {
                assert(ids.last() == pv);
            }
        }
        assert(next == Some(ids[k + 1]));
        let ids2 = ids.remove(k);
        assert(linked(w.list, ids2)) by {
            assert forall|i: int| 0 <= i < ids2.len() - 1 implies #[trigger] w.list[ids2[i]].1 == Some(ids2[i + 1]) by {
                if i < k - 1 {
                    assert(ids[i] < ids[k - 1]);
                    assert(v.list[ids[i]].1 == Some(ids[i + 1]));
                } else if i == k - 1 {
                    assert(ids2[i] == lv && ids2[i + 1] == ids[k + 1]);
                } else {
                    assert(ids2[i] == ids[i + 1] && ids2[i + 1] == ids[i + 2]);
                    assert(ids[k - 1] < ids[i + 1]);
                    assert(v.list[ids[i + 1]].1 == Some(ids[i + 2]));
                }
            }
            assert forall|i: int| 0 <= i < ids2.len() implies #[trigger] w.list.contains_key(ids2[i]) by {
                if i < k {
                    assert(v.list.contains_key(ids[i]));
                } else {
                    assert(v.list.contains_key(ids[i + 1]));
                }
            }
            assert(ids[k - 1] < ids[n - 1]);
            assert(ids2.last() == ids.last());
            assert forall|i: int, j: int| 0 <= i < j < ids2.len() implies ids2[i] < ids2[j] by {
                let a = if i < k { i } else { i + 1 };
                let b = if j < k { j } else { j + 1 };
                assert(ids2[i] == ids[a] && ids2[j] == ids[b]);
            }
        }
        assert(ids2[k - 1] == lv);
        assert(ids2[0] == ids[0]);
        assert(list_of(w.meta, w.list, ids2));
        assert(ids2 =~= ids.remove(k));
    }
}

/// On a well-formed list a step of the walk does what it says over the list of
/// schedules: the schedule visited is the one after the last visited (the
/// first when none was); when it still runs it stays on the list, becomes the
/// last visited and, when it started before the session, credits its amount
/// per session to its pair; when it expired it leaves the list and nothing is
/// credited.
pub proof fn law_walk_step_on_list(v: ListView, sid: SessionId, ids: Seq<ScheduleId>)
    requires
        list_of(v.meta, v.list, ids),
        next_pos(v) is Some,
    ensures
        exists|k: int| #![trigger ids[k]] {
            let pv = next_pos(v)->0;
            let sch = v.list[pv].0;
            let w = walk_step(v, sid);
            &&& 0 <= k < ids.len() && ids[k] == pv
            &&& v.meta.pos matches Some(p) ==> k > 0 && ids[k - 1] == p
            &&& v.meta.pos is None ==> k == 0
            &&& sch.last_session >= sid ==> {
                &&& list_of(w.meta, w.list, ids)
                &&& w.meta.pos == Some(pv)
                &&& w.totals == (if sch.scheduled_at < sid {
                    let key = spec_pair_key(sch.liq_token, sch.reward_token);
                    v.totals.insert(key, totals_at(v.totals, key).provided(sid, sch.amount_per_session))
                } else {
                    v.totals
                })
            }
            &&& sch.last_session < sid ==> list_of(w.meta, w.list, ids.remove(k)) && w.totals == v.totals
        },
{
    lemma_next_on_list(v, ids);
    let pv = next_pos(v)->0;
    let k = choose|k: int| 0 <= k < ids.len() && ids[k] == pv
        && (v.meta.pos matches Some(p) ==> k > 0 && ids[k - 1] == p)
        && (v.meta.pos is None ==> k == 0);
    assert(v.list.contains_key(pv));
    let w = walk_step(v, sid);
    if v.list[pv].0.last_session >= sid {
        assert(list_of(w.meta, w.list, ids));
    } else {
        lemma_walk_step_wf_expired(v, sid, ids, k);
    }
    assert(ids[k] == pv);
}


/// Forgetting the last visited schedule keeps the list well formed.
pub proof fn lemma_reset_pos_wf(meta: SchedulesList, list: Map<ScheduleId, (Schedule, Option<ScheduleId>)>)
    requires
        list_wf(meta, list),
    ensures
        list_wf(SchedulesList { pos: None, ..meta }, list),
{
    let ids = choose|ids: Seq<ScheduleId>| list_of(meta, list, ids);
    assert(list_of(SchedulesList { pos: None, ..meta }, list, ids));
}

/// Starting an empty list with schedule `s` under id zero keeps it well formed.
pub proof fn lemma_first_schedule_wf(meta: SchedulesList, list: Map<ScheduleId, (Schedule, Option<ScheduleId>)>, s: Schedule)
    requires
        list_wf(meta, list),
        meta.head is None,
    ensures
        list_wf(SchedulesList { head: Some(0), tail: Some(0), count: 1, ..meta }, list.insert(0, (s, None))),
{
    let ids = choose|ids: Seq<ScheduleId>| list_of(meta, list, ids);
    assert(ids.len() == 0);
    let ids2 = seq![0u64];
    assert(list_of(SchedulesList { head: Some(0), tail: Some(0), count: 1, ..meta }, list.insert(0, (s, None)), ids2));
}

/// Appending schedule `s` after the tail `t` of a non-empty list, under id
/// `t + 1`, keeps it well formed.
pub proof fn lemma_append_schedule_wf(
    meta: SchedulesList,
    list: Map<ScheduleId, (Schedule, Option<ScheduleId>)>,
    t: ScheduleId,
    s: Schedule,
)
    requires
        list_wf(meta, list),
        meta.head is Some,
        meta.tail == Some(t),
        t < u64::MAX,
        meta.count < u64::MAX,
    ensures
        list.contains_key(t),
        list_wf(
            SchedulesList { tail: Some((t + 1) as u64), count: (meta.count + 1) as u64, ..meta },
            list.insert(t, (list[t].0, Some((t + 1) as u64))).insert((t + 1) as u64, (s, None)),
        ),
{
    let ids = choose|ids: Seq<ScheduleId>| list_of(meta, list, ids);
    let n = ids.len();
    assert(n > 0);
    assert(list.contains_key(ids[n - 1]));
    let l2 = list.insert(t, (list[t].0, Some((t + 1) as u64))).insert((t + 1) as u64, (s, None));
    let ids2 = ids.push((t + 1) as u64);
    let m2 = SchedulesList { tail: Some((t + 1) as u64), count: (meta.count + 1) as u64, ..meta };
    assert forall|i: int| 0 <= i < n implies ids[i] <= t by {
        if i < n - 1 {
            assert(ids[i] < ids[n - 1]);
        }
    }
    assert forall|i: int| 0 <= i < ids2.len() - 1 implies #[trigger] l2[ids2[i]].1 == Some(ids2[i + 1]) by {
        if i < n - 1 {
            assert(ids[i] < ids[n - 1]);
            assert(list[ids[i]].1 == Some(ids[i + 1]));
        }
    }
    assert forall|i: int| 0 <= i < ids2.len() implies #[trigger] l2.contains_key(ids2[i]) by {
        if i < n {
            assert(list.contains_key(ids[i]));
        }
    }
    assert(linked(l2, ids2));
    assert(m2.pos matches Some(p) ==> ids2.contains(p)) by {
        if let Some(p) = m2.pos {
            let j = choose|j: int| 0 <= j < ids.len() && ids[j] == p;
            assert(ids2[j] == p);
        }
    }
    assert(list_of(m2, l2, ids2));
}

/// The walk of at most `n` steps keeps the schedule list well formed.
pub proof fn lemma_walk_wf(v: ListView, sid: SessionId, n: nat)
    requires
        list_wf(v.meta, v.list),
    ensures
        list_wf(walk(v, sid, n).meta, walk(v, sid, n).list),
    decreases n,
{
    if n > 0 && next_pos(v) is Some {
        let ids = choose|ids: Seq<ScheduleId>| list_of(v.meta, v.list, ids);
        lemma_walk_step_wf(v, sid, ids);
        lemma_walk_wf(walk_step(v, sid), sid, (n - 1) as nat);
    }
}

/// The schedule a step of the walk in session `sid` credits, if any: the one
/// it visits, when that one is still running and started before `sid`.
pub open spec fn credited(v: ListView, sid: SessionId) -> Option<ScheduleId> {
    match next_pos(v) {
        Some(pv) => if v.list.contains_key(pv) && v.list[pv].0.last_session >= sid && v.list[pv].0.scheduled_at < sid {
            Some(pv)
        } else {
            None
        },
        None => None,
    }
}

/// Once a schedule was visited, a step of the walk on a well-formed list visits
/// (and credits) only schedules after the last visited, and keeps a last
/// visited at or after it.
proof fn lemma_walk_step_after(v: ListView, sid: SessionId, ids: Seq<ScheduleId>)
    requires
        list_of(v.meta, v.list, ids),
        v.meta.pos is Some,
    ensures
        next_pos(v) matches Some(q) ==> v.meta.pos->0 < q,
        walk_step(v, sid).meta.pos matches Some(q) && v.meta.pos->0 <= q,
{
    let p = v.meta.pos->0;
    if next_pos(v) is Some {
        lemma_next_on_list(v, ids);
        let pv = next_pos(v)->0;
        let k = choose|k: int| 0 <= k < ids.len() && ids[k] == pv
            && (v.meta.pos matches Some(p) ==> k > 0 && ids[k - 1] == p)
            && (v.meta.pos is None ==> k == 0);
        assert(ids[k - 1] < ids[k]);
        let n = ids.len();
        if ids[0] == pv {
            lemma_increasing_index(ids, 0, k);
        }
        if ids[0] == ids[n - 1] && n > 1 {
            assert(ids[0] < ids[n - 1]);
        }
    }
}

/// Across the steps of the walks of one session (the blocks of a session in
/// which no schedule was added), the schedules credited come in strictly
/// increasing order of id: none is credited twice in a session. An expired
/// schedule is never credited (`credited` asks that it still runs), and the
/// step that reaches it unlinks it.
pub proof fn law_credited_at_most_once(vs: Seq<ListView>, sid: SessionId, i: int, j: int)
    requires
        forall|k: int| 0 <= k < vs.len() - 1 ==> #[trigger] vs[k + 1] == walk_step(vs[k], sid),
        list_wf(vs[0].meta, vs[0].list),
        0 <= i < j < vs.len(),
        credited(vs[i], sid) is Some,
        credited(vs[j], sid) is Some,
    ensures
        credited(vs[i], sid)->0 < credited(vs[j], sid)->0,
{
    lemma_walk_states_wf(vs, sid, i);
    let a = credited(vs[i], sid)->0;
    assert(vs[i + 1] == walk_step(vs[i], sid));
    assert(vs[i + 1].meta.pos == Some(a));
    lemma_walk_after_credit(vs, sid, i + 1, j, a);
}

/// Every state of a sequence of walk steps from a well-formed list is well
/// formed.
proof fn lemma_walk_states_wf(vs: Seq<ListView>, sid: SessionId, i: int)
    requires
        forall|k: int| 0 <= k < vs.len() - 1 ==> #[trigger] vs[k + 1] == walk_step(vs[k], sid),
        list_wf(vs[0].meta, vs[0].list),
        0 <= i < vs.len(),
    ensures
        list_wf(vs[i].meta, vs[i].list),
    decreases i,
{
    if i > 0 {
        lemma_walk_states_wf(vs, sid, i - 1);
        let prev = vs[i - 1];
        let ids = choose|ids: Seq<ScheduleId>| #[trigger] list_of(prev.meta, prev.list, ids);
        lemma_walk_step_wf(prev, sid, ids);
        assert(vs[i - 1 + 1] == walk_step(vs[i - 1], sid));
    }
}

/// From a state whose last visited is at or after `a`, every later state of
/// the walk keeps it so, and credits only schedules after `a`.
proof fn lemma_walk_after_credit(vs: Seq<ListView>, sid: SessionId, i: int, j: int, a: ScheduleId)
    requires
        forall|k: int| 0 <= k < vs.len() - 1 ==> #[trigger] vs[k + 1] == walk_step(vs[k], sid),
        list_wf(vs[0].meta, vs[0].list),
        0 < i <= j < vs.len(),
        vs[i].meta.pos matches Some(p) && a <= p,
    ensures
        vs[j].meta.pos matches Some(p) && a <= p,
        credited(vs[j], sid) matches Some(b) ==> a < b,
    decreases j - i,
{
    lemma_walk_states_wf(vs, sid, i);
    let cur = vs[i];
    let ids = choose|ids: Seq<ScheduleId>| #[trigger] list_of(cur.meta, cur.list, ids);
    lemma_walk_step_after(cur, sid, ids);
    if j > i {
        assert(vs[i + 1] == walk_step(vs[i], sid));
        lemma_walk_after_credit(vs, sid, i + 1, j, a);
    }
}

/// `m[k]`, or `d` when `m` holds nothing for `k`.
pub open spec fn get_or<K, V>(m: Map<K, V>, k: K, d: V) -> V {
    if m.contains_key(k) {
        m[k]
    } else {
        d
    }
}

/// `m[a][b]`, or `d` when there is none.
pub open spec fn get2_or<A, B, V>(m: Map<A, BTreeMap<B, V>>, a: A, b: B, d: V) -> V {
    if m.contains_key(a) {
        get_or(m[a]@, b, d)
    } else {
        d
    }
}

/// No liquidity activated, at session zero.
pub open spec fn no_activation() -> ActivatedLiquidityPerSchedule {
    ActivatedLiquidityPerSchedule { pending_positive: 0, pending_negative: 0, pending_session_id: 0, total: 0 }
}

/// No scheduled rewards, at session zero.
pub open spec fn no_rewards() -> ScheduleRewards {
    ScheduleRewards { pending: 0, pending_session_id: 0, total: 0 }
}

/// `(total_schedule_rewards * u128::MAX) / total_activated`, zero when nothing
/// is activated: the rewards per liquidity that accrued.
pub open spec fn rewards_per_liquidity(total_schedule_rewards: int, total_activated: int) -> int {
    if total_activated > 0 {
        total_schedule_rewards * (u128::MAX as int) / total_activated
    } else {
        0
    }
}

/// The scheduled rewards accrued to `info` when the pair's cumulative rewards
/// per liquidity is `ratio` (the constant curve), if they can be computed.
pub open spec fn schedule_rewards_now(info: RewardInfo, ratio: int) -> Option<int> {
    match sub_opt(ratio, info.pool_ratio_at_last_checkpoint.value() as int) {
        Some(growth) => match mul256(info.activated_amount as int, growth) {
            Some(p) => fit128(p / (u128::MAX as int)),
            None => None,
        },
        None => None,
    }
}

/// `c` is the calculator of scheduled rewards in session `time` for `info`,
/// with the pair's cumulative rewards per liquidity at `ratio`.
pub open spec fn schedule_calc_is(c: RewardsCalculator<ConstCurveRewards>, time: u32, ratio: int, info: RewardInfo) -> bool {
    &&& c.rewards_context.current_time == time
    &&& c.rewards_context.pool_ratio_current.value() == ratio
    &&& c.rewards_info == info
}

/// The storage of the proof-of-stake pallet.
pub struct PosPallet {
    pub config: PosConfig,
    /// Each account's checkpoint per liquidity token, for native rewards.
    pub rewards_info: BTreeMap<AccountId, BTreeMap<CurrencyId, RewardInfo>>,
    /// The pools promoted for native rewards.
    pub promoted_pool_rewards: BTreeMap<CurrencyId, PromotedPools>,
    /// The liquidity activated for native rewards, per liquidity token.
    pub total_activated_liquidity: BTreeMap<CurrencyId, Balance>,
    /// Each account's checkpoint per pair (liquidity token, reward token).
    pub rewards_info_for_schedule_rewards: BTreeMap<AccountId, BTreeMap<u64, RewardInfo>>,
    /// Scheduled rewards per pair, not yet folded into the cumulative ratio.
    pub schedule_rewards_total: BTreeMap<u64, ScheduleRewards>,
    /// Cumulative scheduled rewards per liquidity per pair, with the session
    /// they were last updated in.
    pub schedule_rewards_per_liquidity: BTreeMap<u64, (U256, u64)>,
    /// The ends of the list of schedules.
    pub schedules_list_metadata: SchedulesList,
    /// The schedules, each with the next one in the list.
    pub rewards_schedules_list: BTreeMap<ScheduleId, (Schedule, Option<ScheduleId>)>,
    /// The reward tokens each liquidity token was ever rewarded with.
    pub reward_tokens_per_pool: BTreeMap<CurrencyId, BTreeMap<CurrencyId, ()>>,
    /// Liquidity activated per pair, settled by session.
    pub total_activated_liquidity_for_schedules: BTreeMap<u64, ActivatedLiquidityPerSchedule>,
    /// Liquidity each account activated per liquidity token and reward token.
    pub activated_liquidity_for_schedules: BTreeMap<AccountId, BTreeMap<CurrencyId, BTreeMap<CurrencyId, Balance>>>,
    /// Liquidity each account activated from its reserves for scheduled rewards.
    pub activated_locked_liquidity_for_schedules: BTreeMap<AccountId, BTreeMap<CurrencyId, Balance>>,
    /// Liquidity activated for native rewards that scheduled rewards reuse.
    pub activated_native_rewards_liq: BTreeMap<AccountId, BTreeMap<CurrencyId, Balance>>,
}

/// A checkpoint read as integers.
pub struct InfoView {
    pub activated: int,
    pub not_yet: int,
    pub already: int,
    pub last: u32,
    pub ratio_then: int,
    pub missing: int,
}

/// `info` read as integers.
pub open spec fn info_view(info: RewardInfo) -> InfoView {
    InfoView {
        activated: info.activated_amount as int,
        not_yet: info.rewards_not_yet_claimed as int,
        already: info.rewards_already_claimed as int,
        last: info.last_checkpoint,
        ratio_then: info.pool_ratio_at_last_checkpoint.value() as int,
        missing: info.missing_at_last_checkpoint.value() as int,
    }
}

/// The scheduled rewards accrued to the checkpoint `iv` at cumulative
/// rewards per liquidity `ratio`, if they can be computed.
pub open spec fn sched_current(iv: InfoView, ratio: int) -> Option<int> {
    match sub_opt(ratio, iv.ratio_then) {
        Some(growth) => match mul256(iv.activated, growth) {
            Some(p) => fit128(p / (u128::MAX as int)),
            None => None,
        },
        None => None,
    }
}

/// The scheduled rewards available to claim at `ratio`, if they can be computed.
pub open spec fn sched_available(iv: InfoView, ratio: int) -> Option<int> {
    match sched_current(iv, ratio) {
        Some(c) => available_of(c, iv.not_yet, iv.already),
        None => None,
    }
}

impl PosPallet {
    /// The empty storage of a chain configured with `config`: no pools
    /// promoted, nothing activated, no schedules.
    pub fn new(config: PosConfig) -> (r: PosPallet)
        ensures
            r.config == config,
            r.rewards_info@.len() == 0,
            r.promoted_pool_rewards@.len() == 0,
            r.total_activated_liquidity@.len() == 0,
            r.rewards_info_for_schedule_rewards@.len() == 0,
            r.schedule_rewards_total@.len() == 0,
            r.schedule_rewards_per_liquidity@.len() == 0,
            r.schedules_list_metadata == (SchedulesList { head: None, tail: None, pos: None, count: 0 }),
            r.rewards_schedules_list@.len() == 0,
            r.reward_tokens_per_pool@.len() == 0,
            r.total_activated_liquidity_for_schedules@.len() == 0,
            r.activated_liquidity_for_schedules@.len() == 0,
            r.activated_locked_liquidity_for_schedules@.len() == 0,
            r.activated_native_rewards_liq@.len() == 0,
    {
        PosPallet {
            config,
            rewards_info: BTreeMap::new(),
            promoted_pool_rewards: BTreeMap::new(),
            total_activated_liquidity: BTreeMap::new(),
            rewards_info_for_schedule_rewards: BTreeMap::new(),
            schedule_rewards_total: BTreeMap::new(),
            schedule_rewards_per_liquidity: BTreeMap::new(),
            schedules_list_metadata: SchedulesList::default(),
            rewards_schedules_list: BTreeMap::new(),
            reward_tokens_per_pool: BTreeMap::new(),
            total_activated_liquidity_for_schedules: BTreeMap::new(),
            activated_liquidity_for_schedules: BTreeMap::new(),
            activated_locked_liquidity_for_schedules: BTreeMap::new(),
            activated_native_rewards_liq: BTreeMap::new(),
        }
    }

    /// `user`'s checkpoint for the pair with key `k` read as integers, a fresh
    /// one in session `t` at `ratio` when there is none.
    pub open spec fn sched_view(&self, user: AccountId, k: u64, t: u32, ratio: int) -> InfoView {
        if self.rewards_info_for_schedule_rewards@.contains_key(user)
            && self.rewards_info_for_schedule_rewards@[user]@.contains_key(k) {
            info_view(self.rewards_info_for_schedule_rewards@[user]@[k])
        } else {
            InfoView { activated: 0, not_yet: 0, already: 0, last: t, ratio_then: ratio, missing: 0 }
        }
    }
}

/// `new` is `old` with `new[a][b] == v`, all else the same.
pub open spec fn nested_set<V>(old: Map<AccountId, BTreeMap<u64, V>>, new: Map<AccountId, BTreeMap<u64, V>>, a: AccountId, b: u64, v: V) -> bool {
    &&& new.dom() == old.dom().insert(a)
    &&& forall|x: AccountId| x != a && #[trigger] old.contains_key(x) ==> new[x] == old[x]
    &&& new[a]@ == (if old.contains_key(a) {
        old[a]@
    } else {
        Map::<u64, V>::empty()
    }).insert(b, v)
}

/// `new` is `old` with `new[a][b] == v`, all else the same.
pub open spec fn nested_set32<V>(old: Map<AccountId, BTreeMap<CurrencyId, V>>, new: Map<AccountId, BTreeMap<CurrencyId, V>>, a: AccountId, b: CurrencyId, v: V) -> bool {
    &&& new.dom() == old.dom().insert(a)
    &&& forall|x: AccountId| x != a && #[trigger] old.contains_key(x) ==> new[x] == old[x]
    &&& new[a]@ == (if old.contains_key(a) {
        old[a]@
    } else {
        Map::<CurrencyId, V>::empty()
    }).insert(b, v)
}

/// `new` is `old` without `new[a][b]`, all else the same.
pub open spec fn nested_removed32<V>(old: Map<AccountId, BTreeMap<CurrencyId, V>>, new: Map<AccountId, BTreeMap<CurrencyId, V>>, a: AccountId, b: CurrencyId) -> bool {
    &&& new.dom() == old.dom().insert(a)
    &&& forall|x: AccountId| x != a && #[trigger] old.contains_key(x) ==> new[x] == old[x]
    &&& new[a]@ == (if old.contains_key(a) {
        old[a]@
    } else {
        Map::<CurrencyId, V>::empty()
    }).remove(b)
}

/// The amount `m` holds for `a`, `b`, zero when none.
pub open spec fn amount2(m: Map<AccountId, BTreeMap<CurrencyId, Balance>>, a: AccountId, b: CurrencyId) -> int {
    get2_or(m, a, b, 0u128) as int
}

/// The liquidity `m` says `a` activated for `liq` and `reward`, zero when none.
pub open spec fn amount3(m: Map<AccountId, BTreeMap<CurrencyId, BTreeMap<CurrencyId, Balance>>>, a: AccountId, liq: CurrencyId, reward: CurrencyId) -> int {
    if m.contains_key(a) && m[a]@.contains_key(liq) {
        get_or(m[a]@[liq]@, reward, 0u128) as int
    } else {
        0
    }
}

/// The reward tokens `m` holds activations of `a` for `liq` under.
pub open spec fn rewards3(m: Map<AccountId, BTreeMap<CurrencyId, BTreeMap<CurrencyId, Balance>>>, a: AccountId, liq: CurrencyId) -> Set<CurrencyId> {
    if m.contains_key(a) && m[a]@.contains_key(liq) {
        m[a]@[liq]@.dom()
    } else {
        Set::empty()
    }
}

/// `new` is `old` with the activation of `a` for `liq` and `reward` set to
/// `v` (`None` removes it), all else the same.
pub open spec fn nested3_set(
    old: Map<AccountId, BTreeMap<CurrencyId, BTreeMap<CurrencyId, Balance>>>,
    new: Map<AccountId, BTreeMap<CurrencyId, BTreeMap<CurrencyId, Balance>>>,
    a: AccountId,
    liq: CurrencyId,
    reward: CurrencyId,
    v: Option<Balance>,
) -> bool {
    &&& forall|x: AccountId| x != a ==> #[trigger] new.contains_key(x) == old.contains_key(x) && (old.contains_key(x) ==> new[x] == old[x])
    &&& forall|l: CurrencyId| l != liq ==> (#[trigger] amount3(new, a, l, reward) == amount3(old, a, l, reward)) && rewards3(new, a, l) == rewards3(old, a, l)
    &&& forall|w: CurrencyId| w != reward ==> #[trigger] amount3(new, a, liq, w) == amount3(old, a, liq, w)
    &&& match v {
        Some(x) => amount3(new, a, liq, reward) == x && rewards3(new, a, liq) == rewards3(old, a, liq).insert(reward),
        None => amount3(new, a, liq, reward) == 0 && rewards3(new, a, liq) == rewards3(old, a, liq).remove(reward),
    }
}

/// The keys of `m`, each once.
fn keys_of<V>(m: &BTreeMap<CurrencyId, V>) -> (r: Vec<CurrencyId>)
    ensures
        r@.to_set() == m@.dom(),
        r@.no_duplicates(),
{
    broadcast use vstd::laws_cmp::group_laws_cmp;
    let ghost all: Seq<CurrencyId> = spec_keys_iter(m).remaining().unref();
    assert(all.to_set() == m@.dom() && all.no_duplicates());
    let mut v: Vec<CurrencyId> = Vec::new();
    for k in it: m.keys()
        invariant
            v@.len() == it.index(),
            it.seq().unref() == all,
            forall|i: int| 0 <= i < v@.len() ==> v@[i] == *it.seq()[i],
    {
        v.push(*k);
    }
    assert(v@ =~= all);
    v
}

/// Sets `m[a][b]` to `v`.
pub(crate) fn set_nested32(m: &mut BTreeMap<AccountId, BTreeMap<CurrencyId, Balance>>, a: AccountId, b: CurrencyId, v: Balance)
    ensures
        nested_set32(old(m)@, final(m)@, a, b, v),
{
    let mut inner = match m.remove(&a) {
        Some(i) => i,
        None => BTreeMap::new(),
    };
    inner.insert(b, v);
    m.insert(a, inner);
    proof {
        assert(final(m)@.dom() =~= old(m)@.dom().insert(a)) by {
            assert(m@.dom() =~= old(m)@.dom().insert(a));
        }
    }
}

/// The amount `m` holds for `a`, `b`, zero when none.
pub(crate) fn get_nested32(m: &BTreeMap<AccountId, BTreeMap<CurrencyId, Balance>>, a: AccountId, b: CurrencyId) -> (r: Balance)
    ensures
        r == amount2(m@, a, b),
{
    match m.get(&a) {
        Some(inner) => match inner.get(&b) {
            Some(v) => *v,
            None => 0,
        },
        None => 0,
    }
}

/// `t` is `s` after the scheduled rewards of the pair with key `k` accrued
/// before `session` were folded into its cumulative ratio (when they were
/// not yet and liquidity is activated for it).
pub open spec fn cumulative_updated(s: PosPallet, t: PosPallet, k: u64, session: u32) -> bool {
    if s.per_liquidity(k).1 != session && s.spec_total_activated(k, session) > 0 {
        &&& t.schedule_rewards_total@ == s.schedule_rewards_total@.insert(
            k,
            totals_at(s.schedule_rewards_total@, k).taken(session),
        )
        &&& t.schedule_rewards_per_liquidity@.dom() == s.schedule_rewards_per_liquidity@.dom().insert(k)
        &&& forall|j: u64| j != k && #[trigger] s.schedule_rewards_per_liquidity@.contains_key(j)
            ==> t.schedule_rewards_per_liquidity@[j] == s.schedule_rewards_per_liquidity@[j]
        &&& t.per_liquidity(k).0.value() == s.spec_rewards_ratio(k, session)
        &&& t.per_liquidity(k).1 == session
    } else {
        &&& t.schedule_rewards_total@ == s.schedule_rewards_total@
        &&& t.schedule_rewards_per_liquidity@ == s.schedule_rewards_per_liquidity@
    }
}

/// `t` holds `user`'s checkpoint `info` for the pair with key `k` (read as
/// integers), and all other checkpoints of `s`.
pub open spec fn sched_info_set(s: PosPallet, t: PosPallet, user: AccountId, k: u64, iv: InfoView) -> bool {
    let old_inner = if s.rewards_info_for_schedule_rewards@.contains_key(user) {
        s.rewards_info_for_schedule_rewards@[user]@
    } else {
        Map::<u64, RewardInfo>::empty()
    };
    &&& t.rewards_info_for_schedule_rewards@ == s.rewards_info_for_schedule_rewards@.insert(user, t.rewards_info_for_schedule_rewards@[user])
    &&& t.rewards_info_for_schedule_rewards@[user]@ == old_inner.insert(k, t.rewards_info_for_schedule_rewards@[user]@[k])
    &&& info_view(t.rewards_info_for_schedule_rewards@[user]@[k]) == iv
}

/// `t` holds what `s` holds in the maps that scheduled-reward checkpoints
/// leave alone.
pub open spec fn schedule_checkpoint_frame(s: PosPallet, t: PosPallet) -> bool {
    &&& t.config == s.config
    &&& t.rewards_info@ == s.rewards_info@
    &&& t.promoted_pool_rewards@ == s.promoted_pool_rewards@
    &&& t.total_activated_liquidity@ == s.total_activated_liquidity@
    &&& t.reward_tokens_per_pool@ == s.reward_tokens_per_pool@
    &&& t.rewards_schedules_list@ == s.rewards_schedules_list@
    &&& t.schedules_list_metadata == s.schedules_list_metadata
}

/// The checkpoint of scheduled rewards after `added` more liquidity is
/// activated: what was available is kept as not yet claimed.
pub open spec fn sched_more(iv: InfoView, ratio: int, added: int, t: u32) -> InfoView {
    InfoView {
        activated: iv.activated + added,
        not_yet: sched_available(iv, ratio)->0,
        already: 0,
        last: t,
        ratio_then: ratio,
        missing: added,
    }
}

/// `t` is `s` after a checkpoint of `user`'s scheduled rewards of `reward`
/// for `liq` with `added` more activated at block `block`, in the maps that
/// the checkpoint writes (and those it leaves alone).
pub open spec fn minted_3rdparty(s: PosPallet, t: PosPallet, user: AccountId, liq: CurrencyId, added: Balance, reward: CurrencyId, block: u64) -> bool {
    let k = spec_pair_key(liq, reward);
    let time = s.session_of(block);
    let ratio = s.spec_rewards_ratio(k, time);
    let iv = s.sched_view(user, k, time, ratio);
    &&& cumulative_updated(s, t, k, time)
    &&& sched_info_set(s, t, user, k, sched_more(iv, ratio, added as int, time))
    &&& nested3_set(s.activated_liquidity_for_schedules@, t.activated_liquidity_for_schedules@,
        user, liq, reward,
        Some((amount3(s.activated_liquidity_for_schedules@, user, liq, reward) + added) as u128))
    &&& t.total_activated_liquidity_for_schedules@ == s.total_activated_liquidity_for_schedules@.insert(
        k,
        get_or(s.total_activated_liquidity_for_schedules@, k, no_activation()).updated(
            time, added, crate::schedule_rewards::LiquidityModification::Increase),
    )
    &&& schedule_checkpoint_frame(s, t)
}

impl PosPallet {
    /// The error a checkpoint of scheduled rewards with `added` more activated
    /// fails with, if any.
    pub open spec fn minting_3rdparty_error(&self, user: AccountId, liq: CurrencyId, added: Balance, reward: CurrencyId, block: u64) -> Option<PosError> {
        let k = spec_pair_key(liq, reward);
        let time = spec_rewards_time(block, self.config.rewards_distribution_period);
        if !self.spec_3rdparty_enabled(liq) {
            Some(PosError::NotAPromotedPool)
        } else if time is None {
            Some(PosError::CalculateRewardsMathError)
        } else if !self.spec_rewarded_with(liq, reward) {
            Some(PosError::NotAPromotedPool)
        } else {
            let t = time->0;
            let ratio = self.spec_rewards_ratio(k, t);
            let iv = self.sched_view(user, k, t, ratio);
            if !(iv.activated + added <= u128::MAX && sched_available(iv, ratio) is Some) {
                Some(PosError::LiquidityCheckpointMathError)
            } else {
                None
            }
        }
    }
}

/// The checkpoint of scheduled rewards after `burned` less liquidity is
/// activated: what was available is kept as not yet claimed.
pub open spec fn sched_less(iv: InfoView, ratio: int, burned: int, t: u32) -> InfoView {
    InfoView {
        activated: iv.activated - burned,
        not_yet: sched_available(iv, ratio)->0,
        already: 0,
        last: t,
        ratio_then: ratio,
        missing: 0,
    }
}

impl PosPallet {
    /// The error deactivating `burned` of `user`'s liquidity for `reward`
    /// fails with, if any.
    pub open spec fn burning_3rdparty_error(&self, user: AccountId, liq: CurrencyId, burned: Balance, reward: CurrencyId, block: u64) -> Option<PosError> {
        let k = spec_pair_key(liq, reward);
        let time = spec_rewards_time(block, self.config.rewards_distribution_period);
        if !self.spec_3rdparty_enabled(liq) {
            Some(PosError::NotAPromotedPool)
        } else if time is None {
            Some(PosError::CalculateRewardsMathError)
        } else if !self.spec_rewarded_with(liq, reward) {
            Some(PosError::NotAPromotedPool)
        } else {
            let t = time->0;
            let ratio = self.spec_rewards_ratio(k, t);
            let iv = self.sched_view(user, k, t, ratio);
            if !(iv.activated >= burned && iv.activated != 0 && sched_available(iv, ratio) is Some) {
                Some(PosError::LiquidityCheckpointMathError)
            } else if !rewards3(self.activated_liquidity_for_schedules@, user, liq).contains(reward)
                || amount3(self.activated_liquidity_for_schedules@, user, liq, reward) < burned {
                Some(PosError::MathOverflow)
            } else {
                None
            }
        }
    }
}

/// `t` is `s` after `burned` of `user`'s liquidity for `reward` was
/// deactivated at block `block`, with operation `call`: the checkpoint and the
/// activated liquidity shrink; when `user` has no liquidity for `liq` left
/// under any reward token, the liquidity it activated from reserves is to be
/// deactivated and the native liquidity it reused is released.
pub open spec fn burned_3rdparty(s: PosPallet, t: PosPallet, user: AccountId, liq: CurrencyId, burned: Balance, reward: CurrencyId, block: u64, call: Option<PosCall>) -> bool {
    let k = spec_pair_key(liq, reward);
    let time = s.session_of(block);
    let ratio = s.spec_rewards_ratio(k, time);
    let iv = s.sched_view(user, k, time, ratio);
    let left = amount3(s.activated_liquidity_for_schedules@, user, liq, reward) - burned;
    &&& cumulative_updated(s, t, k, time)
    &&& sched_info_set(s, t, user, k, sched_less(iv, ratio, burned as int, time))
    &&& t.total_activated_liquidity_for_schedules@ == s.total_activated_liquidity_for_schedules@.insert(
        k,
        get_or(s.total_activated_liquidity_for_schedules@, k, no_activation()).updated(
            time, burned, crate::schedule_rewards::LiquidityModification::Decrease),
    )
    &&& nested3_set(s.activated_liquidity_for_schedules@, t.activated_liquidity_for_schedules@,
        user, liq, reward, if left > 0 { Some(left as u128) } else { None })
    &&& if rewards3(t.activated_liquidity_for_schedules@, user, liq).is_empty() {
        &&& call == Some(PosCall::Deactivate {
            token: liq,
            account: user,
            amount: amount2(s.activated_locked_liquidity_for_schedules@, user, liq) as u128,
        })
        &&& nested_set32(s.activated_locked_liquidity_for_schedules@, t.activated_locked_liquidity_for_schedules@, user, liq, 0)
        &&& nested_set32(s.activated_native_rewards_liq@, t.activated_native_rewards_liq@, user, liq, 0)
    } else {
        &&& call is None
        &&& t.activated_locked_liquidity_for_schedules@ == s.activated_locked_liquidity_for_schedules@
        &&& t.activated_native_rewards_liq@ == s.activated_native_rewards_liq@
    }
    &&& schedule_checkpoint_frame(s, t)
}

impl PosPallet {
    /// The scheduled rewards of `reward` that `user` could claim for `liq`
    /// at block `block`, as `calculate_3rdparty_rewards_amount` gives them.
    pub open spec fn spec_3rdparty_rewards_amount(&self, user: AccountId, liq: CurrencyId, reward: CurrencyId, block: u64) -> Result<int, PosError> {
        let k = spec_pair_key(liq, reward);
        let time = spec_rewards_time(block, self.config.rewards_distribution_period);
        if !self.spec_3rdparty_enabled(liq) {
            Err(PosError::NotAPromotedPool)
        } else if !(self.rewards_info_for_schedule_rewards@.contains_key(user)
            && self.rewards_info_for_schedule_rewards@[user]@.contains_key(k)) {
            Ok(0)
        } else {
            let iv = info_view(self.rewards_info_for_schedule_rewards@[user]@[k]);
            let current: Result<int, PosError> = if iv.activated == 0 {
                Ok(0)
            } else if time is None {
                Err(PosError::CalculateRewardsMathError)
            } else if !self.spec_rewarded_with(liq, reward) {
                Err(PosError::NotAPromotedPool)
            } else {
                match sched_current(iv, self.spec_rewards_ratio(k, time->0)) {
                    Some(c) => Ok(c),
                    None => Err(PosError::LiquidityCheckpointMathError),
                }
            };
            match current {
                Err(e) => Err(e),
                Ok(c) => match available_of(c, iv.not_yet, iv.already) {
                    Some(a) => Ok(a),
                    None => Err(PosError::CalculateRewardsMathError),
                },
            }
        }
    }

    /// The error claiming `user`'s scheduled rewards of `reward` for `liq` at
    /// block `block` fails with, if any.
    pub open spec fn claim_3rdparty_error(&self, user: AccountId, liq: CurrencyId, reward: CurrencyId, block: u64) -> Option<PosError> {
        let k = spec_pair_key(liq, reward);
        let time = spec_rewards_time(block, self.config.rewards_distribution_period);
        if !self.spec_3rdparty_enabled(liq) {
            Some(PosError::NotAPromotedPool)
        } else if time is None {
            Some(PosError::CalculateRewardsMathError)
        } else if !self.spec_rewarded_with(liq, reward) {
            Some(PosError::NotAPromotedPool)
        } else {
            let t = time->0;
            let ratio = self.spec_rewards_ratio(k, t);
            let iv = self.sched_view(user, k, t, ratio);
            if !(sched_current(iv, ratio) is Some && sched_available(iv, ratio) is Some) {
                Some(PosError::LiquidityCheckpointMathError)
            } else if sched_available(iv, ratio)->0 == 0 {
                Some(PosError::NoThirdPartyPartyRewardsToClaim)
            } else {
                None
            }
        }
    }
}

/// `t` is `s` after `user` claimed its scheduled rewards of `reward` for
/// `liq` at block `block`: its checkpoint keeps nothing unclaimed and counts
/// the current rewards as claimed.
pub open spec fn claimed_3rdparty(s: PosPallet, t: PosPallet, user: AccountId, liq: CurrencyId, reward: CurrencyId, block: u64) -> bool {
    let k = spec_pair_key(liq, reward);
    let time = s.session_of(block);
    let ratio = s.spec_rewards_ratio(k, time);
    let iv = s.sched_view(user, k, time, ratio);
    &&& sched_info_set(s, t, user, k, InfoView { not_yet: 0, already: sched_current(iv, ratio)->0, ..iv })
    &&& t.config == s.config
    &&& t.rewards_info@ == s.rewards_info@
    &&& t.promoted_pool_rewards@ == s.promoted_pool_rewards@
    &&& t.total_activated_liquidity@ == s.total_activated_liquidity@
    &&& t.schedule_rewards_total@ == s.schedule_rewards_total@
    &&& t.schedule_rewards_per_liquidity@ == s.schedule_rewards_per_liquidity@
    &&& t.total_activated_liquidity_for_schedules@ == s.total_activated_liquidity_for_schedules@
    &&& t.activated_liquidity_for_schedules@ == s.activated_liquidity_for_schedules@
    &&& t.activated_locked_liquidity_for_schedules@ == s.activated_locked_liquidity_for_schedules@
    &&& t.activated_native_rewards_liq@ == s.activated_native_rewards_liq@
    &&& t.reward_tokens_per_pool@ == s.reward_tokens_per_pool@
    &&& t.rewards_schedules_list@ == s.rewards_schedules_list@
    &&& t.schedules_list_metadata == s.schedules_list_metadata
}

/// Once `user` claimed its scheduled rewards of `reward` for `liq`, nothing
/// is left for it to claim at the same block.
pub proof fn law_claim_3rdparty_leaves_nothing(s: PosPallet, t: PosPallet, user: AccountId, liq: CurrencyId, reward: CurrencyId, block: u64)
    requires
        s.claim_3rdparty_error(user, liq, reward, block) is None,
        claimed_3rdparty(s, t, user, liq, reward, block),
    ensures
        t.spec_3rdparty_rewards_amount(user, liq, reward, block) == Ok::<int, PosError>(0),
{
    let k = spec_pair_key(liq, reward);
    let time = s.session_of(block);
    let ratio = s.spec_rewards_ratio(k, time);
    let iv = s.sched_view(user, k, time, ratio);
    assert(t.spec_rewards_ratio(k, time) == ratio);
    assert(t.rewards_info_for_schedule_rewards@[user]@.contains_key(k));
    let tv = info_view(t.rewards_info_for_schedule_rewards@[user]@[k]);
    assert(tv == InfoView { not_yet: 0, already: sched_current(iv, ratio)->0, ..iv });
    assert(sched_current(tv, ratio) == sched_current(iv, ratio));
}

impl PosPallet {
    /// Whether `liq` is promoted for native rewards.
    pub open spec fn spec_native_enabled(&self, liq: CurrencyId) -> bool {
        self.promoted_pool_rewards@.contains_key(liq)
    }

    /// The calculator of `user`'s native rewards for `liq` in session `t` on
    /// `curve`: its stored checkpoint, or a fresh one at the pool's ratio.
    pub open spec fn native_calc(&self, user: AccountId, liq: CurrencyId, t: u32, curve: AsymptoticCurveRewards) -> RewardsCalculator<AsymptoticCurveRewards> {
        let ratio = self.promoted_pool_rewards@[liq].rewards;
        RewardsCalculator {
            rewards_context: RewardsContext { current_time: t, pool_ratio_current: ratio },
            rewards_info: get2_or(self.rewards_info@, user, liq, RewardInfo {
                activated_amount: 0,
                rewards_not_yet_claimed: 0,
                rewards_already_claimed: 0,
                last_checkpoint: t,
                pool_ratio_at_last_checkpoint: ratio,
                missing_at_last_checkpoint: U256 { limbs: [0u64, 0u64, 0u64, 0u64] },
            }),
            curve,
        }
    }

    /// The native calculator at block `block` is defined for `curve`.
    pub open spec fn native_calc_defined(&self, user: AccountId, liq: CurrencyId, block: u64, curve: AsymptoticCurveRewards) -> bool {
        let time = spec_rewards_time(block, self.config.rewards_distribution_period);
        time is Some && self.spec_native_enabled(liq) ==> self.native_calc(user, liq, time->0, curve).defined()
    }

    /// The error a native checkpoint with `added` more activated fails with,
    /// if any.
    pub open spec fn native_minting_error(&self, user: AccountId, liq: CurrencyId, added: Balance, block: u64, curve: AsymptoticCurveRewards) -> Option<PosError> {
        let time = spec_rewards_time(block, self.config.rewards_distribution_period);
        if !self.spec_native_enabled(liq) {
            Some(PosError::NotAPromotedPool)
        } else if time is None {
            Some(PosError::CalculateRewardsMathError)
        } else {
            let c = self.native_calc(user, liq, time->0, curve);
            let info = c.rewards_info;
            let position = c.curve.spec_curve_position(c.rewards_context, info);
            if !(info.activated_amount + added <= u128::MAX && position is Some
                && add256(position->0, added as int) is Some && c.current_rewards() is Some && c.available() is Some) {
                Some(PosError::LiquidityCheckpointMathError)
            } else if amount_or_0(self.total_activated_liquidity@, liq) + added > u128::MAX {
                Some(PosError::LiquidityCheckpointMathError)
            } else {
                None
            }
        }
    }
}

/// `m[k]`, zero when none.
pub open spec fn amount_or_0(m: Map<CurrencyId, Balance>, k: CurrencyId) -> int {
    get_or(m, k, 0u128) as int
}

/// `t` holds `user`'s native checkpoint for `liq` as `n` says, and all other
/// native checkpoints of `s`.
pub open spec fn native_info_set(s: PosPallet, t: PosPallet, user: AccountId, liq: CurrencyId, n: spec_fn(RewardInfo) -> bool) -> bool {
    let old_inner = if s.rewards_info@.contains_key(user) {
        s.rewards_info@[user]@
    } else {
        Map::<CurrencyId, RewardInfo>::empty()
    };
    &&& t.rewards_info@ == s.rewards_info@.insert(user, t.rewards_info@[user])
    &&& t.rewards_info@[user]@ == old_inner.insert(liq, t.rewards_info@[user]@[liq])
    &&& n(t.rewards_info@[user]@[liq])
}

/// `t` holds what `s` holds but for the native checkpoints and totals.
pub open spec fn native_frame(s: PosPallet, t: PosPallet) -> bool {
    &&& t.config == s.config
    &&& t.promoted_pool_rewards@ == s.promoted_pool_rewards@
    &&& t.rewards_info_for_schedule_rewards@ == s.rewards_info_for_schedule_rewards@
    &&& t.schedule_rewards_total@ == s.schedule_rewards_total@
    &&& t.schedule_rewards_per_liquidity@ == s.schedule_rewards_per_liquidity@
    &&& t.total_activated_liquidity_for_schedules@ == s.total_activated_liquidity_for_schedules@
    &&& t.activated_liquidity_for_schedules@ == s.activated_liquidity_for_schedules@
    &&& t.activated_locked_liquidity_for_schedules@ == s.activated_locked_liquidity_for_schedules@
    &&& t.activated_native_rewards_liq@ == s.activated_native_rewards_liq@
    &&& t.reward_tokens_per_pool@ == s.reward_tokens_per_pool@
    &&& t.rewards_schedules_list@ == s.rewards_schedules_list@
    &&& t.schedules_list_metadata == s.schedules_list_metadata
}

/// `t` is `s` after a native checkpoint of `user` for `liq` with `added` more
/// activated at block `block`.
pub open spec fn minted_native(s: PosPallet, t: PosPallet, user: AccountId, liq: CurrencyId, added: Balance, block: u64, curve: AsymptoticCurveRewards) -> bool {
    let time = s.session_of(block);
    let c = s.native_calc(user, liq, time, curve);
    let info = c.rewards_info;
    let position = c.curve.spec_curve_position(c.rewards_context, info);
    &&& native_info_set(s, t, user, liq, |n: RewardInfo| checkpoint_is(n, info.activated_amount + added,
        c.rewards_context.pool_ratio_current, position->0 + added, c.available()->0, time))
    &&& t.total_activated_liquidity@ == s.total_activated_liquidity@.insert(liq, (amount_or_0(s.total_activated_liquidity@, liq) + added) as u128)
    &&& native_frame(s, t)
}

impl PosPallet {
    /// `user` holds a native checkpoint for `liq`.
    pub open spec fn has_native_info(&self, user: AccountId, liq: CurrencyId) -> bool {
        self.rewards_info@.contains_key(user) && self.rewards_info@[user]@.contains_key(liq)
    }

    /// The error deactivating `burned` of `user`'s native liquidity for `liq`
    /// fails with, if any.
    pub open spec fn native_burning_error(&self, user: AccountId, liq: CurrencyId, burned: Balance, block: u64, curve: AsymptoticCurveRewards) -> Option<PosError> {
        let time = spec_rewards_time(block, self.config.rewards_distribution_period);
        if !self.spec_native_enabled(liq) {
            Some(PosError::NotAPromotedPool)
        } else if !self.has_native_info(user, liq) {
            Some(PosError::MissingRewardsInfoError)
        } else {
            let stored = self.rewards_info@[user]@[liq];
            let locked = amount2(self.activated_native_rewards_liq@, user, liq);
            if stored.activated_amount < burned {
                Some(PosError::NotEnoughAssets)
            } else if stored.activated_amount < locked {
                Some(PosError::MathOverflow)
            } else if stored.activated_amount - locked < burned {
                Some(PosError::LiquidityLockedIn3rdpartyRewards)
            } else if time is None {
                Some(PosError::CalculateRewardsMathError)
            } else {
                let c = self.native_calc(user, liq, time->0, curve);
                let position = c.curve.spec_curve_position(c.rewards_context, stored);
                let activated = stored.activated_amount - burned;
                if !(position is Some && mul256(activated, position->0) is Some && stored.activated_amount != 0
                    && c.current_rewards() is Some && c.available() is Some) {
                    Some(PosError::LiquidityCheckpointMathError)
                } else if amount_or_0(self.total_activated_liquidity@, liq) < burned {
                    Some(PosError::LiquidityCheckpointMathError)
                } else {
                    None
                }
            }
        }
    }
}

/// `t` is `s` after a native checkpoint of `user` for `liq` with `burned`
/// less activated at block `block`: the position on the curve shrinks in
/// proportion, what was available is kept as not yet claimed.
pub open spec fn burned_native(s: PosPallet, t: PosPallet, user: AccountId, liq: CurrencyId, burned: Balance, block: u64, curve: AsymptoticCurveRewards) -> bool {
    let time = s.session_of(block);
    let c = s.native_calc(user, liq, time, curve);
    let info = c.rewards_info;
    let position = c.curve.spec_curve_position(c.rewards_context, info);
    let activated = info.activated_amount - burned;
    &&& native_info_set(s, t, user, liq, |n: RewardInfo| checkpoint_is(n, activated,
        c.rewards_context.pool_ratio_current, activated * position->0 / (info.activated_amount as int), c.available()->0, time))
    &&& t.total_activated_liquidity@ == s.total_activated_liquidity@.insert(liq, (amount_or_0(s.total_activated_liquidity@, liq) - burned) as u128)
    &&& native_frame(s, t)
}

impl PosPallet {
    /// The native rewards `user` could claim for `liq` at block `block` on
    /// `curve`, as `calculate_native_rewards_amount` gives them.
    pub open spec fn spec_native_rewards_amount(&self, user: AccountId, liq: CurrencyId, block: u64, curve: AsymptoticCurveRewards) -> Result<int, PosError> {
        let time = spec_rewards_time(block, self.config.rewards_distribution_period);
        if !self.spec_native_enabled(liq) {
            Err(PosError::NotAPromotedPool)
        } else if !self.has_native_info(user, liq) {
            Err(PosError::MissingRewardsInfoError)
        } else {
            let stored = self.rewards_info@[user]@[liq];
            let current: Result<int, PosError> = if stored.activated_amount == 0 {
                Ok(0)
            } else if time is None {
                Err(PosError::CalculateRewardsMathError)
            } else {
                match self.native_calc(user, liq, time->0, curve).current_rewards() {
                    Some(c) => Ok(c),
                    None => Err(PosError::LiquidityCheckpointMathError),
                }
            };
            match current {
                Err(e) => Err(e),
                Ok(c) => match available_of(c, stored.rewards_not_yet_claimed as int, stored.rewards_already_claimed as int) {
                    Some(a) => Ok(a),
                    None => Err(PosError::CalculateRewardsMathError),
                },
            }
        }
    }

    /// The error claiming `user`'s native rewards for `liq` at block `block`
    /// fails with, if any.
    pub open spec fn native_claim_error(&self, user: AccountId, liq: CurrencyId, block: u64, curve: AsymptoticCurveRewards) -> Option<PosError> {
        let time = spec_rewards_time(block, self.config.rewards_distribution_period);
        if !self.spec_native_enabled(liq) {
            Some(PosError::NotAPromotedPool)
        } else if time is None {
            Some(PosError::CalculateRewardsMathError)
        } else {
            let c = self.native_calc(user, liq, time->0, curve);
            if !(c.current_rewards() is Some && c.available() is Some) {
                Some(PosError::LiquidityCheckpointMathError)
            } else {
                None
            }
        }
    }
}

/// `t` is `s` after `user` claimed its native rewards for `liq` at block
/// `block`: its checkpoint keeps nothing unclaimed and counts the current
/// rewards as claimed.
pub open spec fn claimed_native(s: PosPallet, t: PosPallet, user: AccountId, liq: CurrencyId, block: u64, curve: AsymptoticCurveRewards) -> bool {
    let c = s.native_calc(user, liq, s.session_of(block), curve);
    &&& native_info_set(s, t, user, liq, |n: RewardInfo| n == c.claimed_info())
    &&& t.total_activated_liquidity@ == s.total_activated_liquidity@
    &&& native_frame(s, t)
}

/// Once `user` claimed its native rewards for `liq`, nothing is left for it
/// to claim at the same block.
pub proof fn law_claim_native_leaves_nothing(s: PosPallet, t: PosPallet, user: AccountId, liq: CurrencyId, block: u64, curve: AsymptoticCurveRewards)
    requires
        s.native_calc_defined(user, liq, block, curve),
        s.native_claim_error(user, liq, block, curve) is None,
        claimed_native(s, t, user, liq, block, curve),
    ensures
        t.spec_native_rewards_amount(user, liq, block, curve) == Ok::<int, PosError>(0),
{
    let time = s.session_of(block);
    let c = s.native_calc(user, liq, time, curve);
    law_claim_leaves_nothing(c);
    assert(t.rewards_info@[user]@[liq] == c.claimed_info());
    assert(t.native_calc(user, liq, time, curve) == (RewardsCalculator { rewards_info: c.claimed_info(), ..c }));
    let n = c.claimed_info();
    if n.activated_amount == 0 {
        c.curve.lemma_claims_irrelevant(c.rewards_context, c.rewards_info, n);
        assert(c.current_rewards() == Some(0int));
    }
}

impl PosPallet {
    /// Pool `k` takes part in the distribution of native rewards: it is
    /// promoted with some weight and has liquidity activated.
    pub open spec fn pool_counts(&self, k: CurrencyId) -> bool {
        &&& self.promoted_pool_rewards@.contains_key(k)
        &&& self.promoted_pool_rewards@[k].weight > 0
        &&& amount_or_0(self.total_activated_liquidity@, k) > 0
    }

    /// The weight pool `k` takes part with, zero when it does not.
    pub open spec fn counted_weight(&self, k: CurrencyId) -> int {
        if self.pool_counts(k) {
            self.promoted_pool_rewards@[k].weight as int
        } else {
            0
        }
    }

    /// Adds the counted weight of a pool to a sum.
    pub open spec fn weight_adder(&self) -> spec_fn(int, CurrencyId) -> int {
        |acc: int, k: CurrencyId| acc + self.counted_weight(k)
    }

    /// The counted weights of the pools in `pools`.
    pub open spec fn weight_of(&self, pools: Set<CurrencyId>) -> int {
        pools.fold(0int, self.weight_adder())
    }

    /// The total weight of the pools that take part in the distribution.
    pub open spec fn total_weight(&self) -> int {
        self.weight_of(self.promoted_pool_rewards@.dom())
    }

    /// The share of `amount` that pool `k` gets: its part of the total weight
    /// as a `Perbill`, nothing when the total is zero or leaves a `u64`.
    pub open spec fn pool_issuance(&self, k: CurrencyId, amount: Balance) -> int {
        let tw = self.total_weight();
        if tw == 0 || tw > u64::MAX {
            0
        } else {
            amount * spec_perbill_from_rational(self.counted_weight(k), tw) / billion()
        }
    }

    /// Promotes `liquidity_token_id` for native rewards with `weight`: a new
    /// pool starts with no rewards, a known one keeps its rewards.
    pub fn enable(&mut self, liquidity_token_id: CurrencyId, weight: u8) -> (r: PosEvent)
        ensures
            r == PosEvent::PoolPromotionUpdated(liquidity_token_id, Some(weight)),
            final(self).promoted_pool_rewards@.dom() == old(self).promoted_pool_rewards@.dom().insert(liquidity_token_id),
            forall|k: CurrencyId| k != liquidity_token_id && #[trigger] old(self).promoted_pool_rewards@.contains_key(k)
                ==> final(self).promoted_pool_rewards@[k] == old(self).promoted_pool_rewards@[k],
            final(self).promoted_pool_rewards@[liquidity_token_id].weight == weight,
            old(self).promoted_pool_rewards@.contains_key(liquidity_token_id)
                ==> final(self).promoted_pool_rewards@[liquidity_token_id].rewards == old(self).promoted_pool_rewards@[liquidity_token_id].rewards,
            !old(self).promoted_pool_rewards@.contains_key(liquidity_token_id)
                ==> final(self).promoted_pool_rewards@[liquidity_token_id].rewards.value() == 0,
            final(self).pools_frame(*old(self)),
    {
        let rewards = match self.promoted_pool_rewards.get(&liquidity_token_id) {
            Some(p) => p.rewards,
            None => U256::zero(),
        };
        self.promoted_pool_rewards.insert(liquidity_token_id, PromotedPools { weight, rewards });
        PosEvent::PoolPromotionUpdated(liquidity_token_id, Some(weight))
    }

    /// Stops native rewards for `liquidity_token_id`: a promoted pool keeps its
    /// rewards with weight zero.
    pub fn disable(&mut self, liquidity_token_id: CurrencyId) -> (r: PosEvent)
        ensures
            r == PosEvent::PoolPromotionUpdated(liquidity_token_id, None),
            old(self).promoted_pool_rewards@.contains_key(liquidity_token_id) ==> final(self).promoted_pool_rewards@ == old(self).promoted_pool_rewards@.insert(
                liquidity_token_id,
                PromotedPools { weight: 0, ..old(self).promoted_pool_rewards@[liquidity_token_id] },
            ),
            !old(self).promoted_pool_rewards@.contains_key(liquidity_token_id) ==> final(self).promoted_pool_rewards@ == old(self).promoted_pool_rewards@,
            final(self).pools_frame(*old(self)),
    {
        let found = match self.promoted_pool_rewards.get(&liquidity_token_id) {
            Some(p) => Some(*p),
            None => None,
        };
        if let Some(p) = found {
            self.promoted_pool_rewards.insert(liquidity_token_id, PromotedPools { weight: 0, rewards: p.rewards });
        }
        PosEvent::PoolPromotionUpdated(liquidity_token_id, None)
    }

    /// Whether `liquidity_token_id` is promoted for native rewards.
    pub fn is_enabled(&self, liquidity_token_id: CurrencyId) -> (r: bool)
        ensures
            r == self.spec_native_enabled(liquidity_token_id),
    {
        self.promoted_pool_rewards.contains_key(&liquidity_token_id)
    }

    /// Promotes `liquidity_token_id` with `liquidity_mining_issuance_weight`,
    /// or stops its native rewards when the weight is zero.
    pub fn update_pool_promotion(&mut self, liquidity_token_id: CurrencyId, liquidity_mining_issuance_weight: u8) -> (r: PosEvent)
        ensures
            liquidity_mining_issuance_weight > 0 ==> r == PosEvent::PoolPromotionUpdated(liquidity_token_id, Some(liquidity_mining_issuance_weight))
                && final(self).promoted_pool_rewards@.contains_key(liquidity_token_id)
                && final(self).promoted_pool_rewards@[liquidity_token_id].weight == liquidity_mining_issuance_weight
                && final(self).promoted_pool_rewards@.dom() == old(self).promoted_pool_rewards@.dom().insert(liquidity_token_id)
                && (!old(self).promoted_pool_rewards@.contains_key(liquidity_token_id)
                    ==> final(self).promoted_pool_rewards@[liquidity_token_id].rewards.value() == 0),
            liquidity_mining_issuance_weight == 0 ==> r == PosEvent::PoolPromotionUpdated(liquidity_token_id, None)
                && final(self).promoted_pool_rewards@.dom() == old(self).promoted_pool_rewards@.dom()
                && (old(self).promoted_pool_rewards@.contains_key(liquidity_token_id)
                    ==> final(self).promoted_pool_rewards@[liquidity_token_id].weight == 0),
            forall|k: CurrencyId| k != liquidity_token_id && #[trigger] old(self).promoted_pool_rewards@.contains_key(k)
                ==> final(self).promoted_pool_rewards@[k] == old(self).promoted_pool_rewards@[k],
            old(self).promoted_pool_rewards@.contains_key(liquidity_token_id)
                ==> final(self).promoted_pool_rewards@[liquidity_token_id].rewards == old(self).promoted_pool_rewards@[liquidity_token_id].rewards,
            final(self).pools_frame(*old(self)),
    {
        if liquidity_mining_issuance_weight > 0 {
            self.enable(liquidity_token_id, liquidity_mining_issuance_weight)
        } else {
            self.disable(liquidity_token_id)
        }
    }

    /// The cumulative native rewards per liquidity of `liquidity_asset_id`.
    pub fn get_pool_rewards(&self, liquidity_asset_id: CurrencyId) -> (r: Result<U256, PosError>)
        ensures
            self.spec_native_enabled(liquidity_asset_id) ==> r == Ok::<U256, PosError>(self.promoted_pool_rewards@[liquidity_asset_id].rewards),
            !self.spec_native_enabled(liquidity_asset_id) ==> r == Err::<U256, PosError>(PosError::NotAPromotedPool),
    {
        match self.promoted_pool_rewards.get(&liquidity_asset_id) {
            Some(p) => Ok(p.rewards),
            None => Err(PosError::NotAPromotedPool),
        }
    }

    /// `user` claims its scheduled rewards of `reward_token` for
    /// `liquidity_token_id`, with the pair's cumulative rewards brought up to
    /// the current session.
    pub fn claim_3rdparty_rewards(&mut self, user: AccountId, liquidity_token_id: CurrencyId, reward_token: CurrencyId, block: u64) -> (r: Result<(Balance, PosEvent, PosCall), PosError>)
        requires
            old(self).pair_readable(spec_pair_key(liquidity_token_id, reward_token), old(self).session_of(block)),
        ensures
            old(self).claim_3rdparty_error(user, liquidity_token_id, reward_token, block) matches Some(e)
                ==> r == Err::<(Balance, PosEvent, PosCall), PosError>(e) && final(self).same_as(*old(self)),
            old(self).claim_3rdparty_error(user, liquidity_token_id, reward_token, block) is None ==> ({
                let k = spec_pair_key(liquidity_token_id, reward_token);
                let time = old(self).session_of(block);
                let ratio = old(self).spec_rewards_ratio(k, time);
                let iv = old(self).sched_view(user, k, time, ratio);
                let total = sched_available(iv, ratio)->0 as u128;
                &&& r == Ok::<(Balance, PosEvent, PosCall), PosError>((
                    total,
                    PosEvent::ThirdPartyRewardsClaimed(user, liquidity_token_id, reward_token, total),
                    PosCall::TransferFromPallet { token: reward_token, to: user, amount: total },
                ))
                &&& cumulative_updated(*old(self), *final(self), k, time)
                &&& sched_info_set(*old(self), *final(self), user, k, InfoView { not_yet: 0, already: sched_current(iv, ratio)->0, ..iv })
                &&& final(self).spec_rewards_ratio(k, time) == ratio
            }),
    {
        let ghost s0 = *self;
        let out = match self.claim_schedule_rewards_all_impl(user, liquidity_token_id, reward_token, block) {
            Ok(x) => x,
            Err(e) => {
                return Err(e);
            },
        };
        let session = self.session_index(block);
        self.update_cumulative_rewards(liquidity_token_id, reward_token, session);
        proof {
            let k = spec_pair_key(liquidity_token_id, reward_token);
            assert(self.spec_rewards_ratio(k, session) == s0.spec_rewards_ratio(k, session));
        }
        Ok(out)
    }

    /// Pool `k`'s cumulative rewards per liquidity once its share of `amount`
    /// is added, if it fits in 256 bits.
    pub open spec fn pool_ratio_after(&self, k: CurrencyId, amount: Balance) -> Option<int> {
        match mul256(self.pool_issuance(k, amount), u128::MAX as int) {
            Some(p) => add256(
                p / amount_or_0(self.total_activated_liquidity@, k),
                self.promoted_pool_rewards@[k].rewards.value() as int,
            ),
            None => None,
        }
    }

    /// Distributing `amount` fails for some pool that takes part.
    pub open spec fn distribution_fails(&self, amount: Balance) -> bool {
        exists|k: CurrencyId| #[trigger] self.pool_counts(k) && self.pool_ratio_after(k, amount) is None
    }
}

/// `f` of each pool of `s`, added up.
pub open spec fn sum_over(s: Set<CurrencyId>, f: spec_fn(CurrencyId) -> int) -> int {
    s.fold(0int, |acc: int, k: CurrencyId| acc + f(k))
}

/// Adding a pool to a set adds its term to the sum.
proof fn lemma_sum_over_insert(s: Set<CurrencyId>, f: spec_fn(CurrencyId) -> int, k: CurrencyId)
    requires
        s.finite(),
        !s.contains(k),
    ensures
        sum_over(s.insert(k), f) == sum_over(s, f) + f(k),
{
    let g = |acc: int, k: CurrencyId| acc + f(k);
    assert(vstd::set::fold::is_fun_commutative(g)) by {
        assert forall|a1: CurrencyId, a2: CurrencyId, b: int| #[trigger] g(g(b, a2), a1) == g(g(b, a1), a2) by {}
    }
    vstd::set::fold::lemma_fold_insert(s, 0int, g, k);
}

/// When each term of `f`, scaled by `t`, is at most `c` times the term of `g`,
/// the sums are so too.
proof fn lemma_sum_over_scaled_le(s: Set<CurrencyId>, f: spec_fn(CurrencyId) -> int, g: spec_fn(CurrencyId) -> int, t: int, c: int)
    requires
        s.finite(),
        forall|k: CurrencyId| #[trigger] s.contains(k) ==> f(k) * t <= c * g(k),
    ensures
        sum_over(s, f) * t <= c * sum_over(s, g),
    decreases s.len(),
{
    if s.len() == 0 {
        assert(s =~= Set::<CurrencyId>::empty());
        vstd::set::fold::lemma_fold_empty(0int, |acc: int, k: CurrencyId| acc + f(k));
        vstd::set::fold::lemma_fold_empty(0int, |acc: int, k: CurrencyId| acc + g(k));
        assert(0 * t == 0 && c * 0 == 0) by (nonlinear_arith);
    } else {
        let a = s.choose();
        let rest = s.remove(a);
        lemma_sum_over_scaled_le(rest, f, g, t, c);
        lemma_sum_over_insert(rest, f, a);
        lemma_sum_over_insert(rest, g, a);
        assert(rest.insert(a) =~= s);
        let sf = sum_over(rest, f);
        let sg = sum_over(rest, g);
        assert(f(a) * t <= c * g(a));
        assert((sf + f(a)) * t <= c * (sg + g(a))) by (nonlinear_arith)
            requires
                sf * t <= c * sg,
                f(a) * t <= c * g(a),
        ;
    }
}

/// A sum of terms that are not negative is at least each of them.
proof fn lemma_sum_over_ge_term(s: Set<CurrencyId>, f: spec_fn(CurrencyId) -> int, k: CurrencyId)
    requires
        s.finite(),
        s.contains(k),
        forall|j: CurrencyId| #[trigger] s.contains(j) ==> f(j) >= 0,
    ensures
        sum_over(s, f) >= f(k),
{
    let rest = s.remove(k);
    assert(rest.insert(k) =~= s);
    lemma_sum_over_insert(rest, f, k);
    let zero = |j: CurrencyId| 0int;
    lemma_sum_over_scaled_le(rest, zero, f, 1, 1);
    assert(rest.len() >= 0);
    lemma_sum_over_zero(rest);
}

/// A sum of zeros is zero.
proof fn lemma_sum_over_zero(s: Set<CurrencyId>)
    requires
        s.finite(),
    ensures
        sum_over(s, |j: CurrencyId| 0int) == 0,
    decreases s.len(),
{
    let zero = |j: CurrencyId| 0int;
    if s.len() == 0 {
        assert(s =~= Set::<CurrencyId>::empty());
        vstd::set::fold::lemma_fold_empty(0int, |acc: int, k: CurrencyId| acc + zero(k));
    } else {
        let a = s.choose();
        let rest = s.remove(a);
        lemma_sum_over_zero(rest);
        lemma_sum_over_insert(rest, zero, a);
        assert(rest.insert(a) =~= s);
    }
}

impl PosPallet {
    /// What a distribution from `s` to `t` handed pool `k`, in units of
    /// rewards per liquidity times liquidity (`u128::MAX` per reward token):
    /// the growth of its rewards per liquidity times its activated liquidity,
    /// for a pool that takes part, nothing for any other.
    pub open spec fn handed_out(s: PosPallet, t: PosPallet, k: CurrencyId) -> int {
        if s.pool_counts(k) {
            (t.promoted_pool_rewards@[k].rewards.value() - s.promoted_pool_rewards@[k].rewards.value())
                * amount_or_0(s.total_activated_liquidity@, k)
        } else {
            0
        }
    }
}

/// A distribution of `amount` never hands out more than `amount` in all: the
/// growth of each taking-part pool's rewards per liquidity, times its
/// activated liquidity, added up over the pools, is at most `amount` reward
/// tokens (`amount * u128::MAX`). Each taking-part pool's growth is its
/// weight's share of `amount` (as a `Perbill` of the total weight, rounded
/// down) spread over its liquidity.
pub proof fn law_distribution_within_amount(s: PosPallet, t: PosPallet, amount: Balance)
    requires
        !s.distribution_fails(amount),
        distributed(s, t, amount),
    ensures
        sum_over(s.promoted_pool_rewards@.dom(), |k: CurrencyId| PosPallet::handed_out(s, t, k))
            <= amount * (u128::MAX as int),
        forall|k: CurrencyId| #[trigger] s.pool_counts(k) ==> {
            let tw = s.total_weight();
            let share = if 0 < tw <= u64::MAX {
                amount * spec_perbill_from_rational(s.promoted_pool_rewards@[k].weight as int, tw) / billion()
            } else {
                0
            };
            t.promoted_pool_rewards@[k].rewards.value() == s.promoted_pool_rewards@[k].rewards.value()
                + share * (u128::MAX as int) / amount_or_0(s.total_activated_liquidity@, k)
        },
{
    let dom = s.promoted_pool_rewards@.dom();
    let h = |k: CurrencyId| PosPallet::handed_out(s, t, k);
    let w = |k: CurrencyId| s.counted_weight(k);
    let tw = s.total_weight();
    let m = u128::MAX as int;
    assert(dom.finite());
    assert(s.weight_of(dom) == sum_over(dom, w)) by {
        assert(s.weight_adder() =~= (|acc: int, k: CurrencyId| acc + w(k)));
    }
    assert(tw >= 0) by {
        let zero = |j: CurrencyId| 0int;
        assert forall|j: CurrencyId| #[trigger] dom.contains(j) implies zero(j) * 1 <= 1 * w(j) by {}
        lemma_sum_over_scaled_le(dom, zero, w, 1, 1);
        lemma_sum_over_zero(dom);
    }
    assert forall|k: CurrencyId| #[trigger] s.pool_counts(k) implies {
        let share = if 0 < tw <= u64::MAX {
            amount * spec_perbill_from_rational(s.promoted_pool_rewards@[k].weight as int, tw) / billion()
        } else {
            0
        };
        t.promoted_pool_rewards@[k].rewards.value() == s.promoted_pool_rewards@[k].rewards.value()
            + share * m / amount_or_0(s.total_activated_liquidity@, k)
    } by {
        assert(s.pool_ratio_after(k, amount) is Some);
        assert(s.promoted_pool_rewards@.contains_key(k));
        assert(s.counted_weight(k) == s.promoted_pool_rewards@[k].weight as int);
        let i = s.pool_issuance(k, amount);
        assert(mul256(i, m) is Some);
    }
    let valid = 0 < tw <= u64::MAX;
    assert forall|k: CurrencyId| #[trigger] dom.contains(k) implies
        h(k) * (if valid { tw } else { 1 }) <= (if valid { amount * m } else { 0 }) * w(k) by {
        if s.pool_counts(k) {
            assert(s.pool_ratio_after(k, amount) is Some);
            let i = s.pool_issuance(k, amount);
            let a = amount_or_0(s.total_activated_liquidity@, k);
            let p = i * m;
            let growth = p / a;
            assert(h(k) == growth * a);
            assert(growth * a <= p) by (nonlinear_arith)
                requires
                    growth == p / a,
                    a > 0,
            ;
            if valid {
                let wk = s.promoted_pool_rewards@[k].weight as int;
                assert(w(k) == wk);
                assert forall|j: CurrencyId| #[trigger] dom.contains(j) implies w(j) >= 0 by {}
                lemma_sum_over_ge_term(dom, w, k);
                assert(wk <= tw);
                let pb = spec_perbill_from_rational(wk, tw);
                assert(pb == billion() * wk / tw);
                assert(pb * tw <= billion() * wk) by (nonlinear_arith)
                    requires
                        pb == billion() * wk / tw,
                        tw > 0,
                ;
                assert(i == amount * pb / billion());
                assert(i * billion() <= amount * pb) by (nonlinear_arith)
                    requires
                        i == amount * pb / billion(),
                        billion() > 0,
                ;
                assert(i * tw <= amount * wk) by (nonlinear_arith)
                    requires
                        i * billion() <= amount * pb,
                        pb * tw <= billion() * wk,
                        amount >= 0,
                        tw > 0,
                        billion() > 0,
                ;
                assert(h(k) * tw <= amount * m * wk) by (nonlinear_arith)
                    requires
                        h(k) <= i * m,
                        i * tw <= amount * wk,
                        tw > 0,
                        m > 0,
                ;
            } else {
                assert(i == 0);
                assert(p == 0);
                assert(growth == 0);
                assert(h(k) == 0);
            }
        } else {
            assert(h(k) == 0);
            assert(0 * (if valid { tw } else { 1 }) == 0) by (nonlinear_arith);
            assert(w(k) == 0);
            assert((if valid { amount * m } else { 0 }) * 0 == 0) by (nonlinear_arith);
        }
    }
    lemma_sum_over_scaled_le(dom, h, w, if valid { tw } else { 1 }, if valid { amount * m } else { 0 });
    let sh = sum_over(dom, h);
    if valid {
        assert(sh * tw <= (amount * m) * tw);
        assert(sh <= amount * m) by (nonlinear_arith)
            requires
                sh * tw <= (amount * m) * tw,
                tw > 0,
        ;
    } else {
        assert(sh <= 0);
        assert(amount * m >= 0) by (nonlinear_arith)
            requires
                amount >= 0,
                m > 0,
        ;
    }
}

/// `t` is `s` after `amount` of native rewards was distributed: each pool
/// that takes part gets its share of `amount` added to its rewards per
/// liquidity, all else stays.
pub open spec fn distributed(s: PosPallet, t: PosPallet, amount: Balance) -> bool {
    &&& t.promoted_pool_rewards@.dom() == s.promoted_pool_rewards@.dom()
    &&& forall|k: CurrencyId| #[trigger] s.promoted_pool_rewards@.contains_key(k) ==> {
        &&& t.promoted_pool_rewards@[k].weight == s.promoted_pool_rewards@[k].weight
        &&& t.promoted_pool_rewards@[k].rewards.value() == if s.pool_counts(k) {
            s.pool_ratio_after(k, amount)->0
        } else {
            s.promoted_pool_rewards@[k].rewards.value() as int
        }
    }
    &&& t.config == s.config
    &&& t.rewards_info@ == s.rewards_info@
    &&& t.total_activated_liquidity@ == s.total_activated_liquidity@
    &&& t.same_except_schedules_and_pools(s)
}

impl PosPallet {
    /// `self` holds what `other` holds in the maps of scheduled rewards.
    pub open spec fn same_except_schedules_and_pools(&self, other: PosPallet) -> bool {
        &&& self.rewards_info_for_schedule_rewards@ == other.rewards_info_for_schedule_rewards@
        &&& self.schedule_rewards_total@ == other.schedule_rewards_total@
        &&& self.schedule_rewards_per_liquidity@ == other.schedule_rewards_per_liquidity@
        &&& self.total_activated_liquidity_for_schedules@ == other.total_activated_liquidity_for_schedules@
        &&& self.activated_liquidity_for_schedules@ == other.activated_liquidity_for_schedules@
        &&& self.activated_locked_liquidity_for_schedules@ == other.activated_locked_liquidity_for_schedules@
        &&& self.activated_native_rewards_liq@ == other.activated_native_rewards_liq@
        &&& self.reward_tokens_per_pool@ == other.reward_tokens_per_pool@
        &&& self.rewards_schedules_list@ == other.rewards_schedules_list@
        &&& self.schedules_list_metadata == other.schedules_list_metadata
    }
}

impl PosPallet {
    /// `self` holds what `other` holds, but for the promoted pools.
    pub open spec fn pools_frame(&self, other: PosPallet) -> bool {
        &&& self.config == other.config
        &&& self.rewards_info@ == other.rewards_info@
        &&& self.total_activated_liquidity@ == other.total_activated_liquidity@
        &&& self.same_except_schedules_and_pools(other)
    }
}

/// Adding a pool to a set adds its counted weight.
proof fn lemma_weight_step(s: PosPallet, done: Set<CurrencyId>, k: CurrencyId)
    requires
        done.finite(),
        !done.contains(k),
    ensures
        s.weight_of(done.insert(k)) == s.weight_of(done) + s.counted_weight(k),
{
    let f = s.weight_adder();
    assert(vstd::set::fold::is_fun_commutative(f)) by {
        assert forall|a1: CurrencyId, a2: CurrencyId, b: int| #[trigger] f(f(b, a2), a1) == f(f(b, a1), a2) by {}
    }
    vstd::set::fold::lemma_fold_insert(done, 0int, f, k);
}

/// The liquidity token of the pair with key `k`.
pub open spec fn pair_liq(k: u64) -> CurrencyId {
    (k / 0x1_0000_0000) as u32
}

/// The reward token of the pair with key `k`.
pub open spec fn pair_reward(k: u64) -> CurrencyId {
    (k % 0x1_0000_0000) as u32
}

impl PosPallet {
    /// The scheduled rewards `user` could claim for each pair of `keys` in
    /// turn, none when one of them fails.
    pub open spec fn all_3rdparty(&self, user: AccountId, keys: Seq<u64>, block: u64) -> Option<Seq<(CurrencyId, CurrencyId, Balance)>>
        decreases keys.len(),
    {
        if keys.len() == 0 {
            Some(Seq::empty())
        } else {
            match self.all_3rdparty(user, keys.drop_last(), block) {
                None => None,
                Some(v) => {
                    let k = keys.last();
                    match self.spec_3rdparty_rewards_amount(user, pair_liq(k), pair_reward(k), block) {
                        Ok(a) => Some(v.push((pair_liq(k), pair_reward(k), a as u128))),
                        Err(_) => None,
                    }
                }
            }
        }
    }

    /// The pairs `user` holds scheduled-reward checkpoints for.
    pub open spec fn user_pairs(&self, user: AccountId) -> Set<u64> {
        if self.rewards_info_for_schedule_rewards@.contains_key(user) {
            self.rewards_info_for_schedule_rewards@[user]@.dom()
        } else {
            Set::empty()
        }
    }
}

/// `r` lists what `s.all_3rdparty` gives for the pairs of `user` in order,
/// or nothing when one fails.
pub open spec fn listed_3rdparty(s: PosPallet, user: AccountId, block: u64, r: Seq<(CurrencyId, CurrencyId, Balance)>) -> bool {
    exists|keys: Seq<u64>| {
        &&& #[trigger] keys.to_set() == s.user_pairs(user)
        &&& forall|i: int, j: int| 0 <= i < j < keys.len() ==> keys[i] < keys[j]
        &&& r == match s.all_3rdparty(user, keys, block) {
            Some(v) => v,
            None => Seq::empty(),
        }
    }
}

/// The liquidity and reward tokens of a pair key give the key back.
pub proof fn lemma_pair_key_split(k: u64)
    ensures
        spec_pair_key(pair_liq(k), pair_reward(k)) == k,
{
    let d = 0x1_0000_0000int;
    vstd::arithmetic::div_mod::lemma_fundamental_div_mod(k as int, d);
    assert(k as int / d < d) by {
        vstd::arithmetic::div_mod::lemma_div_is_ordered(k as int, 0xffff_ffff_ffff_ffffint, d);
    }
    assert(0 <= k as int % d < d) by {
        vstd::arithmetic::div_mod::lemma_mod_bound(k as int, d);
    }
    assert(pair_liq(k) as int == k as int / d);
    assert(pair_reward(k) as int == k as int % d);
    assert(pair_liq(k) as int * d + pair_reward(k) as int == k as int) by (nonlinear_arith)
        requires
            pair_liq(k) as int == k as int / d,
            pair_reward(k) as int == k as int % d,
            k as int == d * (k as int / d) + k as int % d,
    ;
}

/// What a claimable amount can be: between nothing and `u128::MAX`.
proof fn lemma_3rdparty_amount_range(s: PosPallet, user: AccountId, liq: CurrencyId, reward: CurrencyId, block: u64)
    ensures
        s.spec_3rdparty_rewards_amount(user, liq, reward, block) matches Ok(a) ==> 0 <= a <= u128::MAX,
{
}

/// Each entry listed for `keys` is the pair of a key, in order, with what the
/// user can claim for it.
proof fn lemma_all_3rdparty_entries(s: PosPallet, user: AccountId, keys: Seq<u64>, block: u64)
    requires
        s.all_3rdparty(user, keys, block) is Some,
    ensures
        ({
            let v = s.all_3rdparty(user, keys, block)->0;
            &&& v.len() == keys.len()
            &&& forall|i: int| 0 <= i < v.len() ==> {
                &&& spec_pair_key(#[trigger] v[i].0, v[i].1) == keys[i]
                &&& s.spec_3rdparty_rewards_amount(user, v[i].0, v[i].1, block) == Ok::<int, PosError>(v[i].2 as int)
            }
        }),
    decreases keys.len(),
{
    if keys.len() > 0 {
        lemma_all_3rdparty_entries(s, user, keys.drop_last(), block);
        let k = keys.last();
        lemma_pair_key_split(k);
        lemma_3rdparty_amount_range(s, user, pair_liq(k), pair_reward(k), block);
        let v = s.all_3rdparty(user, keys, block)->0;
        let v0 = s.all_3rdparty(user, keys.drop_last(), block)->0;
        assert forall|i: int| 0 <= i < v.len() implies {
            &&& spec_pair_key(#[trigger] v[i].0, v[i].1) == keys[i]
            &&& s.spec_3rdparty_rewards_amount(user, v[i].0, v[i].1, block) == Ok::<int, PosError>(v[i].2 as int)
        } by {
            if i < v.len() - 1 {
                assert(v[i] == v0[i]);
                assert(keys.drop_last()[i] == keys[i]);
            }
        }
    }
}

/// Listing all scheduled rewards of `user` lists, for pairs the user holds a
/// checkpoint for, the liquidity token, the reward token and exactly what the
/// user could claim for that pair; it lists every such pair once, in
/// increasing order of pair key, or nothing at all when some pair fails.
pub proof fn law_listed_3rdparty_entries(s: PosPallet, user: AccountId, block: u64, r: Seq<(CurrencyId, CurrencyId, Balance)>)
    requires
        listed_3rdparty(s, user, block, r),
    ensures
        forall|i: int| 0 <= i < r.len() ==> {
            &&& s.user_pairs(user).contains(spec_pair_key(#[trigger] r[i].0, r[i].1))
            &&& s.spec_3rdparty_rewards_amount(user, r[i].0, r[i].1, block) == Ok::<int, PosError>(r[i].2 as int)
        },
        forall|i: int, j: int| 0 <= i < j < r.len() ==> spec_pair_key(r[i].0, r[i].1) < spec_pair_key(r[j].0, r[j].1),
        r.len() == 0 || forall|k: u64| #[trigger] s.user_pairs(user).contains(k)
            ==> exists|i: int| 0 <= i < r.len() && spec_pair_key(r[i].0, r[i].1) == k,
{
    let keys = choose|keys: Seq<u64>| {
        &&& #[trigger] keys.to_set() == s.user_pairs(user)
        &&& forall|i: int, j: int| 0 <= i < j < keys.len() ==> keys[i] < keys[j]
        &&& r == match s.all_3rdparty(user, keys, block) {
            Some(v) => v,
            None => Seq::empty(),
        }
    };
    if s.all_3rdparty(user, keys, block) is Some {
        lemma_all_3rdparty_entries(s, user, keys, block);
        assert forall|i: int| 0 <= i < r.len() implies s.user_pairs(user).contains(spec_pair_key(#[trigger] r[i].0, r[i].1)) by {
            assert(keys.to_set().contains(keys[i]));
        }
        assert forall|k: u64| #[trigger] s.user_pairs(user).contains(k)
            implies exists|i: int| 0 <= i < r.len() && spec_pair_key(r[i].0, r[i].1) == k by {
            assert(keys.to_set().contains(k));
            let i = choose|i: int| 0 <= i < keys.len() && keys[i] == k;
            assert(spec_pair_key(r[i].0, r[i].1) == k);
        }
    }
}

/// Once a prefix of `keys` fails, all of them fail.
proof fn lemma_all_3rdparty_fails(s: PosPallet, user: AccountId, keys: Seq<u64>, block: u64, n: int)
    requires
        0 <= n <= keys.len(),
        s.all_3rdparty(user, keys.take(n), block) is None,
    ensures
        s.all_3rdparty(user, keys, block) is None,
    decreases keys.len() - n,
{
    if n < keys.len() {
        assert(keys.take(n + 1).drop_last() == keys.take(n));
        lemma_all_3rdparty_fails(s, user, keys, block, n + 1);
    } else {
        assert(keys.take(n) == keys);
    }
}

/// The activation kind given, from reserves when none is given.
pub open spec fn kind_or_default(k: Option<ThirdPartyActivationKind>) -> ThirdPartyActivationKind {
    match k {
        Some(x) => x,
        None => ThirdPartyActivationKind::ActivateKind(None),
    }
}

/// Any number times zero is zero.
proof fn lemma_mul_zero(x: int)
    ensures
        x * 0 == 0,
        0 * x == 0,
{
    assert(x * 0 == 0 && 0 * x == 0) by (nonlinear_arith);
}

/// `x + 1` starts a new multiple of `d` exactly when its quotient by `d`
/// differs from that of `x`.
proof fn lemma_next_quotient(x: int, d: int)
    requires
        x >= 0,
        d > 0,
    ensures
        ((x + 1) % d == 0) <==> ((x + 1) / d != x / d),
{
    let q = x / d;
    let r = x % d;
    vstd::arithmetic::div_mod::lemma_fundamental_div_mod(x, d);
    assert(0 <= r < d) by {
        vstd::arithmetic::div_mod::lemma_mod_bound(x, d);
    }
    if r + 1 < d {
        vstd::arithmetic::div_mod::lemma_fundamental_div_mod_converse(x + 1, d, q, r + 1);
    } else {
        assert(x + 1 == (q + 1) * d + 0) by (nonlinear_arith)
            requires
                x == d * q + r,
                r + 1 == d,
        ;
        vstd::arithmetic::div_mod::lemma_fundamental_div_mod_converse(x + 1, d, q + 1, 0);
    }
}

/// `is_new_session` holds at a block exactly when that block falls in another
/// session than the block before it (below the largest 32-bit block number).
pub proof fn law_new_session_iff_session_changes(s: PosPallet, block: u64)
    requires
        s.config.rewards_distribution_period > 0,
        1 <= block < u32::MAX,
    ensures
        ((block_u32(block) as int + 1) % (s.config.rewards_distribution_period as int) == 0)
            <==> s.session_of(block) != s.session_of((block - 1) as u64),
{
    lemma_next_quotient(block as int, s.config.rewards_distribution_period as int);
}

/// Block number `block` as 32 bits, `u32::MAX` when it does not fit.
pub open spec fn block_u32(block: u64) -> u32 {
    if block > u32::MAX {
        u32::MAX
    } else {
        block as u32
    }
}

/// Block number `block` as 32 bits, saturating.
pub fn saturate_block(block: u64) -> (r: u32)
    ensures
        r == block_u32(block),
{
    if block > u32::MAX as u64 {
        u32::MAX
    } else {
        block as u32
    }
}

/// `(block + 1) / period`, the session of block `block` (saturated to 32
/// bits), when it is defined.
pub open spec fn spec_rewards_time(block: u64, period: u32) -> Option<u32> {
    let b = block_u32(block);
    if b as int + 1 > u32::MAX || period == 0 {
        None
    } else {
        Some(((b as int + 1) / (period as int)) as u32)
    }
}

impl PosPallet {
    /// `self` holds what `other` holds, map by map.
    pub open spec fn same_as(&self, other: PosPallet) -> bool {
        &&& self.same_except_schedules(other)
        &&& self.reward_tokens_per_pool@ == other.reward_tokens_per_pool@
        &&& self.rewards_schedules_list@ == other.rewards_schedules_list@
        &&& self.schedules_list_metadata == other.schedules_list_metadata
    }

    /// `self` holds what `other` holds, but for the scheduled rewards totals and
    /// their cumulative ratios.
    pub open spec fn rest_same_as(&self, other: PosPallet) -> bool {
        &&& self.config == other.config
        &&& self.rewards_info@ == other.rewards_info@
        &&& self.promoted_pool_rewards@ == other.promoted_pool_rewards@
        &&& self.total_activated_liquidity@ == other.total_activated_liquidity@
        &&& self.rewards_info_for_schedule_rewards@ == other.rewards_info_for_schedule_rewards@
        &&& self.total_activated_liquidity_for_schedules@ == other.total_activated_liquidity_for_schedules@
        &&& self.activated_liquidity_for_schedules@ == other.activated_liquidity_for_schedules@
        &&& self.activated_locked_liquidity_for_schedules@ == other.activated_locked_liquidity_for_schedules@
        &&& self.activated_native_rewards_liq@ == other.activated_native_rewards_liq@
        &&& self.reward_tokens_per_pool@ == other.reward_tokens_per_pool@
        &&& self.rewards_schedules_list@ == other.rewards_schedules_list@
        &&& self.schedules_list_metadata == other.schedules_list_metadata
    }

    /// `self` holds what `other` holds, but for the list of schedules and the
    /// scheduled rewards per pair.
    pub open spec fn same_outside_list(&self, other: PosPallet) -> bool {
        &&& self.config == other.config
        &&& self.rewards_info@ == other.rewards_info@
        &&& self.promoted_pool_rewards@ == other.promoted_pool_rewards@
        &&& self.total_activated_liquidity@ == other.total_activated_liquidity@
        &&& self.rewards_info_for_schedule_rewards@ == other.rewards_info_for_schedule_rewards@
        &&& self.schedule_rewards_per_liquidity@ == other.schedule_rewards_per_liquidity@
        &&& self.total_activated_liquidity_for_schedules@ == other.total_activated_liquidity_for_schedules@
        &&& self.activated_liquidity_for_schedules@ == other.activated_liquidity_for_schedules@
        &&& self.activated_locked_liquidity_for_schedules@ == other.activated_locked_liquidity_for_schedules@
        &&& self.activated_native_rewards_liq@ == other.activated_native_rewards_liq@
        &&& self.reward_tokens_per_pool@ == other.reward_tokens_per_pool@
    }

    /// `self` holds what `other` holds, but for the schedules, their list and
    /// the reward tokens per pool.
    pub open spec fn same_except_schedules(&self, other: PosPallet) -> bool {
        &&& self.config == other.config
        &&& self.rewards_info@ == other.rewards_info@
        &&& self.promoted_pool_rewards@ == other.promoted_pool_rewards@
        &&& self.total_activated_liquidity@ == other.total_activated_liquidity@
        &&& self.rewards_info_for_schedule_rewards@ == other.rewards_info_for_schedule_rewards@
        &&& self.schedule_rewards_total@ == other.schedule_rewards_total@
        &&& self.schedule_rewards_per_liquidity@ == other.schedule_rewards_per_liquidity@
        &&& self.total_activated_liquidity_for_schedules@ == other.total_activated_liquidity_for_schedules@
        &&& self.activated_liquidity_for_schedules@ == other.activated_liquidity_for_schedules@
        &&& self.activated_locked_liquidity_for_schedules@ == other.activated_locked_liquidity_for_schedules@
        &&& self.activated_native_rewards_liq@ == other.activated_native_rewards_liq@
    }
}

impl PosPallet {
    /// What walking the schedules reads and writes.
    pub open spec fn list_view(&self) -> ListView {
        ListView {
            meta: self.schedules_list_metadata,
            list: self.rewards_schedules_list@,
            totals: self.schedule_rewards_total@,
        }
    }

    /// The current rewards session at block `block`.
    pub fn get_current_rewards_time(&self, block: u64) -> (r: Result<u32, PosError>)
        ensures
            r == (match spec_rewards_time(block, self.config.rewards_distribution_period) {
                Some(t) => Ok::<u32, PosError>(t),
                None => Err::<u32, PosError>(PosError::CalculateRewardsMathError),
            }),
    {
        let b = saturate_block(block);
        match b.checked_add(1) {
            Some(v) => {
                if self.config.rewards_distribution_period == 0 {
                    Err(PosError::CalculateRewardsMathError)
                } else {
                    Ok(v / self.config.rewards_distribution_period)
                }
            },
            None => Err(PosError::CalculateRewardsMathError),
        }
    }

    /// The current rewards session at block `block`, zero when undefined.
    pub fn session_index(&self, block: u64) -> (r: u32)
        ensures
            r == (match spec_rewards_time(block, self.config.rewards_distribution_period) {
                Some(t) => t,
                None => 0,
            }),
    {
        match self.get_current_rewards_time(block) {
            Ok(t) => t,
            Err(_) => 0,
        }
    }

    /// Blocks per rewards session.
    pub fn rewards_period(&self) -> (r: u32)
        ensures
            r == self.config.rewards_distribution_period,
    {
        self.config.rewards_distribution_period
    }

    /// Whether block `block` is the last of a session.
    pub fn is_new_session(&self, block: u64) -> (r: bool)
        requires
            self.config.rewards_distribution_period > 0,
            block_u32(block) < u32::MAX,
        ensures
            r == ((block_u32(block) as int + 1) % (self.config.rewards_distribution_period as int) == 0),
    {
        let b = saturate_block(block);
        (b + 1) % self.config.rewards_distribution_period == 0
    }

    /// The native token.
    pub fn native_token_id(&self) -> (r: CurrencyId)
        ensures
            r == self.config.native_currency_id,
    {
        self.config.native_currency_id
    }


    /// The rewards per session of a schedule of `amount` ending with session
    /// `schedule_end`, made in session `current_session`.
    pub open spec fn spec_amount_per_session(current_session: u32, schedule_end: SessionId, amount: Balance) -> Result<Balance, PosError> {
        if schedule_end <= current_session {
            Err(PosError::CannotScheduleRewardsInPast)
        } else {
            Ok((amount / ((schedule_end - current_session) as u128)) as u128)
        }
    }

    /// The rewards per session of a schedule of `amount` made at block
    /// `block` and ending with session `schedule_end`.
    pub fn schedule_amount_per_session(&self, block: u64, schedule_end: SessionId, amount: Balance) -> (r: Result<Balance, PosError>)
        ensures
            r == Self::spec_amount_per_session(
                match spec_rewards_time(block, self.config.rewards_distribution_period) {
                    Some(t) => t,
                    None => 0,
                },
                schedule_end,
                amount,
            ),
    {
        let current_session = self.session_index(block);
        if schedule_end <= current_session {
            return Err(PosError::CannotScheduleRewardsInPast);
        }
        let sessions = schedule_end - current_session;
        Ok(amount / (sessions as u128))
    }

    /// Whether rewards of `amount_per_session` of `token_id` are worth
    /// scheduling: their valuation as a liquidity token
    /// (`liquidity_valuation`), their amount if they are native tokens, or
    /// their valuation as another token (`token_valuation`) reaches the minimum.
    pub open spec fn spec_rewards_min_amount(&self, token_id: CurrencyId, amount_per_session: Balance, liquidity_valuation: Balance, token_valuation: Balance) -> bool {
        let min = self.config.min3rd_party_reward_valutation_per_session;
        liquidity_valuation >= min || (token_id == self.config.native_currency_id && amount_per_session >= min)
            || token_valuation >= min
    }

    fn verify_rewards_min_amount(&self, token_id: CurrencyId, amount_per_session: Balance, liquidity_valuation: Balance, token_valuation: Balance) -> (r: bool)
        ensures
            r == self.spec_rewards_min_amount(token_id, amount_per_session, liquidity_valuation, token_valuation),
    {
        let min = self.config.min3rd_party_reward_valutation_per_session;
        if liquidity_valuation >= min {
            return true;
        }
        if token_id == self.config.native_currency_id && amount_per_session >= min {
            return true;
        }
        if token_valuation >= min {
            return true;
        }
        false
    }

    /// Whether `token_id` is traded enough: it is the native token, or the
    /// native reserves of its pool (`pool_native_reserves`, as a liquidity
    /// token's pool, else `pair_native_reserves`, as paired with the native
    /// token) reach the minimum volume.
    pub open spec fn spec_rewards_min_volume(&self, token_id: CurrencyId, pool_native_reserves: Option<Balance>, pair_native_reserves: Option<Balance>) -> bool {
        let min = self.config.min3rd_party_reward_volume;
        if token_id == self.config.native_currency_id {
            true
        } else if pool_native_reserves is Some {
            pool_native_reserves->0 >= min
        } else if pair_native_reserves is Some {
            pair_native_reserves->0 >= min
        } else {
            false
        }
    }

    fn verify_rewards_min_volume(&self, token_id: CurrencyId, pool_native_reserves: Option<Balance>, pair_native_reserves: Option<Balance>) -> (r: bool)
        ensures
            r == self.spec_rewards_min_volume(token_id, pool_native_reserves, pair_native_reserves),
    {
        if token_id == self.config.native_currency_id {
            return true;
        }
        if let Some(mga) = pool_native_reserves {
            return mga >= self.config.min3rd_party_reward_volume;
        }
        if let Some(mga) = pair_native_reserves {
            return mga >= self.config.min3rd_party_reward_volume;
        }
        false
    }

    /// Schedules `amount` of `token_id` as rewards for the liquidity token
    /// `liquidity_token` (the runtime's liquidity token of the pool, `None`
    /// when there is no pool), in equal parts for the sessions after the
    /// current one up to `schedule_end`. The valuations and reserves are what
    /// the runtime's valuation gives for the amount per session and for
    /// `token_id` (see `verify_rewards_min_amount` and
    /// `verify_rewards_min_volume`). On success the runtime is to move
    /// `amount` from `sender` to the pallet, and the schedule is appended to
    /// the list.
    pub fn reward_pool_impl(
        &mut self,
        sender: AccountId,
        liquidity_token: Option<CurrencyId>,
        token_id: CurrencyId,
        amount: Balance,
        schedule_end: SessionId,
        block: u64,
        liquidity_valuation: Balance,
        token_valuation: Balance,
        pool_native_reserves: Option<Balance>,
        pair_native_reserves: Option<Balance>,
    ) -> (r: Result<PosCall, PosError>)
        requires
            old(self).schedules_list_metadata.tail matches Some(t) ==> t < u64::MAX,
        ensures
            ({
                let current = match spec_rewards_time(block, old(self).config.rewards_distribution_period) {
                    Some(t) => t,
                    None => 0,
                };
                let amps = Self::spec_amount_per_session(current, schedule_end, amount);
                let meta = old(self).schedules_list_metadata;
                let full = meta.head is Some && meta.tail is Some && meta.count >= old(self).config.rewards_schedules_limit;
                if liquidity_token is None {
                    r == Err::<PosCall, PosError>(PosError::PoolDoesNotExist) && final(self).same_as(*old(self))
                } else if amps is Err {
                    r == Err::<PosCall, PosError>(amps->Err_0) && final(self).same_as(*old(self))
                } else if !old(self).spec_rewards_min_amount(token_id, amps->Ok_0, liquidity_valuation, token_valuation) {
                    r == Err::<PosCall, PosError>(PosError::TooLittleRewards) && final(self).same_as(*old(self))
                } else if !old(self).spec_rewards_min_volume(token_id, pool_native_reserves, pair_native_reserves) {
                    r == Err::<PosCall, PosError>(PosError::TooSmallVolume) && final(self).same_as(*old(self))
                } else if full {
                    r == Err::<PosCall, PosError>(PosError::TooManySchedules) && final(self).same_as(*old(self))
                } else {
                    let liq = liquidity_token->0;
                    let schedule = Schedule {
                        scheduled_at: current,
                        last_session: schedule_end,
                        liq_token: liq,
                        reward_token: token_id,
                        amount_per_session: amps->Ok_0,
                    };
                    &&& r == Ok::<PosCall, PosError>(PosCall::TransferToPallet { token: token_id, from: sender, amount })
                    &&& final(self).reward_tokens_per_pool@.dom() == old(self).reward_tokens_per_pool@.dom().insert(liq)
                    &&& final(self).reward_tokens_per_pool@[liq]@.dom() == (if old(self).reward_tokens_per_pool@.contains_key(liq) {
                        old(self).reward_tokens_per_pool@[liq]@.dom()
                    } else {
                        Set::<CurrencyId>::empty()
                    }).insert(token_id)
                    &&& forall|k: CurrencyId| k != liq && #[trigger] old(self).reward_tokens_per_pool@.contains_key(k)
                        ==> final(self).reward_tokens_per_pool@[k] == old(self).reward_tokens_per_pool@[k]
                    &&& (match (meta.head, meta.tail) {
                        (None, None) => {
                            &&& final(self).rewards_schedules_list@ == old(self).rewards_schedules_list@.insert(0, (schedule, None))
                            &&& final(self).schedules_list_metadata == (SchedulesList { head: Some(0), tail: Some(0), count: 1, ..meta })
                        },
                        (Some(_), Some(t)) => {
                            let linked = if old(self).rewards_schedules_list@.contains_key(t) {
                                old(self).rewards_schedules_list@.insert(t, (old(self).rewards_schedules_list@[t].0, Some((t + 1) as u64)))
                            } else {
                                old(self).rewards_schedules_list@
                            };
                            &&& final(self).rewards_schedules_list@ == linked.insert((t + 1) as u64, (schedule, None))
                            &&& final(self).schedules_list_metadata == (SchedulesList { tail: Some((t + 1) as u64), count: (meta.count + 1) as u64, ..meta })
                        },
                        _ => {
                            &&& final(self).rewards_schedules_list@ == old(self).rewards_schedules_list@
                            &&& final(self).schedules_list_metadata == meta
                        },
                    })
                    &&& final(self).same_except_schedules(*old(self))
                }
            }),
            links_increase(old(self).rewards_schedules_list@) ==> links_increase(final(self).rewards_schedules_list@),
            ends_agree(old(self).schedules_list_metadata) ==> ends_agree(final(self).schedules_list_metadata),
            list_wf(old(self).schedules_list_metadata, old(self).rewards_schedules_list@)
                ==> list_wf(final(self).schedules_list_metadata, final(self).rewards_schedules_list@),
    {
        let liq = match liquidity_token {
            Some(l) => l,
            None => {
                return Err(PosError::PoolDoesNotExist);
            },
        };
        let current_session = self.session_index(block);
        let amount_per_session = match self.schedule_amount_per_session(block, schedule_end, amount) {
            Ok(a) => a,
            Err(e) => {
                return Err(e);
            },
        };
        if !self.verify_rewards_min_amount(token_id, amount_per_session, liquidity_valuation, token_valuation) {
            return Err(PosError::TooLittleRewards);
        }
        if !self.verify_rewards_min_volume(token_id, pool_native_reserves, pair_native_reserves) {
            return Err(PosError::TooSmallVolume);
        }
        let meta = self.schedules_list_metadata;
        if meta.head.is_some() && meta.tail.is_some() && meta.count >= self.config.rewards_schedules_limit as u64 {
            return Err(PosError::TooManySchedules);
        }
        let mut tokens = match self.reward_tokens_per_pool.remove(&liq) {
            Some(m) => m,
            None => BTreeMap::new(),
        };
        tokens.insert(token_id, ());
        self.reward_tokens_per_pool.insert(liq, tokens);
        proof {
            assert(self.reward_tokens_per_pool@.dom() =~= old(self).reward_tokens_per_pool@.dom().insert(liq));
            if old(self).reward_tokens_per_pool@.contains_key(liq) {
                assert(self.reward_tokens_per_pool@[liq]@.dom() =~= old(self).reward_tokens_per_pool@[liq]@.dom().insert(token_id));
            } else {
                assert(self.reward_tokens_per_pool@[liq]@.dom() =~= Set::<CurrencyId>::empty().insert(token_id));
            }
        }
        let schedule = Schedule {
            scheduled_at: current_session,
            last_session: schedule_end,
            liq_token: liq,
            reward_token: token_id,
            amount_per_session,
        };
        match (meta.head, meta.tail) {
            (None, None) => {
                proof {
                    if links_increase(self.rewards_schedules_list@) {
                        lemma_links_set(self.rewards_schedules_list@, 0, (schedule, None));
                    }
                    if list_wf(meta, self.rewards_schedules_list@) {
                        lemma_first_schedule_wf(meta, self.rewards_schedules_list@, schedule);
                    }
                }
                self.rewards_schedules_list.insert(0, (schedule, None));
                self.schedules_list_metadata.head = Some(0);
                self.schedules_list_metadata.tail = Some(0);
                self.schedules_list_metadata.count = 1;
            },
            (Some(_), Some(tail)) => {
                let entry = match self.rewards_schedules_list.get(&tail) {
                    Some(e) => Some(e.0),
                    None => None,
                };
                let ghost l0 = self.rewards_schedules_list@;
                proof {
                    if list_wf(meta, l0) {
                        lemma_append_schedule_wf(meta, l0, tail, schedule);
                    }
                }
                if let Some(sch) = entry {
                    proof {
                        if links_increase(l0) {
                            lemma_links_set(l0, tail, (sch, Some((tail + 1) as u64)));
                        }
                    }
                    self.rewards_schedules_list.insert(tail, (sch, Some(tail + 1)));
                }
                proof {
                    if links_increase(l0) {
                        lemma_links_set(self.rewards_schedules_list@, (tail + 1) as u64, (schedule, None));
                    }
                }
                self.rewards_schedules_list.insert(tail + 1, (schedule, None));
                self.schedules_list_metadata.tail = Some(tail + 1);
                self.schedules_list_metadata.count = meta.count + 1;
            },
            _ => {},
        }
        Ok(PosCall::TransferToPallet { token: token_id, from: sender, amount })
    }


    /// The cumulative scheduled rewards per liquidity of the pair with key `k`
    /// and the session they were last folded in.
    pub open spec fn per_liquidity(&self, k: u64) -> (U256, u64) {
        get_or(self.schedule_rewards_per_liquidity@, k, (U256 { limbs: [0u64, 0u64, 0u64, 0u64] }, 0u64))
    }

    /// The liquidity activated for the pair with key `k` in session `session`.
    pub open spec fn spec_total_activated(&self, k: u64, session: u32) -> int {
        get_or(self.total_activated_liquidity_for_schedules@, k, no_activation()).spec_total(session)
    }

    /// The scheduled rewards of the pair with key `k` ready in session `session`.
    pub open spec fn spec_total_schedule_rewards(&self, k: u64, session: u32) -> int {
        get_or(self.schedule_rewards_total@, k, no_rewards()).spec_total_rewards(session)
    }

    /// Reading the pair with key `k` in session `session` does not overflow.
    pub open spec fn pair_readable(&self, k: u64, session: u32) -> bool {
        let a = get_or(self.total_activated_liquidity_for_schedules@, k, no_activation());
        let t = get_or(self.schedule_rewards_total@, k, no_rewards());
        &&& session > a.pending_session_id ==> a.settles()
        &&& session > t.pending_session_id ==> t.total + t.pending <= u128::MAX
        &&& self.per_liquidity(k).1 != session ==> self.per_liquidity(k).0.value() + rewards_per_liquidity(
            self.spec_total_schedule_rewards(k, session),
            self.spec_total_activated(k, session),
        ) < crate::arith::pow256()
    }

    /// The cumulative scheduled rewards per liquidity of the pair with key `k`
    /// in session `session`, with those accrued since the last fold.
    pub open spec fn spec_rewards_ratio(&self, k: u64, session: u32) -> int {
        let (cum, idx) = self.per_liquidity(k);
        if idx == session {
            cum.value() as int
        } else {
            cum.value() + rewards_per_liquidity(self.spec_total_schedule_rewards(k, session), self.spec_total_activated(k, session))
        }
    }

    /// The liquidity activated for the pair in session `session`.
    pub fn total_activated_liquidity(&self, liquidity_asset_id: CurrencyId, reward: CurrencyId, session: u32) -> (r: Balance)
        requires
            self.pair_readable(spec_pair_key(liquidity_asset_id, reward), session),
        ensures
            r == self.spec_total_activated(spec_pair_key(liquidity_asset_id, reward), session),
    {
        let k = pair_key(liquidity_asset_id, reward);
        match self.total_activated_liquidity_for_schedules.get(&k) {
            Some(a) => a.total(session),
            None => 0,
        }
    }

    /// The scheduled rewards of the pair ready in session `session`.
    pub fn total_schedule_rewards(&self, liquidity_asset_id: CurrencyId, reward: CurrencyId, session: u32) -> (r: Balance)
        requires
            self.pair_readable(spec_pair_key(liquidity_asset_id, reward), session),
        ensures
            r == self.spec_total_schedule_rewards(spec_pair_key(liquidity_asset_id, reward), session),
    {
        let k = pair_key(liquidity_asset_id, reward);
        match self.schedule_rewards_total.get(&k) {
            Some(t) => t.total_rewards(session),
            None => 0,
        }
    }

    /// `total * u128::MAX / activated`, zero when nothing is activated.
    fn accrued_per_liquidity(total: Balance, activated: Balance) -> (r: U256)
        ensures
            r.value() == rewards_per_liquidity(total as int, activated as int),
    {
        if activated == 0 {
            return U256::zero();
        }
        proof {
            assert((total as int) * (u128::MAX as int) < crate::arith::pow256()) by (nonlinear_arith)
                requires
                    total <= u128::MAX,
            ;
        }
        let scaled = U256::from_u128(total).checked_mul(&U256::from_u128(u128::MAX)).unwrap();
        scaled.checked_div(&U256::from_u128(activated)).unwrap()
    }

    /// The cumulative scheduled rewards per liquidity of the pair in session
    /// `session` (scaled by `u128::MAX`).
    pub fn total_rewards_for_liquidity(&self, liquidity_asset_id: CurrencyId, reward: CurrencyId, session: u32) -> (r: U256)
        requires
            self.pair_readable(spec_pair_key(liquidity_asset_id, reward), session),
        ensures
            r.value() == self.spec_rewards_ratio(spec_pair_key(liquidity_asset_id, reward), session),
    {
        let k = pair_key(liquidity_asset_id, reward);
        let (cumulative, idx) = match self.schedule_rewards_per_liquidity.get(&k) {
            Some(e) => *e,
            None => (U256::zero(), 0),
        };
        proof {
            if !self.schedule_rewards_per_liquidity@.contains_key(k) {
                assert(cumulative.value() == (U256 { limbs: [0u64, 0u64, 0u64, 0u64] }).value());
            }
        }
        if idx == session as u64 {
            cumulative
        } else {
            let activated = self.total_activated_liquidity(liquidity_asset_id, reward, session);
            let total = self.total_schedule_rewards(liquidity_asset_id, reward, session);
            let pending = Self::accrued_per_liquidity(total, activated);
            cumulative.checked_add(&pending).unwrap()
        }
    }

    /// Folds the scheduled rewards of the pair accrued before session
    /// `session` into its cumulative rewards per liquidity, when liquidity is
    /// activated for it; the folded rewards are taken out, and those provided
    /// in `session` stay pending for the next one.
    pub fn update_cumulative_rewards(&mut self, liquidity_asset_id: CurrencyId, reward: CurrencyId, session: u32)
        requires
            old(self).pair_readable(spec_pair_key(liquidity_asset_id, reward), session),
        ensures
            cumulative_updated(*old(self), *final(self), spec_pair_key(liquidity_asset_id, reward), session),
            final(self).rest_same_as(*old(self)),
            session < u32::MAX ==> {
                let k = spec_pair_key(liquidity_asset_id, reward);
                let before = totals_at(old(self).schedule_rewards_total@, k);
                let after = totals_at(final(self).schedule_rewards_total@, k);
                &&& old(self).per_liquidity(k).1 != session && old(self).spec_total_activated(k, session) > 0
                    ==> after.spec_total_rewards((session + 1) as u32)
                        == before.spec_total_rewards((session + 1) as u32) - before.spec_total_rewards(session)
            },
    {
        let k = pair_key(liquidity_asset_id, reward);
        let (cumulative, idx) = match self.schedule_rewards_per_liquidity.get(&k) {
            Some(e) => *e,
            None => (U256::zero(), 0),
        };
        proof {
            if !self.schedule_rewards_per_liquidity@.contains_key(k) {
                assert(cumulative.value() == (U256 { limbs: [0u64, 0u64, 0u64, 0u64] }).value());
            }
        }
        if idx == session as u64 {
            return;
        }
        let activated = self.total_activated_liquidity(liquidity_asset_id, reward, session);
        let total = self.total_schedule_rewards(liquidity_asset_id, reward, session);
        if activated > 0 {
            let mut rewards = match self.schedule_rewards_total.get(&k) {
                Some(t) => *t,
                None => ScheduleRewards::default(),
            };
            proof {
                if session < u32::MAX {
                    crate::schedule_rewards::law_take_ready_keeps_next_session(rewards, session);
                }
            }
            rewards.take_ready(session);
            self.schedule_rewards_total.insert(k, rewards);
            let pending = Self::accrued_per_liquidity(total, activated);
            let new_cumulative = cumulative.checked_add(&pending).unwrap();
            self.schedule_rewards_per_liquidity.insert(k, (new_cumulative, session as u64));
            proof {
                assert(self.schedule_rewards_per_liquidity@.dom() =~= old(self).schedule_rewards_per_liquidity@.dom().insert(k));
            }
        }
    }


    /// Whether `liquidity_asset_id` was ever rewarded with some token.
    pub open spec fn spec_3rdparty_enabled(&self, liquidity_asset_id: CurrencyId) -> bool {
        self.reward_tokens_per_pool@.contains_key(liquidity_asset_id)
            && self.reward_tokens_per_pool@[liquidity_asset_id]@.dom().len() > 0
    }

    /// Whether `liquidity_asset_id` was ever rewarded with `reward`.
    pub open spec fn spec_rewarded_with(&self, liquidity_asset_id: CurrencyId, reward: CurrencyId) -> bool {
        self.reward_tokens_per_pool@.contains_key(liquidity_asset_id)
            && self.reward_tokens_per_pool@[liquidity_asset_id]@.contains_key(reward)
    }

    /// Fails with `NotAPromotedPool` unless `liquidity_asset_id` was ever
    /// rewarded with some token.
    pub fn ensure_3rdparty_rewards_enabled(&self, liquidity_asset_id: CurrencyId) -> (r: Result<(), PosError>)
        ensures
            r == (if self.spec_3rdparty_enabled(liquidity_asset_id) {
                Ok::<(), PosError>(())
            } else {
                Err::<(), PosError>(PosError::NotAPromotedPool)
            }),
    {
        match self.reward_tokens_per_pool.get(&liquidity_asset_id) {
            Some(m) => {
                if m.is_empty() {
                    Err(PosError::NotAPromotedPool)
                } else {
                    Ok(())
                }
            },
            None => Err(PosError::NotAPromotedPool),
        }
    }

    /// The checkpoint of `user` for the pair with key `k` in session `time`,
    /// a fresh one at `ratio` when there is none.
    pub open spec fn schedule_info_or_fresh(&self, user: AccountId, k: u64, time: u32, ratio: U256) -> RewardInfo {
        get2_or(self.rewards_info_for_schedule_rewards@, user, k, RewardInfo {
            activated_amount: 0,
            rewards_not_yet_claimed: 0,
            rewards_already_claimed: 0,
            last_checkpoint: time,
            pool_ratio_at_last_checkpoint: ratio,
            missing_at_last_checkpoint: U256 { limbs: [0u64, 0u64, 0u64, 0u64] },
        })
    }

    /// The calculator of `user`'s scheduled rewards of `reward` for
    /// `liquidity_asset_id` at block `block`: fails when the session is not
    /// defined or the pool was never rewarded with `reward`.
    pub fn schedule_rewards(&self, user: AccountId, liquidity_asset_id: CurrencyId, reward: CurrencyId, block: u64) -> (r: Result<RewardsCalculator<ConstCurveRewards>, PosError>)
        requires
            spec_rewards_time(block, self.config.rewards_distribution_period) matches Some(t)
                ==> self.pair_readable(spec_pair_key(liquidity_asset_id, reward), t),
        ensures
            spec_rewards_time(block, self.config.rewards_distribution_period) is None
                ==> r == Err::<RewardsCalculator<ConstCurveRewards>, PosError>(PosError::CalculateRewardsMathError),
            spec_rewards_time(block, self.config.rewards_distribution_period) is Some
                && !self.spec_rewarded_with(liquidity_asset_id, reward)
                ==> r == Err::<RewardsCalculator<ConstCurveRewards>, PosError>(PosError::NotAPromotedPool),
            spec_rewards_time(block, self.config.rewards_distribution_period) is Some
                && self.spec_rewarded_with(liquidity_asset_id, reward) ==> ({
                let t = spec_rewards_time(block, self.config.rewards_distribution_period)->0;
                let k = spec_pair_key(liquidity_asset_id, reward);
                r matches Ok(c) && schedule_calc_is(c, t, self.spec_rewards_ratio(k, t),
                    self.schedule_info_or_fresh(user, k, t, c.rewards_context.pool_ratio_current))
            }),
    {
        let current_time = match self.get_current_rewards_time(block) {
            Ok(t) => t,
            Err(e) => {
                return Err(e);
            },
        };
        let registered = match self.reward_tokens_per_pool.get(&liquidity_asset_id) {
            Some(m) => m.contains_key(&reward),
            None => false,
        };
        if !registered {
            return Err(PosError::NotAPromotedPool);
        }
        let ratio = self.total_rewards_for_liquidity(liquidity_asset_id, reward, current_time);
        let k = pair_key(liquidity_asset_id, reward);
        let info = match self.rewards_info_for_schedule_rewards.get(&user) {
            Some(m) => match m.get(&k) {
                Some(i) => *i,
                None => RewardInfo {
                    activated_amount: 0,
                    rewards_not_yet_claimed: 0,
                    rewards_already_claimed: 0,
                    last_checkpoint: current_time,
                    pool_ratio_at_last_checkpoint: ratio,
                    missing_at_last_checkpoint: U256 { limbs: [0u64, 0u64, 0u64, 0u64] },
                },
            },
            None => RewardInfo {
                activated_amount: 0,
                rewards_not_yet_claimed: 0,
                rewards_already_claimed: 0,
                last_checkpoint: current_time,
                pool_ratio_at_last_checkpoint: ratio,
                missing_at_last_checkpoint: U256 { limbs: [0u64, 0u64, 0u64, 0u64] },
            },
        };
        Ok(RewardsCalculator::new(RewardsContext { current_time, pool_ratio_current: ratio }, info, ConstCurveRewards))
    }


    /// The liquidity `user` activated for `liquidity_asset_id` and `reward`, if any.
    pub fn activation_of(&self, user: AccountId, liquidity_asset_id: CurrencyId, reward: CurrencyId) -> (r: Option<Balance>)
        ensures
            r == (if rewards3(self.activated_liquidity_for_schedules@, user, liquidity_asset_id).contains(reward) {
                Some(amount3(self.activated_liquidity_for_schedules@, user, liquidity_asset_id, reward) as u128)
            } else {
                None::<Balance>
            }),
    {
        match self.activated_liquidity_for_schedules.get(&user) {
            Some(outer) => match outer.get(&liquidity_asset_id) {
                Some(inner) => match inner.get(&reward) {
                    Some(v) => Some(*v),
                    None => None,
                },
                None => None,
            },
            None => None,
        }
    }

    /// Sets the liquidity `user` activated for `liquidity_asset_id` and
    /// `reward` to `v`, or removes it.
    fn set_activation(&mut self, user: AccountId, liquidity_asset_id: CurrencyId, reward: CurrencyId, v: Option<Balance>)
        ensures
            nested3_set(old(self).activated_liquidity_for_schedules@, final(self).activated_liquidity_for_schedules@, user, liquidity_asset_id, reward, v),
            *final(self) == (PosPallet { activated_liquidity_for_schedules: final(self).activated_liquidity_for_schedules, ..*old(self) }),
    {
        let ghost m0 = self.activated_liquidity_for_schedules@;
        let mut outer = match self.activated_liquidity_for_schedules.remove(&user) {
            Some(o) => o,
            None => BTreeMap::new(),
        };
        let ghost o0 = outer@;
        let mut inner = match outer.remove(&liquidity_asset_id) {
            Some(i) => i,
            None => BTreeMap::new(),
        };
        let ghost i0 = inner@;
        match v {
            Some(x) => {
                inner.insert(reward, x);
            },
            None => {
                inner.remove(&reward);
            },
        }
        outer.insert(liquidity_asset_id, inner);
        self.activated_liquidity_for_schedules.insert(user, outer);
        proof {
            let m1 = self.activated_liquidity_for_schedules@;
            assert forall|l: CurrencyId| l != liquidity_asset_id implies (#[trigger] amount3(m1, user, l, reward)
                == amount3(m0, user, l, reward)) && rewards3(m1, user, l) == rewards3(m0, user, l) by {
                if m0.contains_key(user) && m0[user]@.contains_key(l) {
                    assert(m1[user]@[l] == m0[user]@[l]);
                }
            }
            assert forall|w: CurrencyId| w != reward implies #[trigger] amount3(m1, user, liquidity_asset_id, w)
                == amount3(m0, user, liquidity_asset_id, w) by {
            }
            if m0.contains_key(user) && m0[user]@.contains_key(liquidity_asset_id) {
                assert(i0 == m0[user]@[liquidity_asset_id]@);
            } else {
                assert(i0 == Map::<CurrencyId, Balance>::empty());
            }
            match v {
                Some(x) => {
                    assert(rewards3(m1, user, liquidity_asset_id) =~= rewards3(m0, user, liquidity_asset_id).insert(reward));
                },
                None => {
                    assert(rewards3(m1, user, liquidity_asset_id) =~= rewards3(m0, user, liquidity_asset_id).remove(reward));
                },
            }
        }
    }


    /// The session of block `block`, zero when it is not defined.
    pub open spec fn session_of(&self, block: u64) -> u32 {
        match spec_rewards_time(block, self.config.rewards_distribution_period) {
            Some(t) => t,
            None => 0,
        }
    }

    /// Records a checkpoint of `user`'s scheduled rewards of `reward` for
    /// `liquidity_asset_id` with `liquidity_assets_added` more activated.
    pub fn set_liquidity_minting_checkpoint_3rdparty(
        &mut self,
        user: AccountId,
        liquidity_asset_id: CurrencyId,
        liquidity_assets_added: Balance,
        reward: CurrencyId,
        block: u64,
    ) -> (r: Result<(), PosError>)
        requires
            ({
                let k = spec_pair_key(liquidity_asset_id, reward);
                let t = old(self).session_of(block);
                &&& old(self).pair_readable(k, t)
                &&& get_or(old(self).total_activated_liquidity_for_schedules@, k, no_activation()).can_update(
                    t, liquidity_assets_added, crate::schedule_rewards::LiquidityModification::Increase)
                &&& amount3(old(self).activated_liquidity_for_schedules@, user, liquidity_asset_id, reward)
                    + liquidity_assets_added <= u128::MAX
            }),
        ensures
            old(self).minting_3rdparty_error(user, liquidity_asset_id, liquidity_assets_added, reward, block) matches Some(e)
                ==> r == Err::<(), PosError>(e) && final(self).same_as(*old(self)),
            old(self).minting_3rdparty_error(user, liquidity_asset_id, liquidity_assets_added, reward, block) is None
                ==> r == Ok::<(), PosError>(()) && minted_3rdparty(*old(self), *final(self), user, liquidity_asset_id, liquidity_assets_added, reward, block)
                && final(self).activated_locked_liquidity_for_schedules@ == old(self).activated_locked_liquidity_for_schedules@
                && final(self).activated_native_rewards_liq@ == old(self).activated_native_rewards_liq@,
    {
        if let Err(e) = self.ensure_3rdparty_rewards_enabled(liquidity_asset_id) {
            return Err(e);
        }
        let calc = match self.schedule_rewards(user, liquidity_asset_id, reward, block) {
            Ok(c) => c,
            Err(e) => {
                return Err(e);
            },
        };
        let info = match calc.activate_more(liquidity_assets_added) {
            Ok(i) => i,
            Err(_) => {
                return Err(PosError::LiquidityCheckpointMathError);
            },
        };
        let session = self.session_index(block);
        let k = pair_key(liquidity_asset_id, reward);
        let ghost s0 = *self;
        self.update_cumulative_rewards(liquidity_asset_id, reward, session);
        let ghost s1 = *self;
        let mut inner = match self.rewards_info_for_schedule_rewards.remove(&user) {
            Some(m) => m,
            None => BTreeMap::new(),
        };
        inner.insert(k, info);
        self.rewards_info_for_schedule_rewards.insert(user, inner);
        proof {
            assert(self.rewards_info_for_schedule_rewards@ =~= s0.rewards_info_for_schedule_rewards@.insert(user, self.rewards_info_for_schedule_rewards@[user]));
            if s0.rewards_info_for_schedule_rewards@.contains_key(user) {
                assert(self.rewards_info_for_schedule_rewards@[user]@ =~= s0.rewards_info_for_schedule_rewards@[user]@.insert(k, info));
            } else {
                assert(self.rewards_info_for_schedule_rewards@[user]@ =~= Map::<u64, RewardInfo>::empty().insert(k, info));
            }
        }
        let prev = self.activation_of(user, liquidity_asset_id, reward);
        let newv = match prev {
            Some(x) => x + liquidity_assets_added,
            None => liquidity_assets_added,
        };
        self.set_activation(user, liquidity_asset_id, reward, Some(newv));
        let mut activated = match self.total_activated_liquidity_for_schedules.get(&k) {
            Some(a) => *a,
            None => ActivatedLiquidityPerSchedule::default(),
        };
        activated.update(session, liquidity_assets_added, crate::schedule_rewards::LiquidityModification::Increase);
        self.total_activated_liquidity_for_schedules.insert(k, activated);
        Ok(())
    }


    /// The activated amount of `user`'s checkpoint for the pair (`liq`,
    /// `reward`), zero when there is none.
    pub open spec fn sched_activated(&self, user: AccountId, liq: CurrencyId, reward: CurrencyId) -> int {
        let k = spec_pair_key(liq, reward);
        if self.rewards_info_for_schedule_rewards@.contains_key(user)
            && self.rewards_info_for_schedule_rewards@[user]@.contains_key(k) {
            self.rewards_info_for_schedule_rewards@[user]@[k].activated_amount as int
        } else {
            0
        }
    }

    /// The activated amount of `user`'s native checkpoint for `liq`, zero
    /// when there is none.
    pub open spec fn native_activated(&self, user: AccountId, liq: CurrencyId) -> int {
        if self.rewards_info@.contains_key(user) && self.rewards_info@[user]@.contains_key(liq) {
            self.rewards_info@[user]@[liq].activated_amount as int
        } else {
            0
        }
    }

    fn sched_activated_exec(&self, user: AccountId, liq: CurrencyId, reward: CurrencyId) -> (r: Balance)
        ensures
            r == self.sched_activated(user, liq, reward),
    {
        let k = pair_key(liq, reward);
        match self.rewards_info_for_schedule_rewards.get(&user) {
            Some(m) => match m.get(&k) {
                Some(i) => i.activated_amount,
                None => 0,
            },
            None => 0,
        }
    }

    fn native_activated_exec(&self, user: AccountId, liq: CurrencyId) -> (r: Balance)
        ensures
            r == self.native_activated(user, liq),
    {
        match self.rewards_info.get(&user) {
            Some(m) => match m.get(&liq) {
                Some(i) => i.activated_amount,
                None => 0,
            },
            None => 0,
        }
    }

    /// The error that the source of the liquidity makes an activation of
    /// `amount` fail with, if any: reserves the runtime cannot activate from
    /// (`can_activate`), or too little liquidity already activated for the
    /// other reward token or for native rewards.
    pub open spec fn activation_source_error(&self, user: AccountId, liq: CurrencyId, amount: Balance, kind: ThirdPartyActivationKind, reward: CurrencyId, can_activate: bool) -> Option<PosError> {
        match kind {
            ThirdPartyActivationKind::ActivateKind(_) => if !can_activate {
                Some(PosError::NotEnoughAssets)
            } else {
                None
            },
            ThirdPartyActivationKind::ActivatedLiquidity(token_id) => if self.sched_activated(user, liq, reward) + amount
                > self.sched_activated(user, liq, token_id) {
                Some(PosError::NotEnoughAssets)
            } else {
                None
            },
            ThirdPartyActivationKind::NativeRewardsLiquidity => if self.sched_activated(user, liq, reward) + amount
                > self.native_activated(user, liq) {
                Some(PosError::NotEnoughAssets)
            } else {
                None
            },
        }
    }

    /// `user` activates `amount` of `liquidity_asset_id` for the scheduled
    /// rewards of `reward`, from the source `use_balance_from` says:
    /// reserves (which the runtime is to activate; `can_activate` is whether
    /// it can), liquidity already activated for another reward token, or
    /// liquidity activated for native rewards.
    pub fn activate_liquidity_for_3rdparty_rewards_impl(
        &mut self,
        user: AccountId,
        liquidity_asset_id: CurrencyId,
        amount: Balance,
        use_balance_from: ThirdPartyActivationKind,
        reward_token: CurrencyId,
        block: u64,
        can_activate: bool,
    ) -> (r: Result<(PosEvent, Option<PosCall>), PosError>)
        requires
            ({
                let k = spec_pair_key(liquidity_asset_id, reward_token);
                let t = old(self).session_of(block);
                &&& old(self).pair_readable(k, t)
                &&& get_or(old(self).total_activated_liquidity_for_schedules@, k, no_activation()).can_update(
                    t, amount, crate::schedule_rewards::LiquidityModification::Increase)
                &&& amount3(old(self).activated_liquidity_for_schedules@, user, liquidity_asset_id, reward_token) + amount <= u128::MAX
                &&& old(self).sched_activated(user, liquidity_asset_id, reward_token) + amount <= u128::MAX
                &&& amount2(old(self).activated_locked_liquidity_for_schedules@, user, liquidity_asset_id) + amount <= u128::MAX
                &&& amount2(old(self).activated_native_rewards_liq@, user, liquidity_asset_id) + amount <= u128::MAX
            }),
        ensures
            ({
                let source = old(self).activation_source_error(user, liquidity_asset_id, amount, use_balance_from, reward_token, can_activate);
                let minting = old(self).minting_3rdparty_error(user, liquidity_asset_id, amount, reward_token, block);
                if !old(self).spec_3rdparty_enabled(liquidity_asset_id) {
                    r == Err::<(PosEvent, Option<PosCall>), PosError>(PosError::NotAPromotedPool) && final(self).same_as(*old(self))
                } else if source is Some {
                    r == Err::<(PosEvent, Option<PosCall>), PosError>(source->0) && final(self).same_as(*old(self))
                } else if minting is Some {
                    r == Err::<(PosEvent, Option<PosCall>), PosError>(minting->0) && final(self).same_as(*old(self))
                } else {
                    &&& minted_3rdparty(*old(self), *final(self), user, liquidity_asset_id, amount, reward_token, block)
                    &&& match use_balance_from {
                        ThirdPartyActivationKind::ActivateKind(ubf) => {
                            &&& r == Ok::<(PosEvent, Option<PosCall>), PosError>((
                                PosEvent::LiquidityActivated(user, liquidity_asset_id, amount),
                                Some(PosCall::Activate { token: liquidity_asset_id, account: user, amount, use_balance_from: ubf }),
                            ))
                            &&& nested_set32(old(self).activated_locked_liquidity_for_schedules@, final(self).activated_locked_liquidity_for_schedules@,
                                user, liquidity_asset_id, (amount2(old(self).activated_locked_liquidity_for_schedules@, user, liquidity_asset_id) + amount) as u128)
                            &&& final(self).activated_native_rewards_liq@ == old(self).activated_native_rewards_liq@
                        },
                        ThirdPartyActivationKind::ActivatedLiquidity(_) => {
                            &&& r == Ok::<(PosEvent, Option<PosCall>), PosError>((PosEvent::LiquidityActivated(user, liquidity_asset_id, amount), None))
                            &&& final(self).activated_locked_liquidity_for_schedules@ == old(self).activated_locked_liquidity_for_schedules@
                            &&& final(self).activated_native_rewards_liq@ == old(self).activated_native_rewards_liq@
                        },
                        ThirdPartyActivationKind::NativeRewardsLiquidity => {
                            &&& r == Ok::<(PosEvent, Option<PosCall>), PosError>((PosEvent::LiquidityActivated(user, liquidity_asset_id, amount), None))
                            &&& final(self).activated_locked_liquidity_for_schedules@ == old(self).activated_locked_liquidity_for_schedules@
                            &&& nested_set32(old(self).activated_native_rewards_liq@, final(self).activated_native_rewards_liq@,
                                user, liquidity_asset_id, (amount2(old(self).activated_native_rewards_liq@, user, liquidity_asset_id) + amount) as u128)
                        },
                    }
                }
            }),
    {
        if let Err(e) = self.ensure_3rdparty_rewards_enabled(liquidity_asset_id) {
            return Err(e);
        }
        match use_balance_from {
            ThirdPartyActivationKind::ActivateKind(_) => {
                if !can_activate {
                    return Err(PosError::NotEnoughAssets);
                }
            },
            ThirdPartyActivationKind::ActivatedLiquidity(token_id) => {
                let already = self.sched_activated_exec(user, liquidity_asset_id, reward_token);
                let available = self.sched_activated_exec(user, liquidity_asset_id, token_id);
                if already + amount > available {
                    return Err(PosError::NotEnoughAssets);
                }
            },
            ThirdPartyActivationKind::NativeRewardsLiquidity => {
                let already = self.sched_activated_exec(user, liquidity_asset_id, reward_token);
                let available = self.native_activated_exec(user, liquidity_asset_id);
                if already + amount > available {
                    return Err(PosError::NotEnoughAssets);
                }
            },
        }
        if let Err(e) = self.set_liquidity_minting_checkpoint_3rdparty(user, liquidity_asset_id, amount, reward_token, block) {
            return Err(e);
        }
        let call = match use_balance_from {
            ThirdPartyActivationKind::ActivateKind(ubf) => {
                let before = get_nested32(&self.activated_locked_liquidity_for_schedules, user, liquidity_asset_id);
                set_nested32(&mut self.activated_locked_liquidity_for_schedules, user, liquidity_asset_id, before + amount);
                Some(PosCall::Activate { token: liquidity_asset_id, account: user, amount, use_balance_from: ubf })
            },
            ThirdPartyActivationKind::ActivatedLiquidity(_) => None,
            ThirdPartyActivationKind::NativeRewardsLiquidity => {
                let before = get_nested32(&self.activated_native_rewards_liq, user, liquidity_asset_id);
                set_nested32(&mut self.activated_native_rewards_liq, user, liquidity_asset_id, before + amount);
                None
            },
        };
        Ok((PosEvent::LiquidityActivated(user, liquidity_asset_id, amount), call))
    }


    /// Whether `user` has liquidity activated for `liq` under some reward token.
    fn has_activations(&self, user: AccountId, liq: CurrencyId) -> (r: bool)
        ensures
            r == !rewards3(self.activated_liquidity_for_schedules@, user, liq).is_empty(),
    {
        match self.activated_liquidity_for_schedules.get(&user) {
            Some(outer) => match outer.get(&liq) {
                Some(inner) => {
                    let e = inner.is_empty();
                    proof {
                        if !e {
                            assert(!(inner@.dom() =~= Set::<CurrencyId>::empty()));
                        }
                    }
                    !e
                },
                None => false,
            },
            None => false,
        }
    }

    /// Records a checkpoint of `user`'s scheduled rewards of `reward` for
    /// `liquidity_asset_id` with `liquidity_assets_burned` less activated.
    #[verifier::spinoff_prover]
    pub fn set_liquidity_burning_checkpoint_for_schedule(
        &mut self,
        user: AccountId,
        liquidity_asset_id: CurrencyId,
        liquidity_assets_burned: Balance,
        reward_token: CurrencyId,
        block: u64,
    ) -> (r: Result<Option<PosCall>, PosError>)
        requires
            ({
                let k = spec_pair_key(liquidity_asset_id, reward_token);
                let t = old(self).session_of(block);
                &&& old(self).pair_readable(k, t)
                &&& get_or(old(self).total_activated_liquidity_for_schedules@, k, no_activation()).can_update(
                    t, liquidity_assets_burned, crate::schedule_rewards::LiquidityModification::Decrease)
            }),
        ensures
            old(self).burning_3rdparty_error(user, liquidity_asset_id, liquidity_assets_burned, reward_token, block) matches Some(e)
                ==> r == Err::<Option<PosCall>, PosError>(e) && final(self).same_as(*old(self)),
            old(self).burning_3rdparty_error(user, liquidity_asset_id, liquidity_assets_burned, reward_token, block) is None
                ==> (r matches Ok(call) && burned_3rdparty(*old(self), *final(self), user, liquidity_asset_id, liquidity_assets_burned, reward_token, block, call)),
    {
        if let Err(e) = self.ensure_3rdparty_rewards_enabled(liquidity_asset_id) {
            return Err(e);
        }
        let calc = match self.schedule_rewards(user, liquidity_asset_id, reward_token, block) {
            Ok(c) => c,
            Err(e) => {
                return Err(e);
            },
        };
        proof {
            lemma_mul_zero(calc.rewards_info.activated_amount as int - liquidity_assets_burned as int);
        }
        let info = match calc.activate_less(liquidity_assets_burned) {
            Ok(i) => i,
            Err(_) => {
                return Err(PosError::LiquidityCheckpointMathError);
            },
        };
        let current = match self.activation_of(user, liquidity_asset_id, reward_token) {
            Some(a) => a,
            None => {
                return Err(PosError::MathOverflow);
            },
        };
        if current < liquidity_assets_burned {
            return Err(PosError::MathOverflow);
        }
        proof {
            assert(info.missing_at_last_checkpoint.value() == 0) by {
                lemma_mul_zero(calc.rewards_info.activated_amount as int - liquidity_assets_burned as int);
            }
        }
        let session = self.session_index(block);
        let k = pair_key(liquidity_asset_id, reward_token);
        let ghost s0 = *self;
        self.update_cumulative_rewards(liquidity_asset_id, reward_token, session);
        let mut inner = match self.rewards_info_for_schedule_rewards.remove(&user) {
            Some(m) => m,
            None => BTreeMap::new(),
        };
        inner.insert(k, info);
        self.rewards_info_for_schedule_rewards.insert(user, inner);
        proof {
            assert(self.rewards_info_for_schedule_rewards@ =~= s0.rewards_info_for_schedule_rewards@.insert(user, self.rewards_info_for_schedule_rewards@[user]));
            if s0.rewards_info_for_schedule_rewards@.contains_key(user) {
                assert(self.rewards_info_for_schedule_rewards@[user]@ =~= s0.rewards_info_for_schedule_rewards@[user]@.insert(k, info));
            } else {
                assert(self.rewards_info_for_schedule_rewards@[user]@ =~= Map::<u64, RewardInfo>::empty().insert(k, info));
            }
        }
        let mut activated = match self.total_activated_liquidity_for_schedules.get(&k) {
            Some(a) => *a,
            None => ActivatedLiquidityPerSchedule::default(),
        };
        activated.update(session, liquidity_assets_burned, crate::schedule_rewards::LiquidityModification::Decrease);
        self.total_activated_liquidity_for_schedules.insert(k, activated);
        let left = current - liquidity_assets_burned;
        if left > 0 {
            self.set_activation(user, liquidity_asset_id, reward_token, Some(left));
        } else {
            self.set_activation(user, liquidity_asset_id, reward_token, None);
        }
        if !self.has_activations(user, liquidity_asset_id) {
            let amount = get_nested32(&self.activated_locked_liquidity_for_schedules, user, liquidity_asset_id);
            set_nested32(&mut self.activated_locked_liquidity_for_schedules, user, liquidity_asset_id, 0);
            set_nested32(&mut self.activated_native_rewards_liq, user, liquidity_asset_id, 0);
            Ok(Some(PosCall::Deactivate { token: liquidity_asset_id, account: user, amount }))
        } else {
            Ok(None)
        }
    }

    /// `user` deactivates `amount` of `liquidity_asset_id` from the scheduled
    /// rewards of `rewards_asset_id`; nothing happens for a zero amount.
    pub fn deactivate_liquidity_for_3rdparty_rewards_impl(
        &mut self,
        user: AccountId,
        liquidity_asset_id: CurrencyId,
        amount: Balance,
        rewards_asset_id: CurrencyId,
        block: u64,
    ) -> (r: Result<(Option<PosEvent>, Option<PosCall>), PosError>)
        requires
            ({
                let k = spec_pair_key(liquidity_asset_id, rewards_asset_id);
                let t = old(self).session_of(block);
                &&& old(self).pair_readable(k, t)
                &&& get_or(old(self).total_activated_liquidity_for_schedules@, k, no_activation()).can_update(
                    t, amount, crate::schedule_rewards::LiquidityModification::Decrease)
            }),
        ensures
            amount == 0 ==> r == Ok::<(Option<PosEvent>, Option<PosCall>), PosError>((None, None)) && final(self).same_as(*old(self)),
            amount > 0 && old(self).burning_3rdparty_error(user, liquidity_asset_id, amount, rewards_asset_id, block) is Some
                ==> r == Err::<(Option<PosEvent>, Option<PosCall>), PosError>(
                old(self).burning_3rdparty_error(user, liquidity_asset_id, amount, rewards_asset_id, block)->0,
            ) && final(self).same_as(*old(self)),
            amount > 0 && old(self).burning_3rdparty_error(user, liquidity_asset_id, amount, rewards_asset_id, block) is None
                ==> (r matches Ok((ev, call)) && ev == Some(PosEvent::LiquidityDeactivated(user, liquidity_asset_id, amount))
                && burned_3rdparty(*old(self), *final(self), user, liquidity_asset_id, amount, rewards_asset_id, block, call)),
    {
        if amount > 0 {
            match self.set_liquidity_burning_checkpoint_for_schedule(user, liquidity_asset_id, amount, rewards_asset_id, block) {
                Ok(call) => Ok((Some(PosEvent::LiquidityDeactivated(user, liquidity_asset_id, amount)), call)),
                Err(e) => Err(e),
            }
        } else {
            Ok((None, None))
        }
    }


    /// The scheduled rewards of `reward` that `user` could claim for
    /// `liquidity_asset_id` at block `block`.
    pub fn calculate_3rdparty_rewards_amount(&self, user: AccountId, liquidity_asset_id: CurrencyId, rewards_asset_id: CurrencyId, block: u64) -> (r: Result<Balance, PosError>)
        requires
            self.pair_readable(spec_pair_key(liquidity_asset_id, rewards_asset_id), self.session_of(block)),
        ensures
            match self.spec_3rdparty_rewards_amount(user, liquidity_asset_id, rewards_asset_id, block) {
                Ok(a) => r == Ok::<Balance, PosError>(a as u128),
                Err(e) => r == Err::<Balance, PosError>(e),
            },
    {
        if let Err(e) = self.ensure_3rdparty_rewards_enabled(liquidity_asset_id) {
            return Err(e);
        }
        let k = pair_key(liquidity_asset_id, rewards_asset_id);
        let info = match self.rewards_info_for_schedule_rewards.get(&user) {
            Some(m) => match m.get(&k) {
                Some(i) => *i,
                None => {
                    return Ok(0);
                },
            },
            None => {
                return Ok(0);
            },
        };
        let current = if info.activated_amount == 0 {
            0
        } else {
            let calc = match self.schedule_rewards(user, liquidity_asset_id, rewards_asset_id, block) {
                Ok(c) => c,
                Err(e) => {
                    return Err(e);
                },
            };
            match calc.calculate_rewards() {
                Ok(v) => v,
                Err(_) => {
                    return Err(PosError::LiquidityCheckpointMathError);
                },
            }
        };
        match current.checked_add(info.rewards_not_yet_claimed) {
            Some(v) => match v.checked_sub(info.rewards_already_claimed) {
                Some(w) => Ok(w),
                None => Err(PosError::CalculateRewardsMathError),
            },
            None => Err(PosError::CalculateRewardsMathError),
        }
    }

    /// `user` claims its scheduled rewards of `reward_token` for
    /// `liquidity_asset_id`: the runtime is to pay them from the pallet's
    /// account, and the checkpoint keeps nothing unclaimed.
    pub fn claim_schedule_rewards_all_impl(&mut self, user: AccountId, liquidity_asset_id: CurrencyId, reward_token: CurrencyId, block: u64) -> (r: Result<(Balance, PosEvent, PosCall), PosError>)
        requires
            old(self).pair_readable(spec_pair_key(liquidity_asset_id, reward_token), old(self).session_of(block)),
        ensures
            old(self).claim_3rdparty_error(user, liquidity_asset_id, reward_token, block) matches Some(e)
                ==> r == Err::<(Balance, PosEvent, PosCall), PosError>(e) && final(self).same_as(*old(self)),
            old(self).claim_3rdparty_error(user, liquidity_asset_id, reward_token, block) is None ==> ({
                let k = spec_pair_key(liquidity_asset_id, reward_token);
                let time = old(self).session_of(block);
                let ratio = old(self).spec_rewards_ratio(k, time);
                let total = sched_available(old(self).sched_view(user, k, time, ratio), ratio)->0 as u128;
                &&& r == Ok::<(Balance, PosEvent, PosCall), PosError>((
                    total,
                    PosEvent::ThirdPartyRewardsClaimed(user, liquidity_asset_id, reward_token, total),
                    PosCall::TransferFromPallet { token: reward_token, to: user, amount: total },
                ))
                &&& claimed_3rdparty(*old(self), *final(self), user, liquidity_asset_id, reward_token, block)
            }),
    {
        if let Err(e) = self.ensure_3rdparty_rewards_enabled(liquidity_asset_id) {
            return Err(e);
        }
        let calc = match self.schedule_rewards(user, liquidity_asset_id, reward_token, block) {
            Ok(c) => c,
            Err(e) => {
                return Err(e);
            },
        };
        let (info, total) = match calc.claim_rewards() {
            Ok(x) => x,
            Err(_) => {
                return Err(PosError::LiquidityCheckpointMathError);
            },
        };
        if total == 0 {
            return Err(PosError::NoThirdPartyPartyRewardsToClaim);
        }
        let k = pair_key(liquidity_asset_id, reward_token);
        let ghost s0 = *self;
        let mut inner = match self.rewards_info_for_schedule_rewards.remove(&user) {
            Some(m) => m,
            None => BTreeMap::new(),
        };
        inner.insert(k, info);
        self.rewards_info_for_schedule_rewards.insert(user, inner);
        proof {
            assert(self.rewards_info_for_schedule_rewards@ =~= s0.rewards_info_for_schedule_rewards@.insert(user, self.rewards_info_for_schedule_rewards@[user]));
            if s0.rewards_info_for_schedule_rewards@.contains_key(user) {
                assert(self.rewards_info_for_schedule_rewards@[user]@ =~= s0.rewards_info_for_schedule_rewards@[user]@.insert(k, info));
            } else {
                assert(self.rewards_info_for_schedule_rewards@[user]@ =~= Map::<u64, RewardInfo>::empty().insert(k, info));
            }
        }
        Ok((
            total,
            PosEvent::ThirdPartyRewardsClaimed(user, liquidity_asset_id, reward_token, total),
            PosCall::TransferFromPallet { token: reward_token, to: user, amount: total },
        ))
    }


    /// Fails with `NotAPromotedPool` unless `liquidity_asset_id` is promoted
    /// for native rewards.
    pub fn ensure_native_rewards_enabled(&self, liquidity_asset_id: CurrencyId) -> (r: Result<(), PosError>)
        ensures
            r == (if self.spec_native_enabled(liquidity_asset_id) {
                Ok::<(), PosError>(())
            } else {
                Err::<(), PosError>(PosError::NotAPromotedPool)
            }),
    {
        if self.promoted_pool_rewards.contains_key(&liquidity_asset_id) {
            Ok(())
        } else {
            Err(PosError::NotAPromotedPool)
        }
    }

    /// The calculator of `user`'s native rewards for `liquidity_asset_id` at
    /// block `block` on `curve` (which carries the powers of the curve for the
    /// sessions since the checkpoint).
    pub fn mining_rewards(&self, user: AccountId, liquidity_asset_id: CurrencyId, block: u64, curve: AsymptoticCurveRewards) -> (r: Result<RewardsCalculator<AsymptoticCurveRewards>, PosError>)
        ensures
            spec_rewards_time(block, self.config.rewards_distribution_period) is None
                ==> r == Err::<RewardsCalculator<AsymptoticCurveRewards>, PosError>(PosError::CalculateRewardsMathError),
            spec_rewards_time(block, self.config.rewards_distribution_period) is Some && !self.spec_native_enabled(liquidity_asset_id)
                ==> r == Err::<RewardsCalculator<AsymptoticCurveRewards>, PosError>(PosError::NotAPromotedPool),
            spec_rewards_time(block, self.config.rewards_distribution_period) is Some && self.spec_native_enabled(liquidity_asset_id)
                ==> r == Ok::<RewardsCalculator<AsymptoticCurveRewards>, PosError>(self.native_calc(user, liquidity_asset_id,
                spec_rewards_time(block, self.config.rewards_distribution_period)->0, curve)),
    {
        let current_time = match self.get_current_rewards_time(block) {
            Ok(t) => t,
            Err(e) => {
                return Err(e);
            },
        };
        let ratio = match self.promoted_pool_rewards.get(&liquidity_asset_id) {
            Some(p) => p.rewards,
            None => {
                return Err(PosError::NotAPromotedPool);
            },
        };
        let fresh = RewardInfo {
            activated_amount: 0,
            rewards_not_yet_claimed: 0,
            rewards_already_claimed: 0,
            last_checkpoint: current_time,
            pool_ratio_at_last_checkpoint: ratio,
            missing_at_last_checkpoint: U256 { limbs: [0u64, 0u64, 0u64, 0u64] },
        };
        let info = match self.rewards_info.get(&user) {
            Some(m) => match m.get(&liquidity_asset_id) {
                Some(i) => *i,
                None => fresh,
            },
            None => fresh,
        };
        Ok(RewardsCalculator::new(RewardsContext { current_time, pool_ratio_current: ratio }, info, curve))
    }

    /// Stores `info` as `user`'s native checkpoint for `liq`.
    fn put_native_info(&mut self, user: AccountId, liq: CurrencyId, info: RewardInfo)
        ensures
            native_info_set(*old(self), *final(self), user, liq, |n: RewardInfo| n == info),
            *final(self) == (PosPallet { rewards_info: final(self).rewards_info, ..*old(self) }),
    {
        let ghost s0 = *self;
        let mut inner = match self.rewards_info.remove(&user) {
            Some(m) => m,
            None => BTreeMap::new(),
        };
        inner.insert(liq, info);
        self.rewards_info.insert(user, inner);
        proof {
            assert(self.rewards_info@ =~= s0.rewards_info@.insert(user, self.rewards_info@[user]));
            if s0.rewards_info@.contains_key(user) {
                assert(self.rewards_info@[user]@ =~= s0.rewards_info@[user]@.insert(liq, info));
            } else {
                assert(self.rewards_info@[user]@ =~= Map::<CurrencyId, RewardInfo>::empty().insert(liq, info));
            }
        }
    }

    /// Records a native checkpoint of `user` for `liquidity_asset_id` with
    /// `liquidity_assets_added` more activated.
    pub fn set_liquidity_minting_checkpoint(&mut self, user: AccountId, liquidity_asset_id: CurrencyId, liquidity_assets_added: Balance, block: u64, curve: AsymptoticCurveRewards) -> (r: Result<(), PosError>)
        requires
            old(self).native_calc_defined(user, liquidity_asset_id, block, curve),
        ensures
            old(self).native_minting_error(user, liquidity_asset_id, liquidity_assets_added, block, curve) matches Some(e)
                ==> r == Err::<(), PosError>(e) && final(self).same_as(*old(self)),
            old(self).native_minting_error(user, liquidity_asset_id, liquidity_assets_added, block, curve) is None
                ==> r == Ok::<(), PosError>(()) && minted_native(*old(self), *final(self), user, liquidity_asset_id, liquidity_assets_added, block, curve),
    {
        if let Err(e) = self.ensure_native_rewards_enabled(liquidity_asset_id) {
            return Err(e);
        }
        let calc = match self.mining_rewards(user, liquidity_asset_id, block, curve) {
            Ok(c) => c,
            Err(e) => {
                return Err(e);
            },
        };
        let info = match calc.activate_more(liquidity_assets_added) {
            Ok(i) => i,
            Err(_) => {
                return Err(PosError::LiquidityCheckpointMathError);
            },
        };
        let before = match self.total_activated_liquidity.get(&liquidity_asset_id) {
            Some(v) => *v,
            None => 0,
        };
        let after = match before.checked_add(liquidity_assets_added) {
            Some(v) => v,
            None => {
                return Err(PosError::LiquidityCheckpointMathError);
            },
        };
        self.put_native_info(user, liquidity_asset_id, info);
        self.total_activated_liquidity.insert(liquidity_asset_id, after);
        Ok(())
    }

    /// `user` activates `amount` of `liquidity_asset_id` for native rewards,
    /// from reserves the runtime is to activate (`can_activate` is whether it
    /// can).
    pub fn activate_liquidity_for_native_rewards_impl(
        &mut self,
        user: AccountId,
        liquidity_asset_id: CurrencyId,
        amount: Balance,
        use_balance_from: Option<ActivateKind>,
        block: u64,
        curve: AsymptoticCurveRewards,
        can_activate: bool,
    ) -> (r: Result<(PosEvent, PosCall), PosError>)
        requires
            old(self).native_calc_defined(user, liquidity_asset_id, block, curve),
        ensures
            !old(self).spec_native_enabled(liquidity_asset_id) ==> r == Err::<(PosEvent, PosCall), PosError>(PosError::NotAPromotedPool)
                && final(self).same_as(*old(self)),
            old(self).spec_native_enabled(liquidity_asset_id) && !can_activate ==> r == Err::<(PosEvent, PosCall), PosError>(PosError::NotEnoughAssets)
                && final(self).same_as(*old(self)),
            old(self).spec_native_enabled(liquidity_asset_id) && can_activate
                && old(self).native_minting_error(user, liquidity_asset_id, amount, block, curve) is Some
                ==> r == Err::<(PosEvent, PosCall), PosError>(old(self).native_minting_error(user, liquidity_asset_id, amount, block, curve)->0)
                && final(self).same_as(*old(self)),
            old(self).spec_native_enabled(liquidity_asset_id) && can_activate
                && old(self).native_minting_error(user, liquidity_asset_id, amount, block, curve) is None ==> {
                &&& r == Ok::<(PosEvent, PosCall), PosError>((
                    PosEvent::LiquidityActivated(user, liquidity_asset_id, amount),
                    PosCall::Activate { token: liquidity_asset_id, account: user, amount, use_balance_from },
                ))
                &&& minted_native(*old(self), *final(self), user, liquidity_asset_id, amount, block, curve)
            },
    {
        if let Err(e) = self.ensure_native_rewards_enabled(liquidity_asset_id) {
            return Err(e);
        }
        if !can_activate {
            return Err(PosError::NotEnoughAssets);
        }
        if let Err(e) = self.set_liquidity_minting_checkpoint(user, liquidity_asset_id, amount, block, curve) {
            return Err(e);
        }
        Ok((
            PosEvent::LiquidityActivated(user, liquidity_asset_id, amount),
            PosCall::Activate { token: liquidity_asset_id, account: user, amount, use_balance_from },
        ))
    }

    /// Records a native checkpoint of `user` for `liquidity_asset_id` with
    /// `liquidity_assets_burned` less activated; the runtime is to deactivate
    /// that much of `user`'s liquidity.
    pub fn set_liquidity_burning_checkpoint(&mut self, user: AccountId, liquidity_asset_id: CurrencyId, liquidity_assets_burned: Balance, block: u64, curve: AsymptoticCurveRewards) -> (r: Result<PosCall, PosError>)
        requires
            old(self).native_calc_defined(user, liquidity_asset_id, block, curve),
        ensures
            old(self).native_burning_error(user, liquidity_asset_id, liquidity_assets_burned, block, curve) matches Some(e)
                ==> r == Err::<PosCall, PosError>(e) && final(self).same_as(*old(self)),
            old(self).native_burning_error(user, liquidity_asset_id, liquidity_assets_burned, block, curve) is None
                ==> r == Ok::<PosCall, PosError>(PosCall::Deactivate { token: liquidity_asset_id, account: user, amount: liquidity_assets_burned })
                && burned_native(*old(self), *final(self), user, liquidity_asset_id, liquidity_assets_burned, block, curve),
    {
        if let Err(e) = self.ensure_native_rewards_enabled(liquidity_asset_id) {
            return Err(e);
        }
        let stored = match self.rewards_info.get(&user) {
            Some(m) => match m.get(&liquidity_asset_id) {
                Some(i) => *i,
                None => {
                    return Err(PosError::MissingRewardsInfoError);
                },
            },
            None => {
                return Err(PosError::MissingRewardsInfoError);
            },
        };
        if stored.activated_amount < liquidity_assets_burned {
            return Err(PosError::NotEnoughAssets);
        }
        let locked = get_nested32(&self.activated_native_rewards_liq, user, liquidity_asset_id);
        let unlocked = match stored.activated_amount.checked_sub(locked) {
            Some(v) => v,
            None => {
                return Err(PosError::MathOverflow);
            },
        };
        if unlocked < liquidity_assets_burned {
            return Err(PosError::LiquidityLockedIn3rdpartyRewards);
        }
        let calc = match self.mining_rewards(user, liquidity_asset_id, block, curve) {
            Ok(c) => c,
            Err(e) => {
                return Err(e);
            },
        };
        let info = match calc.activate_less(liquidity_assets_burned) {
            Ok(i) => i,
            Err(_) => {
                return Err(PosError::LiquidityCheckpointMathError);
            },
        };
        let before = match self.total_activated_liquidity.get(&liquidity_asset_id) {
            Some(v) => *v,
            None => 0,
        };
        let after = match before.checked_sub(liquidity_assets_burned) {
            Some(v) => v,
            None => {
                return Err(PosError::LiquidityCheckpointMathError);
            },
        };
        self.put_native_info(user, liquidity_asset_id, info);
        self.total_activated_liquidity.insert(liquidity_asset_id, after);
        Ok(PosCall::Deactivate { token: liquidity_asset_id, account: user, amount: liquidity_assets_burned })
    }

    /// `user` deactivates `amount` of `liquidity_asset_id` from native
    /// rewards; nothing happens for a zero amount.
    pub fn deactivate_liquidity_for_native_rewards_impl(&mut self, user: AccountId, liquidity_asset_id: CurrencyId, amount: Balance, block: u64, curve: AsymptoticCurveRewards) -> (r: Result<Option<(PosEvent, PosCall)>, PosError>)
        requires
            old(self).native_calc_defined(user, liquidity_asset_id, block, curve),
        ensures
            amount == 0 ==> r == Ok::<Option<(PosEvent, PosCall)>, PosError>(None) && final(self).same_as(*old(self)),
            amount > 0 && old(self).native_burning_error(user, liquidity_asset_id, amount, block, curve) is Some
                ==> r == Err::<Option<(PosEvent, PosCall)>, PosError>(old(self).native_burning_error(user, liquidity_asset_id, amount, block, curve)->0)
                && final(self).same_as(*old(self)),
            amount > 0 && old(self).native_burning_error(user, liquidity_asset_id, amount, block, curve) is None
                ==> r == Ok::<Option<(PosEvent, PosCall)>, PosError>(Some((
                    PosEvent::LiquidityDeactivated(user, liquidity_asset_id, amount),
                    PosCall::Deactivate { token: liquidity_asset_id, account: user, amount },
                ))) && burned_native(*old(self), *final(self), user, liquidity_asset_id, amount, block, curve),
    {
        if amount > 0 {
            match self.set_liquidity_burning_checkpoint(user, liquidity_asset_id, amount, block, curve) {
                Ok(call) => Ok(Some((PosEvent::LiquidityDeactivated(user, liquidity_asset_id, amount), call))),
                Err(e) => Err(e),
            }
        } else {
            Ok(None)
        }
    }

    /// The native rewards `user` could claim for `liquidity_asset_id` at
    /// block `block` on `curve`.
    pub fn calculate_native_rewards_amount(&self, user: AccountId, liquidity_asset_id: CurrencyId, block: u64, curve: AsymptoticCurveRewards) -> (r: Result<Balance, PosError>)
        requires
            self.native_calc_defined(user, liquidity_asset_id, block, curve),
        ensures
            match self.spec_native_rewards_amount(user, liquidity_asset_id, block, curve) {
                Ok(a) => r == Ok::<Balance, PosError>(a as u128),
                Err(e) => r == Err::<Balance, PosError>(e),
            },
    {
        if let Err(e) = self.ensure_native_rewards_enabled(liquidity_asset_id) {
            return Err(e);
        }
        let stored = match self.rewards_info.get(&user) {
            Some(m) => match m.get(&liquidity_asset_id) {
                Some(i) => *i,
                None => {
                    return Err(PosError::MissingRewardsInfoError);
                },
            },
            None => {
                return Err(PosError::MissingRewardsInfoError);
            },
        };
        let current = if stored.activated_amount == 0 {
            0
        } else {
            let calc = match self.mining_rewards(user, liquidity_asset_id, block, curve) {
                Ok(c) => c,
                Err(e) => {
                    return Err(e);
                },
            };
            match calc.calculate_rewards() {
                Ok(v) => v,
                Err(_) => {
                    return Err(PosError::LiquidityCheckpointMathError);
                },
            }
        };
        match current.checked_add(stored.rewards_not_yet_claimed) {
            Some(v) => match v.checked_sub(stored.rewards_already_claimed) {
                Some(w) => Ok(w),
                None => Err(PosError::CalculateRewardsMathError),
            },
            None => Err(PosError::CalculateRewardsMathError),
        }
    }

    /// `user` claims its native rewards for `liquidity_asset_id`: the runtime
    /// is to pay them from the liquidity mining vault, and the checkpoint keeps
    /// nothing unclaimed.
    pub fn claim_rewards_all(&mut self, user: AccountId, liquidity_asset_id: CurrencyId, block: u64, curve: AsymptoticCurveRewards) -> (r: Result<(Balance, PosEvent, PosCall), PosError>)
        requires
            old(self).native_calc_defined(user, liquidity_asset_id, block, curve),
        ensures
            old(self).native_claim_error(user, liquidity_asset_id, block, curve) matches Some(e)
                ==> r == Err::<(Balance, PosEvent, PosCall), PosError>(e) && final(self).same_as(*old(self)),
            old(self).native_claim_error(user, liquidity_asset_id, block, curve) is None ==> ({
                let total = old(self).native_calc(user, liquidity_asset_id, old(self).session_of(block), curve).available()->0 as u128;
                &&& r == Ok::<(Balance, PosEvent, PosCall), PosError>((
                    total,
                    PosEvent::RewardsClaimed(user, liquidity_asset_id, total),
                    PosCall::TransferFromVault { to: user, amount: total },
                ))
                &&& claimed_native(*old(self), *final(self), user, liquidity_asset_id, block, curve)
            }),
    {
        if let Err(e) = self.ensure_native_rewards_enabled(liquidity_asset_id) {
            return Err(e);
        }
        let calc = match self.mining_rewards(user, liquidity_asset_id, block, curve) {
            Ok(c) => c,
            Err(e) => {
                return Err(e);
            },
        };
        let (info, total) = match calc.claim_rewards() {
            Ok(x) => x,
            Err(_) => {
                return Err(PosError::LiquidityCheckpointMathError);
            },
        };
        self.put_native_info(user, liquidity_asset_id, info);
        Ok((total, PosEvent::RewardsClaimed(user, liquidity_asset_id, total), PosCall::TransferFromVault { to: user, amount: total }))
    }

    /// Pool `k`'s cumulative rewards per liquidity once its share of
    /// `amount` is added; `total` is the total weight when it fits a `u64`.
    #[verifier::rlimit(30)]
    fn new_pool_ratio(&self, k: CurrencyId, amount: Balance, total: Option<u64>) -> (r: Option<U256>)
        requires
            self.pool_counts(k),
            self.total_weight() >= 0,
            total == (if self.total_weight() <= u64::MAX {
                Some(self.total_weight() as u64)
            } else {
                None::<u64>
            }),
        ensures
            match r {
                Some(v) => self.pool_ratio_after(k, amount) == Some(v.value() as int),
                None => self.pool_ratio_after(k, amount) is None,
            },
    {
        let info = *self.promoted_pool_rewards.get(&k).unwrap();
        let activated = *self.total_activated_liquidity.get(&k).unwrap();
        let issuance: u128 = match total {
            Some(t) => {
                if t != 0 {
                    Perbill::from_rational(info.weight as u128, t as u128).mul_floor(amount)
                } else {
                    0
                }
            },
            None => 0,
        };
        proof {
            assert(issuance == self.pool_issuance(k, amount));
        }
        let scaled = match U256::from_u128(issuance).checked_mul(&U256::from_u128(u128::MAX)) {
            Some(v) => v,
            None => {
                return None;
            },
        };
        let per_liquidity = scaled.checked_div(&U256::from_u128(activated)).unwrap();
        per_liquidity.checked_add(&info.rewards)
    }

    /// Distributes `liquidity_mining_rewards` of native rewards between the
    /// promoted pools with activated liquidity, by weight: each one's share is
    /// added to its rewards per liquidity. When that overflows for any pool,
    /// nothing changes.
    pub fn distribute_rewards(&mut self, liquidity_mining_rewards: Balance)
        ensures
            old(self).distribution_fails(liquidity_mining_rewards) ==> final(self).same_as(*old(self)),
            !old(self).distribution_fails(liquidity_mining_rewards) ==> distributed(*old(self), *final(self), liquidity_mining_rewards),
    {
        broadcast use vstd::seq_lib::seq_to_set_is_finite;
        let keys = keys_of(&self.promoted_pool_rewards);
        let ghost dom = self.promoted_pool_rewards@.dom();
        let mut total: Option<u64> = Some(0);
        let mut i: usize = 0;
        proof {
            assert(keys@.take(0).to_set() =~= Set::<CurrencyId>::empty());
            vstd::set::fold::lemma_fold_empty(0int, self.weight_adder());
        }
        while i < keys.len()
            invariant
                i <= keys@.len(),
                keys@.to_set() == dom,
                keys@.no_duplicates(),
                dom == self.promoted_pool_rewards@.dom(),
                match total {
                    Some(t) => t == self.weight_of(keys@.take(i as int).to_set()),
                    None => self.weight_of(keys@.take(i as int).to_set()) > u64::MAX,
                },
            decreases keys.len() - i,
        {
            let k = keys[i];
            let w: u64 = match self.promoted_pool_rewards.get(&k) {
                Some(p) => {
                    let activated = match self.total_activated_liquidity.get(&k) {
                        Some(a) => *a,
                        None => 0,
                    };
                    if p.weight > 0 && activated > 0 {
                        p.weight as u64
                    } else {
                        0
                    }
                },
                None => 0,
            };
            proof {
                let done = keys@.take(i as int).to_set();
                assert(keys@.take(i as int + 1).to_set() =~= done.insert(k)) by {
                    assert(keys@.take(i as int + 1) =~= keys@.take(i as int).push(k));
                    keys@.take(i as int).lemma_push_to_set_commute(k);
                }
                assert(!done.contains(k)) by {
                    if done.contains(k) {
                        let j = choose|j: int| 0 <= j < i && keys@.take(i as int)[j] == k;
                        assert(keys@[j] == keys@[i as int]);
                    }
                }
                lemma_weight_step(*self, done, k);
                assert(w == self.counted_weight(k));
            }
            total = match total {
                Some(t) => t.checked_add(w),
                None => None,
            };
            i = i + 1;
        }
        proof {
            assert(keys@.take(keys@.len() as int) =~= keys@);
        }
        let mut next: BTreeMap<CurrencyId, PromotedPools> = BTreeMap::new();
        let mut j: usize = 0;
        proof {
            assert(keys@.take(0).to_set() =~= Set::<CurrencyId>::empty());
        }
        while j < keys.len()
            invariant
                j <= keys@.len(),
                keys@.to_set() == dom,
                keys@.no_duplicates(),
                dom == self.promoted_pool_rewards@.dom(),
                self.total_weight() >= 0,
                total == (if self.total_weight() <= u64::MAX {
                    Some(self.total_weight() as u64)
                } else {
                    None::<u64>
                }),
                next@.dom() == keys@.take(j as int).to_set(),
                forall|kk: CurrencyId| #[trigger] next@.contains_key(kk) ==> {
                    &&& next@[kk].weight == self.promoted_pool_rewards@[kk].weight
                    &&& self.pool_counts(kk) ==> self.pool_ratio_after(kk, liquidity_mining_rewards) == Some(next@[kk].rewards.value() as int)
                    &&& !self.pool_counts(kk) ==> next@[kk].rewards == self.promoted_pool_rewards@[kk].rewards
                },
            decreases keys.len() - j,
        {
            let k = keys[j];
            proof {
                assert(keys@.to_set().contains(keys@[j as int]));
            }
            let info = *self.promoted_pool_rewards.get(&k).unwrap();
            let activated = match self.total_activated_liquidity.get(&k) {
                Some(a) => *a,
                None => 0,
            };
            let entry = if info.weight > 0 && activated > 0 {
                match self.new_pool_ratio(k, liquidity_mining_rewards, total) {
                    Some(v) => PromotedPools { weight: info.weight, rewards: v },
                    None => {
                        return;
                    },
                }
            } else {
                info
            };
            next.insert(k, entry);
            proof {
                assert(keys@.take(j as int + 1) =~= keys@.take(j as int).push(k));
                keys@.take(j as int).lemma_push_to_set_commute(k);
                assert(next@.dom() =~= keys@.take(j as int + 1).to_set());
            }
            j = j + 1;
        }
        proof {
            assert(keys@.take(keys@.len() as int) =~= keys@);
            assert(!self.distribution_fails(liquidity_mining_rewards)) by {
                assert forall|k: CurrencyId| #[trigger] self.pool_counts(k) implies self.pool_ratio_after(k, liquidity_mining_rewards) is Some by {
                    assert(next@.contains_key(k));
                }
            }
        }
        self.promoted_pool_rewards = next;
    }

    /// `user` activates `amount` of `liquidity_token_id` for native rewards, as
    /// `activate_liquidity_for_native_rewards_impl` does.
    pub fn activate_liquidity_for_native_rewards(
        &mut self,
        user: AccountId,
        liquidity_asset_id: CurrencyId,
        amount: Balance,
        use_balance_from: Option<ActivateKind>,
        block: u64,
        curve: AsymptoticCurveRewards,
        can_activate: bool,
    ) -> (r: Result<(PosEvent, PosCall), PosError>)
        requires
            old(self).native_calc_defined(user, liquidity_asset_id, block, curve),
        ensures
            !old(self).spec_native_enabled(liquidity_asset_id) ==> r == Err::<(PosEvent, PosCall), PosError>(PosError::NotAPromotedPool)
                && final(self).same_as(*old(self)),
            old(self).spec_native_enabled(liquidity_asset_id) && !can_activate ==> r == Err::<(PosEvent, PosCall), PosError>(PosError::NotEnoughAssets)
                && final(self).same_as(*old(self)),
            old(self).spec_native_enabled(liquidity_asset_id) && can_activate
                && old(self).native_minting_error(user, liquidity_asset_id, amount, block, curve) is Some
                ==> r == Err::<(PosEvent, PosCall), PosError>(old(self).native_minting_error(user, liquidity_asset_id, amount, block, curve)->0)
                && final(self).same_as(*old(self)),
            old(self).spec_native_enabled(liquidity_asset_id) && can_activate
                && old(self).native_minting_error(user, liquidity_asset_id, amount, block, curve) is None ==> {
                &&& r == Ok::<(PosEvent, PosCall), PosError>((
                    PosEvent::LiquidityActivated(user, liquidity_asset_id, amount),
                    PosCall::Activate { token: liquidity_asset_id, account: user, amount, use_balance_from },
                ))
                &&& minted_native(*old(self), *final(self), user, liquidity_asset_id, amount, block, curve)
            },
    {
        self.activate_liquidity_for_native_rewards_impl(user, liquidity_asset_id, amount, use_balance_from, block, curve, can_activate)
    }

    /// `user` activates `amount` of `liquidity_token_id` for native rewards, as
    /// `activate_liquidity_for_native_rewards_impl` does.
    pub fn activate_liquidity(
        &mut self,
        user: AccountId,
        liquidity_asset_id: CurrencyId,
        amount: Balance,
        use_balance_from: Option<ActivateKind>,
        block: u64,
        curve: AsymptoticCurveRewards,
        can_activate: bool,
    ) -> (r: Result<(PosEvent, PosCall), PosError>)
        requires
            old(self).native_calc_defined(user, liquidity_asset_id, block, curve),
        ensures
            !old(self).spec_native_enabled(liquidity_asset_id) ==> r == Err::<(PosEvent, PosCall), PosError>(PosError::NotAPromotedPool)
                && final(self).same_as(*old(self)),
            old(self).spec_native_enabled(liquidity_asset_id) && !can_activate ==> r == Err::<(PosEvent, PosCall), PosError>(PosError::NotEnoughAssets)
                && final(self).same_as(*old(self)),
            old(self).spec_native_enabled(liquidity_asset_id) && can_activate
                && old(self).native_minting_error(user, liquidity_asset_id, amount, block, curve) is Some
                ==> r == Err::<(PosEvent, PosCall), PosError>(old(self).native_minting_error(user, liquidity_asset_id, amount, block, curve)->0)
                && final(self).same_as(*old(self)),
            old(self).spec_native_enabled(liquidity_asset_id) && can_activate
                && old(self).native_minting_error(user, liquidity_asset_id, amount, block, curve) is None ==> {
                &&& r == Ok::<(PosEvent, PosCall), PosError>((
                    PosEvent::LiquidityActivated(user, liquidity_asset_id, amount),
                    PosCall::Activate { token: liquidity_asset_id, account: user, amount, use_balance_from },
                ))
                &&& minted_native(*old(self), *final(self), user, liquidity_asset_id, amount, block, curve)
            },
    {
        self.activate_liquidity_for_native_rewards_impl(user, liquidity_asset_id, amount, use_balance_from, block, curve, can_activate)
    }

    /// `user` deactivates `amount` of `liquidity_token_id` from native rewards,
    /// as `deactivate_liquidity_for_native_rewards_impl` does.
    pub fn deactivate_liquidity_for_native_rewards(&mut self, user: AccountId, liquidity_asset_id: CurrencyId, amount: Balance, block: u64, curve: AsymptoticCurveRewards) -> (r: Result<Option<(PosEvent, PosCall)>, PosError>)
        requires
            old(self).native_calc_defined(user, liquidity_asset_id, block, curve),
        ensures
            amount == 0 ==> r == Ok::<Option<(PosEvent, PosCall)>, PosError>(None) && final(self).same_as(*old(self)),
            amount > 0 && old(self).native_burning_error(user, liquidity_asset_id, amount, block, curve) is Some
                ==> r == Err::<Option<(PosEvent, PosCall)>, PosError>(old(self).native_burning_error(user, liquidity_asset_id, amount, block, curve)->0)
                && final(self).same_as(*old(self)),
            amount > 0 && old(self).native_burning_error(user, liquidity_asset_id, amount, block, curve) is None
                ==> r == Ok::<Option<(PosEvent, PosCall)>, PosError>(Some((
                    PosEvent::LiquidityDeactivated(user, liquidity_asset_id, amount),
                    PosCall::Deactivate { token: liquidity_asset_id, account: user, amount },
                ))) && burned_native(*old(self), *final(self), user, liquidity_asset_id, amount, block, curve),
    {
        self.deactivate_liquidity_for_native_rewards_impl(user, liquidity_asset_id, amount, block, curve)
    }

    /// `user` deactivates `amount` of `liquidity_token_id` from native rewards,
    /// as `deactivate_liquidity_for_native_rewards_impl` does.
    pub fn deactivate_liquidity(&mut self, user: AccountId, liquidity_asset_id: CurrencyId, amount: Balance, block: u64, curve: AsymptoticCurveRewards) -> (r: Result<Option<(PosEvent, PosCall)>, PosError>)
        requires
            old(self).native_calc_defined(user, liquidity_asset_id, block, curve),
        ensures
            amount == 0 ==> r == Ok::<Option<(PosEvent, PosCall)>, PosError>(None) && final(self).same_as(*old(self)),
            amount > 0 && old(self).native_burning_error(user, liquidity_asset_id, amount, block, curve) is Some
                ==> r == Err::<Option<(PosEvent, PosCall)>, PosError>(old(self).native_burning_error(user, liquidity_asset_id, amount, block, curve)->0)
                && final(self).same_as(*old(self)),
            amount > 0 && old(self).native_burning_error(user, liquidity_asset_id, amount, block, curve) is None
                ==> r == Ok::<Option<(PosEvent, PosCall)>, PosError>(Some((
                    PosEvent::LiquidityDeactivated(user, liquidity_asset_id, amount),
                    PosCall::Deactivate { token: liquidity_asset_id, account: user, amount },
                ))) && burned_native(*old(self), *final(self), user, liquidity_asset_id, amount, block, curve),
    {
        self.deactivate_liquidity_for_native_rewards_impl(user, liquidity_asset_id, amount, block, curve)
    }

    /// `user` claims its native rewards for `liquidity_token_id`, as
    /// `claim_rewards_all` does.
    pub fn claim_native_rewards(&mut self, user: AccountId, liquidity_asset_id: CurrencyId, block: u64, curve: AsymptoticCurveRewards) -> (r: Result<(Balance, PosEvent, PosCall), PosError>)
        requires
            old(self).native_calc_defined(user, liquidity_asset_id, block, curve),
        ensures
            old(self).native_claim_error(user, liquidity_asset_id, block, curve) matches Some(e)
                ==> r == Err::<(Balance, PosEvent, PosCall), PosError>(e) && final(self).same_as(*old(self)),
            old(self).native_claim_error(user, liquidity_asset_id, block, curve) is None ==> ({
                let total = old(self).native_calc(user, liquidity_asset_id, old(self).session_of(block), curve).available()->0 as u128;
                &&& r == Ok::<(Balance, PosEvent, PosCall), PosError>((
                    total,
                    PosEvent::RewardsClaimed(user, liquidity_asset_id, total),
                    PosCall::TransferFromVault { to: user, amount: total },
                ))
                &&& claimed_native(*old(self), *final(self), user, liquidity_asset_id, block, curve)
            }),
    {
        self.claim_rewards_all(user, liquidity_asset_id, block, curve)
    }

    /// `user` deactivates `amount` of `liquidity_token_id` from the scheduled
    /// rewards of `reward_token`, as `deactivate_liquidity_for_3rdparty_rewards_impl` does.
    pub fn deactivate_liquidity_for_3rdparty_rewards(
        &mut self,
        user: AccountId,
        liquidity_asset_id: CurrencyId,
        amount: Balance,
        rewards_asset_id: CurrencyId,
        block: u64,
    ) -> (r: Result<(Option<PosEvent>, Option<PosCall>), PosError>)
        requires
            ({
                let k = spec_pair_key(liquidity_asset_id, rewards_asset_id);
                let t = old(self).session_of(block);
                &&& old(self).pair_readable(k, t)
                &&& get_or(old(self).total_activated_liquidity_for_schedules@, k, no_activation()).can_update(
                    t, amount, crate::schedule_rewards::LiquidityModification::Decrease)
            }),
        ensures
            amount == 0 ==> r == Ok::<(Option<PosEvent>, Option<PosCall>), PosError>((None, None)) && final(self).same_as(*old(self)),
            amount > 0 && old(self).burning_3rdparty_error(user, liquidity_asset_id, amount, rewards_asset_id, block) is Some
                ==> r == Err::<(Option<PosEvent>, Option<PosCall>), PosError>(
                old(self).burning_3rdparty_error(user, liquidity_asset_id, amount, rewards_asset_id, block)->0,
            ) && final(self).same_as(*old(self)),
            amount > 0 && old(self).burning_3rdparty_error(user, liquidity_asset_id, amount, rewards_asset_id, block) is None
                ==> (r matches Ok((ev, call)) && ev == Some(PosEvent::LiquidityDeactivated(user, liquidity_asset_id, amount))
                && burned_3rdparty(*old(self), *final(self), user, liquidity_asset_id, amount, rewards_asset_id, block, call)),
    {
        self.deactivate_liquidity_for_3rdparty_rewards_impl(user, liquidity_asset_id, amount, rewards_asset_id, block)
    }

    /// `user` activates `amount` of `liquidity_asset_id` for the scheduled
    /// rewards of `reward_token`, from reserves when `use_balance_from` says
    /// nothing.
    pub fn activate_liquidity_for_3rdparty_rewards(
        &mut self,
        user: AccountId,
        liquidity_asset_id: CurrencyId,
        amount: Balance,
        use_balance_from: Option<ThirdPartyActivationKind>,
        reward_token: CurrencyId,
        block: u64,
        can_activate: bool,
    ) -> (r: Result<(PosEvent, Option<PosCall>), PosError>)
        requires
            ({
                let k = spec_pair_key(liquidity_asset_id, reward_token);
                let t = old(self).session_of(block);
                &&& old(self).pair_readable(k, t)
                &&& get_or(old(self).total_activated_liquidity_for_schedules@, k, no_activation()).can_update(
                    t, amount, crate::schedule_rewards::LiquidityModification::Increase)
                &&& amount3(old(self).activated_liquidity_for_schedules@, user, liquidity_asset_id, reward_token) + amount <= u128::MAX
                &&& old(self).sched_activated(user, liquidity_asset_id, reward_token) + amount <= u128::MAX
                &&& amount2(old(self).activated_locked_liquidity_for_schedules@, user, liquidity_asset_id) + amount <= u128::MAX
                &&& amount2(old(self).activated_native_rewards_liq@, user, liquidity_asset_id) + amount <= u128::MAX
            }),
        ensures
            ({
                let source = old(self).activation_source_error(user, liquidity_asset_id, amount, kind_or_default(use_balance_from), reward_token, can_activate);
                let minting = old(self).minting_3rdparty_error(user, liquidity_asset_id, amount, reward_token, block);
                if !old(self).spec_3rdparty_enabled(liquidity_asset_id) {
                    r == Err::<(PosEvent, Option<PosCall>), PosError>(PosError::NotAPromotedPool) && final(self).same_as(*old(self))
                } else if source is Some {
                    r == Err::<(PosEvent, Option<PosCall>), PosError>(source->0) && final(self).same_as(*old(self))
                } else if minting is Some {
                    r == Err::<(PosEvent, Option<PosCall>), PosError>(minting->0) && final(self).same_as(*old(self))
                } else {
                    &&& minted_3rdparty(*old(self), *final(self), user, liquidity_asset_id, amount, reward_token, block)
                    &&& match kind_or_default(use_balance_from) {
                        ThirdPartyActivationKind::ActivateKind(ubf) => {
                            &&& r == Ok::<(PosEvent, Option<PosCall>), PosError>((
                                PosEvent::LiquidityActivated(user, liquidity_asset_id, amount),
                                Some(PosCall::Activate { token: liquidity_asset_id, account: user, amount, use_balance_from: ubf }),
                            ))
                            &&& nested_set32(old(self).activated_locked_liquidity_for_schedules@, final(self).activated_locked_liquidity_for_schedules@,
                                user, liquidity_asset_id, (amount2(old(self).activated_locked_liquidity_for_schedules@, user, liquidity_asset_id) + amount) as u128)
                            &&& final(self).activated_native_rewards_liq@ == old(self).activated_native_rewards_liq@
                        },
                        ThirdPartyActivationKind::ActivatedLiquidity(_) => {
                            &&& r == Ok::<(PosEvent, Option<PosCall>), PosError>((PosEvent::LiquidityActivated(user, liquidity_asset_id, amount), None))
                            &&& final(self).activated_locked_liquidity_for_schedules@ == old(self).activated_locked_liquidity_for_schedules@
                            &&& final(self).activated_native_rewards_liq@ == old(self).activated_native_rewards_liq@
                        },
                        ThirdPartyActivationKind::NativeRewardsLiquidity => {
                            &&& r == Ok::<(PosEvent, Option<PosCall>), PosError>((PosEvent::LiquidityActivated(user, liquidity_asset_id, amount), None))
                            &&& final(self).activated_locked_liquidity_for_schedules@ == old(self).activated_locked_liquidity_for_schedules@
                            &&& nested_set32(old(self).activated_native_rewards_liq@, final(self).activated_native_rewards_liq@,
                                user, liquidity_asset_id, (amount2(old(self).activated_native_rewards_liq@, user, liquidity_asset_id) + amount) as u128)
                        },
                    }
                }
            }),
    {
        let kind = match use_balance_from {
            Some(k) => k,
            None => ThirdPartyActivationKind::ActivateKind(None),
        };
        self.activate_liquidity_for_3rdparty_rewards_impl(user, liquidity_asset_id, amount, kind, reward_token, block, can_activate)
    }

    /// `sender` schedules `amount` of `token_id` as rewards for the pool's
    /// liquidity, as `reward_pool_impl` does.
    pub fn reward_pool(
        &mut self,
        sender: AccountId,
        liquidity_token: Option<CurrencyId>,
        token_id: CurrencyId,
        amount: Balance,
        schedule_end: SessionId,
        block: u64,
        liquidity_valuation: Balance,
        token_valuation: Balance,
        pool_native_reserves: Option<Balance>,
        pair_native_reserves: Option<Balance>,
    ) -> (r: Result<PosCall, PosError>)
        requires
            old(self).schedules_list_metadata.tail matches Some(t) ==> t < u64::MAX,
        ensures
            ({
                let current = match spec_rewards_time(block, old(self).config.rewards_distribution_period) {
                    Some(t) => t,
                    None => 0,
                };
                let amps = Self::spec_amount_per_session(current, schedule_end, amount);
                let meta = old(self).schedules_list_metadata;
                let full = meta.head is Some && meta.tail is Some && meta.count >= old(self).config.rewards_schedules_limit;
                if liquidity_token is None {
                    r == Err::<PosCall, PosError>(PosError::PoolDoesNotExist) && final(self).same_as(*old(self))
                } else if amps is Err {
                    r == Err::<PosCall, PosError>(amps->Err_0) && final(self).same_as(*old(self))
                } else if !old(self).spec_rewards_min_amount(token_id, amps->Ok_0, liquidity_valuation, token_valuation) {
                    r == Err::<PosCall, PosError>(PosError::TooLittleRewards) && final(self).same_as(*old(self))
                } else if !old(self).spec_rewards_min_volume(token_id, pool_native_reserves, pair_native_reserves) {
                    r == Err::<PosCall, PosError>(PosError::TooSmallVolume) && final(self).same_as(*old(self))
                } else if full {
                    r == Err::<PosCall, PosError>(PosError::TooManySchedules) && final(self).same_as(*old(self))
                } else {
                    let liq = liquidity_token->0;
                    let schedule = Schedule {
                        scheduled_at: current,
                        last_session: schedule_end,
                        liq_token: liq,
                        reward_token: token_id,
                        amount_per_session: amps->Ok_0,
                    };
                    &&& r == Ok::<PosCall, PosError>(PosCall::TransferToPallet { token: token_id, from: sender, amount })
                    &&& final(self).reward_tokens_per_pool@.dom() == old(self).reward_tokens_per_pool@.dom().insert(liq)
                    &&& final(self).reward_tokens_per_pool@[liq]@.dom() == (if old(self).reward_tokens_per_pool@.contains_key(liq) {
                        old(self).reward_tokens_per_pool@[liq]@.dom()
                    } else {
                        Set::<CurrencyId>::empty()
                    }).insert(token_id)
                    &&& forall|k: CurrencyId| k != liq && #[trigger] old(self).reward_tokens_per_pool@.contains_key(k)
                        ==> final(self).reward_tokens_per_pool@[k] == old(self).reward_tokens_per_pool@[k]
                    &&& (match (meta.head, meta.tail) {
                        (None, None) => {
                            &&& final(self).rewards_schedules_list@ == old(self).rewards_schedules_list@.insert(0, (schedule, None))
                            &&& final(self).schedules_list_metadata == (SchedulesList { head: Some(0), tail: Some(0), count: 1, ..meta })
                        },
                        (Some(_), Some(t)) => {
                            let linked = if old(self).rewards_schedules_list@.contains_key(t) {
                                old(self).rewards_schedules_list@.insert(t, (old(self).rewards_schedules_list@[t].0, Some((t + 1) as u64)))
                            } else {
                                old(self).rewards_schedules_list@
                            };
                            &&& final(self).rewards_schedules_list@ == linked.insert((t + 1) as u64, (schedule, None))
                            &&& final(self).schedules_list_metadata == (SchedulesList { tail: Some((t + 1) as u64), count: (meta.count + 1) as u64, ..meta })
                        },
                        _ => {
                            &&& final(self).rewards_schedules_list@ == old(self).rewards_schedules_list@
                            &&& final(self).schedules_list_metadata == meta
                        },
                    })
                    &&& final(self).same_except_schedules(*old(self))
                }
            }),
    {
        self.reward_pool_impl(sender, liquidity_token, token_id, amount, schedule_end, block, liquidity_valuation, token_valuation, pool_native_reserves, pair_native_reserves)
    }

    /// The scheduled rewards `user` could claim at block `block`, for each
    /// pair it holds a checkpoint for, ordered by liquidity token then reward
    /// token; nothing when one of them cannot be computed.
    pub fn calculate_3rdparty_rewards_all(&self, user: AccountId, block: u64) -> (r: Vec<(CurrencyId, CurrencyId, Balance)>)
        requires
            forall|k: u64| #[trigger] self.user_pairs(user).contains(k) ==> self.pair_readable(k, self.session_of(block)),
        ensures
            listed_3rdparty(*self, user, block, r@),
    {
        let keys = match self.rewards_info_for_schedule_rewards.get(&user) {
            Some(m) => crate::collator_payout::sorted_keys64(m),
            None => {
                let v: Vec<u64> = Vec::new();
                proof {
                    assert(v@.to_set() =~= self.user_pairs(user));
                }
                v
            },
        };
        let mut out: Vec<(CurrencyId, CurrencyId, Balance)> = Vec::new();
        let mut i: usize = 0;
        while i < keys.len()
            invariant
                i <= keys@.len(),
                keys@.to_set() == self.user_pairs(user),
                forall|a: int, b: int| 0 <= a < b < keys@.len() ==> keys@[a] < keys@[b],
                forall|k: u64| #[trigger] self.user_pairs(user).contains(k) ==> self.pair_readable(k, self.session_of(block)),
                self.all_3rdparty(user, keys@.take(i as int), block) == Some(out@),
            decreases keys@.len() - i,
        {
            let k = keys[i];
            proof {
                assert(keys@.take(i as int + 1).drop_last() == keys@.take(i as int));
                assert(keys@.take(i as int + 1).last() == k);
                assert(keys@.to_set().contains(keys@[i as int]));
            }
            let liq: u32 = (k / 0x1_0000_0000u64) as u32;
            let reward: u32 = (k % 0x1_0000_0000u64) as u32;
            proof {
                assert(spec_pair_key(liq, reward) == k);
            }
            match self.calculate_3rdparty_rewards_amount(user, liq, reward, block) {
                Ok(a) => {
                    out.push((liq, reward, a));
                },
                Err(_) => {
                    let empty: Vec<(CurrencyId, CurrencyId, Balance)> = Vec::new();
                    proof {
                        lemma_all_3rdparty_fails(*self, user, keys@, block, i as int + 1);
                        assert(keys@.to_set() == self.user_pairs(user));
                        assert(listed_3rdparty(*self, user, block, empty@));
                    }
                    return empty;
                },
            }
            i = i + 1;
        }
        proof {
            assert(keys@.take(i as int) == keys@);
            assert(keys@.to_set() == self.user_pairs(user));
            assert(listed_3rdparty(*self, user, block, out@));
        }
        out
    }

    /// One step of the walk over the schedules in session `session_id`.
    fn walk_schedules_step(&mut self, session_id: SessionId)
        requires
            walk_step_ok(old(self).list_view(), session_id),
        ensures
            final(self).list_view() == walk_step(old(self).list_view(), session_id),
            final(self).same_outside_list(*old(self)),
    {
        let ghost v = self.list_view();
        let last_valid = self.schedules_list_metadata.pos;
        let pos = match last_valid {
            Some(p) => match self.rewards_schedules_list.get(&p) {
                Some(entry) => entry.1,
                None => None,
            },
            None => self.schedules_list_metadata.head,
        };
        let pos_val = match pos {
            Some(x) => x,
            None => {
                return;
            },
        };
        let (schedule, next) = match self.rewards_schedules_list.get(&pos_val) {
            Some(entry) => *entry,
            None => {
                return;
            },
        };
        if schedule.last_session >= session_id {
            if schedule.scheduled_at < session_id {
                let k = pair_key(schedule.liq_token, schedule.reward_token);
                let mut rewards = match self.schedule_rewards_total.get(&k) {
                    Some(r) => *r,
                    None => ScheduleRewards::default(),
                };
                rewards.provide_rewards(session_id, schedule.amount_per_session);
                self.schedule_rewards_total.insert(k, rewards);
            }
            self.schedules_list_metadata.pos = Some(pos_val);
            proof {
                assert(self.list_view().meta == walk_step(v, session_id).meta);
            }
        } else {
            let meta = self.schedules_list_metadata;
            match (meta.head, meta.tail) {
                (Some(head), Some(tail)) => {
                    if head == pos_val && head != tail {
                        if let Some(n) = next {
                            self.schedules_list_metadata.head = Some(n);
                            self.schedules_list_metadata.count = meta.count - 1;
                        }
                    } else if tail == pos_val && head == tail {
                        self.schedules_list_metadata = SchedulesList { tail: None, head: None, pos: None, count: 0 };
                    } else if tail == pos_val && head != tail {
                        if let Some(lv) = last_valid {
                            self.schedules_list_metadata.tail = Some(lv);
                            self.schedules_list_metadata.count = meta.count - 1;
                            let entry = match self.rewards_schedules_list.get(&lv) {
                                Some(e) => Some(e.0),
                                None => None,
                            };
                            if let Some(sch) = entry {
                                self.rewards_schedules_list.insert(lv, (sch, None));
                            }
                        }
                    } else {
                        if let Some(lv) = last_valid {
                            self.schedules_list_metadata.count = meta.count - 1;
                            let entry = match self.rewards_schedules_list.get(&lv) {
                                Some(e) => Some(e.0),
                                None => None,
                            };
                            if let Some(sch) = entry {
                                self.rewards_schedules_list.insert(lv, (sch, next));
                            }
                        }
                    }
                },
                _ => {},
            }
        }
    }

    /// The schedules in the list, by increasing id, each as (last session,
    /// liquidity token, reward token, amount per session, id).
    pub fn schedules(&self) -> (r: Vec<(u64, CurrencyId, CurrencyId, Balance, ScheduleId)>)
        ensures
            r@.len() == self.rewards_schedules_list@.dom().len(),
            forall|i: int, j: int| 0 <= i < j < r@.len() ==> r@[i].4 < r@[j].4,
            forall|i: int| 0 <= i < r@.len() ==> {
                let sch = self.rewards_schedules_list@[r@[i].4].0;
                &&& self.rewards_schedules_list@.contains_key(#[trigger] r@[i].4)
                &&& r@[i] == (sch.last_session as u64, sch.liq_token, sch.reward_token, sch.amount_per_session, r@[i].4)
            },
    {
        let ids = crate::collator_payout::sorted_keys64(&self.rewards_schedules_list);
        let mut out: Vec<(u64, CurrencyId, CurrencyId, Balance, ScheduleId)> = Vec::new();
        let mut i: usize = 0;
        while i < ids.len()
            invariant
                i <= ids@.len(),
                out@.len() == i,
                ids@.to_set() == self.rewards_schedules_list@.dom(),
                forall|a: int, b: int| 0 <= a < b < ids@.len() ==> ids@[a] < ids@[b],
                forall|k: int| 0 <= k < i ==> #[trigger] out@[k].4 == ids@[k],
                forall|k: int| 0 <= k < i ==> {
                    let sch = self.rewards_schedules_list@[ids@[k]].0;
                    #[trigger] out@[k] == (sch.last_session as u64, sch.liq_token, sch.reward_token, sch.amount_per_session, ids@[k])
                },
            decreases ids@.len() - i,
        {
            let id = ids[i];
            proof {
                assert(ids@.to_set().contains(ids@[i as int]));
            }
            let sch = match self.rewards_schedules_list.get(&id) {
                Some(e) => e.0,
                None => {
                    proof {
                        assert(false);
                    }
                    return out;
                },
            };
            out.push((sch.last_session as u64, sch.liq_token, sch.reward_token, sch.amount_per_session, id));
            i = i + 1;
        }
        proof {
            assert(ids@.no_duplicates()) by {
                assert forall|a: int, b: int| 0 <= a < ids@.len() && 0 <= b < ids@.len() && a != b implies ids@[a] != ids@[b] by {
                    if a < b {
                        assert(ids@[a] < ids@[b]);
                    } else {
                        assert(ids@[b] < ids@[a]);
                    }
                }
            }
            ids@.unique_seq_to_set();
            assert forall|k: int| 0 <= k < out@.len() implies self.rewards_schedules_list@.contains_key(#[trigger] out@[k].4) by {
                assert(out@[k].4 == ids@[k]);
                assert(ids@.to_set().contains(ids@[k]));
            }
        }
        out
    }

    /// At the start of block `block`: in the last block of a session, forgets
    /// the last visited schedule; otherwise walks up to the configured number
    /// of schedules, providing the rewards of those still running for the
    /// current session and unlinking those that ended.
    pub fn on_initialize(&mut self, block: u64)
        requires
            old(self).config.rewards_distribution_period > 0,
            block_u32(block) < u32::MAX,
            !((block_u32(block) as int + 1) % (old(self).config.rewards_distribution_period as int) == 0)
                ==> walk_ok(
                old(self).list_view(),
                (((block_u32(block) as int) + 1) / (old(self).config.rewards_distribution_period as int)) as u32,
                old(self).config.schedules_per_block as nat,
            ),
        ensures
            final(self).same_outside_list(*old(self)),
            links_increase(old(self).rewards_schedules_list@) ==> links_increase(final(self).rewards_schedules_list@),
            ends_agree(old(self).schedules_list_metadata) ==> ends_agree(final(self).schedules_list_metadata),
            list_wf(old(self).schedules_list_metadata, old(self).rewards_schedules_list@)
                ==> list_wf(final(self).schedules_list_metadata, final(self).rewards_schedules_list@),
            (block_u32(block) as int + 1) % (old(self).config.rewards_distribution_period as int) == 0 ==> final(self).list_view()
                == (ListView { meta: SchedulesList { pos: None, ..old(self).schedules_list_metadata }, ..old(self).list_view() }),
            !((block_u32(block) as int + 1) % (old(self).config.rewards_distribution_period as int) == 0)
                ==> final(self).list_view() == walk(
                old(self).list_view(),
                (((block_u32(block) as int) + 1) / (old(self).config.rewards_distribution_period as int)) as u32,
                old(self).config.schedules_per_block as nat,
            ),
    {
        let session_id = self.session_index(block);
        if self.is_new_session(block) {
            proof {
                if list_wf(self.schedules_list_metadata, self.rewards_schedules_list@) {
                    lemma_reset_pos_wf(self.schedules_list_metadata, self.rewards_schedules_list@);
                }
            }
            self.schedules_list_metadata.pos = None;
            return;
        }
        let n = self.config.schedules_per_block;
        let ghost v0 = self.list_view();
        proof {
            if links_increase(v0.list) {
                lemma_walk_links(v0, session_id, n as nat);
            }
            if ends_agree(v0.meta) {
                lemma_walk_ends(v0, session_id, n as nat);
            }
            if list_wf(v0.meta, v0.list) {
                lemma_walk_wf(v0, session_id, n as nat);
            }
        }
        let mut i: u32 = 0;
        while i < n
            invariant
                i <= n,
                n == self.config.schedules_per_block,
                self.same_outside_list(*old(self)),
                walk(v0, session_id, n as nat) == walk(self.list_view(), session_id, (n - i) as nat),
                walk_ok(self.list_view(), session_id, (n - i) as nat),
            ensures
                walk(v0, session_id, n as nat) == self.list_view(),
                self.same_outside_list(*old(self)),
            decreases n - i,
        {
            let last_valid = self.schedules_list_metadata.pos;
            let pos = match last_valid {
                Some(p) => match self.rewards_schedules_list.get(&p) {
                    Some(entry) => entry.1,
                    None => None,
                },
                None => self.schedules_list_metadata.head,
            };
            if pos.is_none() {
                proof {
                    assert(next_pos(self.list_view()) is None);
                }
                break;
            }
            proof {
                assert(next_pos(self.list_view()) is Some);
            }
            self.walk_schedules_step(session_id);
            i = i + 1;
        }
    }
}

} // verus!
