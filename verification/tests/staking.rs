use mangata_pallets::arith::Perbill;
use mangata_pallets::bond::Bond;
use mangata_pallets::candidate::{
    CandidateBondChange, CandidateBondRequest, CollatorCandidate, CollatorSnapshot, CollatorStatus, DelegatorAdded,
};
use mangata_pallets::collator_payout::RewardTransfer;
use mangata_pallets::delegator::{DelegationChange, DelegationRequest, Delegator};
use mangata_pallets::genesis::{GenesisConfig, GenesisError};
use mangata_pallets::ordered_set::OrderedSet;
use mangata_pallets::payout::RewardEntry;
use mangata_pallets::staking::{ReserveCall, Staking, StakingConfig};
use mangata_pallets::staking_events::{Error, Event, MetadataUpdateAction, PairedOrLiquidityToken, PayoutRounds};
use mangata_pallets::{AccountId, Balance, CurrencyId, RoundIndex};
use std::collections::BTreeMap;
use PairedOrLiquidityToken::{Liquidity, Paired};

const MGA_TOKEN_ID: CurrencyId = 0;
const STAKING_ISSUANCE_PER_ROUND: Balance = 304;
const TARGET_TGE: Balance = 2_000_000_000;

#[derive(Debug, PartialEq)]
enum Fail {
    Stake(Error),
    BalanceTooLow,
}

type Res = Result<(), Fail>;

fn config() -> StakingConfig {
    StakingConfig {
        leave_candidates_delay: 2,
        candidate_bond_delay: 2,
        leave_delegators_delay: 2,
        revoke_delegation_delay: 2,
        delegation_bond_delay: 2,
        reward_payment_delay: 2,
        min_selected_candidates: 5,
        max_collator_candidates: 10,
        max_total_delegators_per_candidate: 10,
        max_delegators_per_candidate: 4,
        default_payout_limit: 15,
        max_delegations_per_delegator: 4,
        default_collator_commission: Perbill::from_percent(20),
        min_collator_stk: 10,
        min_candidate_stk: 10,
        min_delegation: 3,
        native_token_id: MGA_TOKEN_ID,
        blocks_per_round: 5,
    }
}

fn pool_state(token: CurrencyId) -> Option<(Balance, Balance)> {
    match token {
        1 => Some((1, 1)),
        2 => Some((2, 1)),
        3 => Some((5, 1)),
        4 => Some((1, 1)),
        5 => Some((1, 2)),
        6 => Some((1, 5)),
        _ => None,
    }
}

fn pool_states() -> BTreeMap<CurrencyId, Option<(Balance, Balance)>> {
    (0..10u32).map(|t| (t, pool_state(t))).collect()
}

#[derive(Default)]
struct ExtBuilder {
    staking_tokens: Vec<(AccountId, Balance, CurrencyId)>,
    collators: Vec<(AccountId, Balance, CurrencyId)>,
    delegations: Vec<(AccountId, AccountId, Balance)>,
}

impl ExtBuilder {
    fn with_staking_tokens(mut self, t: Vec<(AccountId, Balance, CurrencyId)>) -> Self {
        self.staking_tokens = t;
        self
    }
    fn with_default_staking_token(mut self, t: Vec<(AccountId, Balance)>) -> Self {
        let mut init = vec![(999u64, 10u128, 0u32), (999u64, 100u128, 1u32)];
        init.extend(t.into_iter().map(|(x, y)| (x, y, 1u32)));
        self.staking_tokens = init;
        self
    }
    fn with_candidates(mut self, c: Vec<(AccountId, Balance, CurrencyId)>) -> Self {
        self.collators = c;
        self
    }
    fn with_default_token_candidates(mut self, c: Vec<(AccountId, Balance)>) -> Self {
        self.collators = c.into_iter().map(|(x, y)| (x, y, 1u32)).collect();
        self
    }
    fn with_delegations(mut self, d: Vec<(AccountId, AccountId, Balance)>) -> Self {
        self.delegations = d;
        self
    }

    /// The genesis build of the staking storage, followed by block one.
    fn build(self) -> Ext {
        let mut ext = Ext {
            st: Staking::new(config()),
            free: BTreeMap::new(),
            reserved: BTreeMap::new(),
            events: Vec::new(),
            block: 0,
        };
        for (who, amount, token) in self.staking_tokens.iter() {
            *ext.free.entry((*token, *who)).or_insert(0) += *amount;
        }
        let genesis = GenesisConfig { candidates: self.collators.clone(), delegations: self.delegations.clone() };
        let mut available: BTreeMap<AccountId, BTreeMap<CurrencyId, Balance>> = BTreeMap::new();
        for ((token, who), amount) in ext.free.iter() {
            available.entry(*who).or_default().insert(*token, *amount);
        }
        let candidate_valuations: Vec<Balance> = genesis.candidates.iter().map(|c| c.1).collect();
        let delegation_valuations: Vec<Balance> = genesis.delegations.iter().map(|d| d.2).collect();
        let (_, calls) = genesis
            .build(&mut ext.st, available, &candidate_valuations, &delegation_valuations, &pool_states())
            .expect("genesis");
        assert!(ext.apply(&calls));
        ext.block = 1;
        let issuance: Balance = ext.free.iter().filter(|((t, _), _)| *t == MGA_TOKEN_ID).map(|(_, b)| *b).sum();
        *ext.free.entry((MGA_TOKEN_ID, 99999)).or_insert(0) += TARGET_TGE - issuance;
        ext
    }
}

struct Ext {
    st: Staking,
    free: BTreeMap<(CurrencyId, AccountId), Balance>,
    reserved: BTreeMap<(CurrencyId, AccountId), Balance>,
    events: Vec<Event>,
    block: u64,
}

impl Ext {
    fn free_balance(&self, token: CurrencyId, who: AccountId) -> Balance {
        *self.free.get(&(token, who)).unwrap_or(&0)
    }
    fn reserved_balance(&self, token: CurrencyId, who: AccountId) -> Balance {
        *self.reserved.get(&(token, who)).unwrap_or(&0)
    }
    fn can_reserve(&self, token: CurrencyId, who: AccountId, amount: Balance) -> bool {
        self.free_balance(token, who) >= amount
    }

    /// Performs the reserve operations in order; false, with nothing
    /// changed, when a reserve finds too little free balance.
    fn apply(&mut self, calls: &[ReserveCall]) -> bool {
        let (free, reserved) = (self.free.clone(), self.reserved.clone());
        for c in calls {
            match *c {
                ReserveCall::Bond { token, account, amount, .. } => {
                    if self.free_balance(token, account) < amount {
                        self.free = free;
                        self.reserved = reserved;
                        return false;
                    }
                    *self.free.entry((token, account)).or_insert(0) -= amount;
                    *self.reserved.entry((token, account)).or_insert(0) += amount;
                },
                ReserveCall::Unbond { token, account, amount } => {
                    let r = self.reserved_balance(token, account);
                    let moved = r.min(amount);
                    *self.reserved.entry((token, account)).or_insert(0) -= moved;
                    *self.free.entry((token, account)).or_insert(0) += moved;
                },
            }
        }
        true
    }

    fn pay(&mut self, transfers: &[RewardTransfer]) {
        for t in transfers {
            *self.free.entry((MGA_TOKEN_ID, t.to)).or_insert(0) += t.amount;
        }
    }

    /// Runs a call that returns its events and reserve operations; a reserve
    /// that fails undoes the call.
    fn run(&mut self, f: impl FnOnce(&mut Staking) -> Result<(Vec<Event>, Vec<ReserveCall>), Error>) -> Res {
        let before = self.st.clone();
        match f(&mut self.st) {
            Ok((evs, calls)) => {
                if self.apply(&calls) {
                    self.events.extend(evs);
                    Ok(())
                } else {
                    self.st = before;
                    Err(Fail::BalanceTooLow)
                }
            },
            Err(e) => {
                assert_eq!(self.st.candidate_state, before.candidate_state);
                Err(Fail::Stake(e))
            },
        }
    }

    fn run_ev(&mut self, f: impl FnOnce(&mut Staking) -> Result<Event, Error>) -> Res {
        self.run(|s| f(s).map(|e| (vec![e], vec![])))
    }

    fn last_event(&self) -> Event {
        self.events.last().cloned().expect("Event expected")
    }
    fn event_emitted(&self, e: &Event) -> bool {
        self.events.iter().any(|x| x == e)
    }

    // ~~ calls ~~

    fn set_total_selected(&mut self, new: u32) -> Res {
        self.run_ev(|s| s.set_total_selected(new))
    }
    fn set_collator_commission(&mut self, new: Perbill) -> Res {
        self.run_ev(|s| s.set_collator_commission(new))
    }
    fn join_candidates(&mut self, acc: AccountId, bond: Balance, token: CurrencyId, cc: u32, ltc: u32) -> Res {
        self.run(|s| s.join_candidates(acc, bond, token, None, cc, ltc, bond).map(|(e, c)| (vec![e], vec![c])))
    }
    fn schedule_leave_candidates(&mut self, acc: AccountId, count: u32) -> Res {
        self.run_ev(|s| s.schedule_leave_candidates(acc, count))
    }
    fn execute_leave_candidates(&mut self, candidate: AccountId, count: u32) -> Res {
        self.run(|s| s.execute_leave_candidates(candidate, count).map(|(e, c)| (vec![e], c)))
    }
    fn cancel_leave_candidates(&mut self, acc: AccountId, count: u32) -> Res {
        self.run_ev(|s| s.cancel_leave_candidates(acc, count))
    }
    fn go_offline(&mut self, acc: AccountId) -> Res {
        self.run_ev(|s| s.go_offline(acc))
    }
    fn go_online(&mut self, acc: AccountId) -> Res {
        self.run_ev(|s| s.go_online(acc))
    }
    fn schedule_candidate_bond_more(&mut self, acc: AccountId, more: Balance) -> Res {
        let token = self.st.candidate_state.get(&acc).map(|c| c.liquidity_token).unwrap_or(0);
        let can_bond = self.can_reserve(token, acc, more);
        self.run_ev(|s| s.schedule_candidate_bond_more(acc, more, can_bond))
    }
    fn schedule_candidate_bond_less(&mut self, acc: AccountId, less: Balance) -> Res {
        let after = self.st.candidate_state.get(&acc).map(|c| c.bond.saturating_sub(less)).unwrap_or(0);
        self.run_ev(|s| s.schedule_candidate_bond_less(acc, less, after))
    }
    fn execute_candidate_bond_request(&mut self, candidate: AccountId) -> Res {
        self.run(|s| s.execute_candidate_bond_request(candidate, None).map(|(e, c)| (vec![e], vec![c])))
    }
    fn cancel_candidate_bond_request(&mut self, acc: AccountId) -> Res {
        self.run_ev(|s| s.cancel_candidate_bond_request(acc))
    }
    fn delegate(&mut self, acc: AccountId, collator: AccountId, amount: Balance, cdc: u32, dc: u32) -> Res {
        self.run(|s| s.delegate(acc, collator, amount, None, cdc, dc, amount).map(|(e, c)| (vec![e], vec![c])))
    }
    fn schedule_leave_delegators(&mut self, acc: AccountId) -> Res {
        self.run_ev(|s| s.schedule_leave_delegators(acc))
    }
    fn execute_leave_delegators(&mut self, delegator: AccountId, count: u32) -> Res {
        self.run(|s| s.execute_leave_delegators(delegator, count))
    }
    fn cancel_leave_delegators(&mut self, acc: AccountId) -> Res {
        self.run_ev(|s| s.cancel_leave_delegators(acc))
    }
    fn schedule_revoke_delegation(&mut self, acc: AccountId, collator: AccountId) -> Res {
        self.run_ev(|s| s.schedule_revoke_delegation(acc, collator))
    }
    fn schedule_delegator_bond_more(&mut self, acc: AccountId, candidate: AccountId, more: Balance) -> Res {
        let token = self.st.candidate_state.get(&candidate).map(|c| c.liquidity_token).unwrap_or(0);
        let can_bond = self.can_reserve(token, acc, more);
        self.run_ev(|s| s.schedule_delegator_bond_more(acc, candidate, more, can_bond))
    }
    fn schedule_delegator_bond_less(&mut self, acc: AccountId, candidate: AccountId, less: Balance) -> Res {
        self.run_ev(|s| s.schedule_delegator_bond_less(acc, candidate, less))
    }
    fn execute_delegation_request(&mut self, delegator: AccountId, candidate: AccountId) -> Res {
        self.run(|s| s.execute_delegation_request(delegator, candidate, None).map(|(e, c)| (e, vec![c])))
    }
    fn cancel_delegation_request(&mut self, acc: AccountId, candidate: AccountId) -> Res {
        self.run_ev(|s| s.cancel_delegation_request(acc, candidate))
    }
    fn aggregator_update_metadata(&mut self, agg: AccountId, cands: Vec<AccountId>, action: MetadataUpdateAction) -> Res {
        self.run_ev(|s| s.aggregator_update_metadata(agg, cands, action))
    }
    fn update_candidate_aggregator(&mut self, candidate: AccountId, agg: Option<AccountId>) -> Res {
        self.run_ev(|s| s.update_candidate_aggregator(candidate, agg))
    }
    /// The mock valuator's liquidity token of a token paired with the native one.
    fn liquidity_token_of(t: PairedOrLiquidityToken) -> CurrencyId {
        match t {
            PairedOrLiquidityToken::Paired(x) => x / 100,
            PairedOrLiquidityToken::Liquidity(x) => x,
        }
    }
    fn add_staking_liquidity_token(&mut self, token: PairedOrLiquidityToken, count: u32) -> Res {
        self.st.add_staking_liquidity_token(Self::liquidity_token_of(token), count).map_err(Fail::Stake)
    }
    fn remove_staking_liquidity_token(&mut self, token: PairedOrLiquidityToken, count: u32) -> Res {
        self.st.remove_staking_liquidity_token(Self::liquidity_token_of(token), count).map_err(Fail::Stake)
    }
    fn payout_collator_rewards(&mut self, collator: AccountId, n: Option<u32>) -> Res {
        match self.st.payout_collator_rewards(collator, n) {
            Ok((transfers, evs)) => {
                self.pay(&transfers);
                self.events.extend(evs);
                Ok(())
            },
            Err(e) => Err(Fail::Stake(e)),
        }
    }
    fn payout_delegator_reward(&mut self, round: RoundIndex, collator: AccountId, delegator: AccountId) -> Res {
        match self.st.payout_delegator_reward(round, collator, delegator) {
            Ok((t, ev)) => {
                self.pay(&[t]);
                self.events.push(ev);
                Ok(())
            },
            Err(e) => Err(Fail::Stake(e)),
        }
    }

    // ~~ storage ~~

    fn candidate_state(&self, acc: AccountId) -> Option<CollatorCandidate> {
        self.st.candidate_state.get(&acc).cloned()
    }
    fn delegator_state(&self, acc: AccountId) -> Option<Delegator> {
        self.st.delegator_state.get(&acc).cloned()
    }
    fn candidate_pool(&self) -> Vec<Bond> {
        self.st.candidate_pool.0.clone()
    }
    fn total(&self, token: CurrencyId) -> Balance {
        *self.st.total.get(&token).unwrap_or(&0)
    }
    fn at_stake(&self, round: RoundIndex, acc: AccountId) -> CollatorSnapshot {
        self.st
            .at_stake
            .get(&round)
            .and_then(|m| m.get(&acc).cloned())
            .unwrap_or_else(CollatorSnapshot::default)
    }
    fn is_candidate(&self, acc: AccountId) -> bool {
        self.st.is_candidate(acc)
    }
    fn is_delegator(&self, acc: AccountId) -> bool {
        self.st.is_delegator(acc)
    }

    // ~~ blocks ~~

    fn roll_to(&mut self, n: u64) {
        while self.block < n {
            self.block += 1;
            if self.st.should_end_session(self.block) {
                let idx = if self.block == 0 { 0 } else { 1 };
                if let Some((ev, chosen, _)) =
                    self.st.start_session(idx, self.block, Some(STAKING_ISSUANCE_PER_ROUND), &pool_states())
                {
                    self.events.extend(chosen);
                    self.events.push(ev);
                }
            }
        }
    }

    fn set_author(&mut self, round: RoundIndex, acc: AccountId, pts: u32) {
        *self.st.points.entry(round).or_insert(0) += pts;
        *self.st.awarded_pts.entry(round).or_insert_with(BTreeMap::new).entry(acc).or_insert(0) += pts;
    }

    fn payout_collator_for_round(&mut self, n: RoundIndex) {
        let collators: Vec<AccountId> = self
            .st
            .round_collator_reward_info
            .iter()
            .filter(|(_, rounds)| rounds.contains_key(&n))
            .map(|(c, _)| *c)
            .collect();
        for c in collators {
            self.payout_collator_rewards(c, None).unwrap();
        }
    }
}

fn err(e: Error) -> Res {
    Err(Fail::Stake(e))
}

// ~~ ROOT ~~

#[test]
fn set_total_selected_event_emits_correctly() {
    let mut ext = ExtBuilder::default().build();
    assert_eq!(ext.set_total_selected(6), Ok(()));
    assert_eq!(ext.last_event(), Event::TotalSelectedSet(5, 6));
}

#[test]
fn set_total_selected_storage_updates_correctly() {
    let mut ext = ExtBuilder::default().build();
    assert_eq!(ext.st.total_selected, 5);
    assert_eq!(ext.set_total_selected(6), Ok(()));
    assert_eq!(ext.st.total_selected, 6);
}

#[test]
fn cannot_set_total_selected_to_current_total_selected() {
    let mut ext = ExtBuilder::default().build();
    assert_eq!(ext.set_total_selected(5), err(Error::NoWritingSameValue));
}

#[test]
fn cannot_set_total_selected_below_module_min() {
    let mut ext = ExtBuilder::default().build();
    assert_eq!(ext.set_total_selected(4), err(Error::CannotSetBelowMin));
}

#[test]
fn set_collator_commission_event_emits_correctly() {
    let mut ext = ExtBuilder::default().build();
    assert_eq!(ext.set_collator_commission(Perbill::from_percent(5)), Ok(()));
    assert_eq!(ext.last_event(), Event::CollatorCommissionSet(Perbill::from_percent(20), Perbill::from_percent(5)));
}

#[test]
fn set_collator_commission_storage_updates_correctly() {
    let mut ext = ExtBuilder::default().build();
    assert_eq!(ext.st.collator_commission, Perbill::from_percent(20));
    assert_eq!(ext.set_collator_commission(Perbill::from_percent(5)), Ok(()));
    assert_eq!(ext.st.collator_commission, Perbill::from_percent(5));
}

#[test]
fn cannot_set_collator_commission_to_current_collator_commission() {
    let mut ext = ExtBuilder::default().build();
    assert_eq!(ext.set_collator_commission(Perbill::from_percent(20)), err(Error::NoWritingSameValue));
}

// ~~ JOIN CANDIDATES ~~

fn one_candidate_ext() -> Ext {
    ExtBuilder::default()
        .with_default_staking_token(vec![(1, 10)])
        .with_default_token_candidates(vec![(999, 10)])
        .build()
}

#[test]
fn join_candidates_event_emits_correctly() {
    let mut ext = one_candidate_ext();
    assert_eq!(ext.join_candidates(1, 10, 1, 1, 10000), Ok(()));
    assert_eq!(ext.last_event(), Event::JoinedCollatorCandidates(1, 10, 20));
}

#[test]
fn join_candidates_reserves_balance() {
    let mut ext = one_candidate_ext();
    assert_eq!(ext.reserved_balance(1, 1), 0);
    assert_eq!(ext.free_balance(1, 1), 10);
    assert_eq!(ext.join_candidates(1, 10, 1, 1, 10000), Ok(()));
    assert_eq!(ext.reserved_balance(1, 1), 10);
    assert_eq!(ext.free_balance(1, 1), 0);
}

#[test]
fn join_candidates_increases_total_staked() {
    let mut ext = one_candidate_ext();
    assert_eq!(ext.total(1), 10);
    assert_eq!(ext.join_candidates(1, 10, 1, 1, 10000), Ok(()));
    assert_eq!(ext.total(1), 20);
}

#[test]
fn join_candidates_creates_candidate_state() {
    let mut ext = one_candidate_ext();
    assert!(ext.candidate_state(1).is_none());
    assert_eq!(ext.join_candidates(1, 10, 1, 1, 10000), Ok(()));
    let candidate_state = ext.candidate_state(1).expect("just joined => exists");
    assert_eq!(candidate_state.bond, 10);
}

#[test]
fn join_candidates_adds_to_candidate_pool() {
    let mut ext = one_candidate_ext();
    assert_eq!(ext.candidate_pool().len(), 1);
    assert_eq!(ext.join_candidates(1, 10, 1, 1, 10000), Ok(()));
    let pool = ext.candidate_pool();
    assert_eq!(pool[0].owner, 1);
    assert_eq!(pool[0].amount, 10);
    assert_eq!(pool[0].liquidity_token, 1);
}

#[test]
fn cannot_join_candidates_if_candidate() {
    let mut ext = ExtBuilder::default()
        .with_default_staking_token(vec![(1, 1000)])
        .with_default_token_candidates(vec![(1, 500)])
        .build();
    assert_eq!(ext.join_candidates(1, 11, 1, 100, 10000), err(Error::CandidateExists));
}

#[test]
fn cannot_join_candidates_if_delegator() {
    let mut ext = ExtBuilder::default()
        .with_default_staking_token(vec![(1, 50), (2, 20)])
        .with_default_token_candidates(vec![(1, 50)])
        .with_delegations(vec![(2, 1, 10)])
        .build();
    assert_eq!(ext.join_candidates(2, 10, 1, 1, 10000), err(Error::DelegatorExists));
}

#[test]
fn cannot_join_candidates_without_min_bond() {
    let mut ext = ExtBuilder::default()
        .with_default_staking_token(vec![(1, 1000)])
        .with_default_token_candidates(vec![(999, 10)])
        .build();
    assert_eq!(ext.join_candidates(1, 9, 1, 100, 10000), err(Error::CandidateBondBelowMin));
}

#[test]
fn cannot_join_candidates_with_more_than_available_balance() {
    let mut ext = ExtBuilder::default()
        .with_default_staking_token(vec![(1, 500)])
        .with_default_token_candidates(vec![(999, 10)])
        .build();
    assert_eq!(ext.join_candidates(1, 501, 1, 100, 10000), Err(Fail::BalanceTooLow));
    assert!(!ext.is_candidate(1));
    assert_eq!(ext.total(1), 10);
}

#[test]
fn insufficient_join_candidates_weight_hint_fails() {
    let mut ext = ExtBuilder::default()
        .with_default_staking_token(vec![(1, 20), (2, 20), (3, 20), (4, 20), (5, 20), (6, 20)])
        .with_default_token_candidates(vec![(1, 20), (2, 20), (3, 20), (4, 20), (5, 20)])
        .build();
    for i in 0..5 {
        assert_eq!(ext.join_candidates(6, 20, 1, i, 10000), err(Error::TooLowCandidateCountWeightHintJoinCandidates));
    }
}

#[test]
fn sufficient_join_candidates_weight_hint_succeeds() {
    let mut ext = ExtBuilder::default()
        .with_default_staking_token(vec![(1, 20), (2, 20), (3, 20), (4, 20), (5, 20), (6, 20), (7, 20), (8, 20), (9, 20)])
        .with_default_token_candidates(vec![(1, 20), (2, 20), (3, 20), (4, 20), (5, 20)])
        .build();
    let mut count = 5u32;
    for i in 6..10 {
        assert_eq!(ext.join_candidates(i, 20, 1, 10000, count), Ok(()));
        count += 1;
    }
}

// ~~ SCHEDULE LEAVE CANDIDATES ~~

fn single_candidate(amount: Balance) -> Ext {
    ExtBuilder::default()
        .with_default_staking_token(vec![(1, amount)])
        .with_default_token_candidates(vec![(1, amount)])
        .build()
}

#[test]
fn leave_candidates_event_emits_correctly() {
    let mut ext = single_candidate(10);
    assert_eq!(ext.schedule_leave_candidates(1, 1), Ok(()));
    assert_eq!(ext.last_event(), Event::CandidateScheduledExit(0, 1, 2));
}

#[test]
fn leave_candidates_removes_candidate_from_candidate_pool() {
    let mut ext = single_candidate(10);
    assert_eq!(ext.candidate_pool().len(), 1);
    assert_eq!(ext.schedule_leave_candidates(1, 1), Ok(()));
    assert!(ext.candidate_pool().is_empty());
}

#[test]
fn cannot_leave_candidates_if_not_candidate() {
    let mut ext = ExtBuilder::default().build();
    assert_eq!(ext.schedule_leave_candidates(1, 1), err(Error::CandidateDNE));
}

#[test]
fn cannot_leave_candidates_if_already_leaving_candidates() {
    let mut ext = single_candidate(10);
    assert_eq!(ext.schedule_leave_candidates(1, 1), Ok(()));
    assert_eq!(ext.schedule_leave_candidates(1, 1), err(Error::CandidateAlreadyLeaving));
}

fn five_candidates() -> Ext {
    ExtBuilder::default()
        .with_default_staking_token(vec![(1, 20), (2, 20), (3, 20), (4, 20), (5, 20)])
        .with_default_token_candidates(vec![(1, 20), (2, 20), (3, 20), (4, 20), (5, 20)])
        .build()
}

#[test]
fn insufficient_leave_candidates_weight_hint_fails() {
    let mut ext = five_candidates();
    for i in 1..6 {
        assert_eq!(ext.schedule_leave_candidates(i, 4), err(Error::TooLowCandidateCountToLeaveCandidates));
    }
}

#[test]
fn sufficient_leave_candidates_weight_hint_succeeds() {
    let mut ext = five_candidates();
    let mut count = 5u32;
    for i in 1..6 {
        assert_eq!(ext.schedule_leave_candidates(i, count), Ok(()));
        count -= 1;
    }
}

// ~~ EXECUTE LEAVE CANDIDATES ~~

#[test]
fn execute_leave_candidates_emits_event() {
    let mut ext = single_candidate(10);
    assert_eq!(ext.schedule_leave_candidates(1, 1), Ok(()));
    ext.roll_to(10);
    assert_eq!(ext.execute_leave_candidates(1, 10000), Ok(()));
    assert_eq!(ext.last_event(), Event::CandidateLeft(1, 10, 0));
}

#[test]
fn execute_leave_candidates_callable_by_any_signed() {
    let mut ext = single_candidate(10);
    assert_eq!(ext.schedule_leave_candidates(1, 1), Ok(()));
    ext.roll_to(10);
    assert_eq!(ext.execute_leave_candidates(1, 10000), Ok(()));
}

#[test]
fn execute_leave_candidates_unreserves_balance() {
    let mut ext = single_candidate(10);
    assert_eq!(ext.reserved_balance(1, 1), 10);
    assert_eq!(ext.free_balance(1, 1), 0);
    assert_eq!(ext.schedule_leave_candidates(1, 1), Ok(()));
    ext.roll_to(10);
    assert_eq!(ext.execute_leave_candidates(1, 10000), Ok(()));
    assert_eq!(ext.reserved_balance(1, 1), 0);
    assert_eq!(ext.free_balance(1, 1), 10);
}

#[test]
fn execute_leave_candidates_decreases_total_staked() {
    let mut ext = single_candidate(10);
    assert_eq!(ext.total(1), 10);
    assert_eq!(ext.schedule_leave_candidates(1, 1), Ok(()));
    ext.roll_to(10);
    assert_eq!(ext.execute_leave_candidates(1, 10000), Ok(()));
    assert_eq!(ext.total(1), 0);
}

#[test]
fn execute_leave_candidates_removes_candidate_state() {
    let mut ext = single_candidate(10);
    assert_eq!(ext.schedule_leave_candidates(1, 1), Ok(()));
    let candidate_state = ext.candidate_state(1).expect("just left => still exists");
    assert_eq!(candidate_state.bond, 10);
    ext.roll_to(10);
    assert_eq!(ext.execute_leave_candidates(1, 10000), Ok(()));
    assert!(ext.candidate_state(1).is_none());
}

#[test]
fn cannot_execute_leave_candidates_before_delay() {
    let mut ext = single_candidate(10);
    assert_eq!(ext.schedule_leave_candidates(1, 1), Ok(()));
    assert_eq!(ext.execute_leave_candidates(1, 10000), err(Error::CandidateCannotLeaveYet));
    ext.roll_to(8);
    assert_eq!(ext.execute_leave_candidates(1, 10000), err(Error::CandidateCannotLeaveYet));
    ext.roll_to(10);
    assert_eq!(ext.execute_leave_candidates(1, 10000), Ok(()));
}

// ~~ CANCEL LEAVE CANDIDATES ~~

#[test]
fn cancel_leave_candidates_emits_event() {
    let mut ext = single_candidate(10);
    assert_eq!(ext.schedule_leave_candidates(1, 1), Ok(()));
    assert_eq!(ext.cancel_leave_candidates(1, 1), Ok(()));
    assert_eq!(ext.last_event(), Event::CancelledCandidateExit(1));
}

#[test]
fn cancel_leave_candidates_updates_candidate_state() {
    let mut ext = single_candidate(10);
    assert_eq!(ext.schedule_leave_candidates(1, 1), Ok(()));
    assert_eq!(ext.cancel_leave_candidates(1, 1), Ok(()));
    let candidate = ext.candidate_state(1).expect("just cancelled leave so exists");
    assert!(candidate.is_active());
}

#[test]
fn cancel_leave_candidates_adds_to_candidate_pool() {
    let mut ext = single_candidate(10);
    assert_eq!(ext.schedule_leave_candidates(1, 1), Ok(()));
    assert_eq!(ext.cancel_leave_candidates(1, 1), Ok(()));
    let b = ext.candidate_pool()[0];
    assert_eq!((b.owner, b.amount, b.liquidity_token), (1, 10, 1));
}

// ~~ GO OFFLINE / ONLINE ~~

#[test]
fn go_offline_event_emits_correctly() {
    let mut ext = single_candidate(20);
    assert_eq!(ext.go_offline(1), Ok(()));
    assert_eq!(ext.last_event(), Event::CandidateWentOffline(0, 1));
}

#[test]
fn go_offline_removes_candidate_from_candidate_pool() {
    let mut ext = single_candidate(20);
    assert_eq!(ext.candidate_pool().len(), 1);
    assert_eq!(ext.go_offline(1), Ok(()));
    assert!(ext.candidate_pool().is_empty());
}

#[test]
fn go_offline_updates_candidate_state_to_idle() {
    let mut ext = single_candidate(20);
    assert_eq!(ext.candidate_state(1).unwrap().state, CollatorStatus::Active);
    assert_eq!(ext.go_offline(1), Ok(()));
    assert_eq!(ext.candidate_state(1).unwrap().state, CollatorStatus::Idle);
}

#[test]
fn cannot_go_offline_if_not_candidate() {
    let mut ext = ExtBuilder::default().build();
    assert_eq!(ext.go_offline(3), err(Error::CandidateDNE));
}

#[test]
fn cannot_go_offline_if_already_offline() {
    let mut ext = single_candidate(20);
    assert_eq!(ext.go_offline(1), Ok(()));
    assert_eq!(ext.go_offline(1), err(Error::AlreadyOffline));
}

#[test]
fn go_online_event_emits_correctly() {
    let mut ext = single_candidate(20);
    assert_eq!(ext.go_offline(1), Ok(()));
    assert_eq!(ext.go_online(1), Ok(()));
    assert_eq!(ext.last_event(), Event::CandidateBackOnline(0, 1));
}

#[test]
fn go_online_adds_to_candidate_pool() {
    let mut ext = single_candidate(20);
    assert_eq!(ext.go_offline(1), Ok(()));
    assert!(ext.candidate_pool().is_empty());
    assert_eq!(ext.go_online(1), Ok(()));
    let b = ext.candidate_pool()[0];
    assert_eq!((b.owner, b.amount, b.liquidity_token), (1, 20, 1));
}

#[test]
fn go_online_storage_updates_candidate_state() {
    let mut ext = single_candidate(20);
    assert_eq!(ext.go_offline(1), Ok(()));
    assert_eq!(ext.candidate_state(1).unwrap().state, CollatorStatus::Idle);
    assert_eq!(ext.go_online(1), Ok(()));
    assert_eq!(ext.candidate_state(1).unwrap().state, CollatorStatus::Active);
}

#[test]
fn cannot_go_online_if_not_candidate() {
    let mut ext = ExtBuilder::default().build();
    assert_eq!(ext.go_online(3), err(Error::CandidateDNE));
}

#[test]
fn cannot_go_online_if_already_online() {
    let mut ext = single_candidate(20);
    assert_eq!(ext.go_online(1), err(Error::AlreadyActive));
}

#[test]
fn cannot_go_online_if_leaving() {
    let mut ext = single_candidate(20);
    assert_eq!(ext.schedule_leave_candidates(1, 1), Ok(()));
    assert_eq!(ext.go_online(1), err(Error::CannotGoOnlineIfLeaving));
}

fn ext_with(tokens: Vec<(AccountId, Balance)>, cands: Vec<(AccountId, Balance)>) -> Ext {
    ExtBuilder::default().with_default_staking_token(tokens).with_default_token_candidates(cands).build()
}

fn ext_with_delegations(
    tokens: Vec<(AccountId, Balance)>,
    cands: Vec<(AccountId, Balance)>,
    dels: Vec<(AccountId, AccountId, Balance)>,
) -> Ext {
    ExtBuilder::default()
        .with_default_staking_token(tokens)
        .with_default_token_candidates(cands)
        .with_delegations(dels)
        .build()
}

fn bond_tuple(b: &Bond) -> (AccountId, Balance, CurrencyId) {
    (b.owner, b.amount, b.liquidity_token)
}

// ~~ SCHEDULE CANDIDATE BOND MORE ~~

#[test]
fn schedule_candidate_bond_more_event_emits_correctly() {
    let mut ext = ext_with(vec![(1, 50)], vec![(1, 20)]);
    assert_eq!(ext.schedule_candidate_bond_more(1, 30), Ok(()));
    assert_eq!(ext.last_event(), Event::CandidateBondMoreRequested(1, 30, 2));
}

#[test]
fn schedule_candidate_bond_more_updates_candidate_state() {
    let mut ext = ext_with(vec![(1, 50)], vec![(1, 20)]);
    assert_eq!(ext.schedule_candidate_bond_more(1, 30), Ok(()));
    let state = ext.candidate_state(1).expect("request bonded more so exists");
    assert_eq!(
        state.request,
        Some(CandidateBondRequest { amount: 30, change: CandidateBondChange::Increase, when_executable: 2 })
    );
}

#[test]
fn cannot_schedule_candidate_bond_more_if_request_exists() {
    let mut ext = ext_with(vec![(1, 40)], vec![(1, 30)]);
    assert_eq!(ext.schedule_candidate_bond_more(1, 5), Ok(()));
    assert_eq!(ext.schedule_candidate_bond_more(1, 5), err(Error::PendingCandidateRequestAlreadyExists));
}

#[test]
fn cannot_schedule_candidate_bond_more_if_not_candidate() {
    let mut ext = ExtBuilder::default().build();
    assert_eq!(ext.schedule_candidate_bond_more(6, 50), err(Error::CandidateDNE));
}

#[test]
fn cannot_schedule_candidate_bond_more_if_insufficient_balance() {
    let mut ext = ext_with(vec![(1, 30)], vec![(1, 30)]);
    assert_eq!(ext.schedule_candidate_bond_more(1, 1), err(Error::InsufficientBalance));
}

#[test]
fn can_schedule_candidate_bond_more_if_leaving_candidates() {
    let mut ext = ext_with(vec![(1, 50)], vec![(1, 20)]);
    assert_eq!(ext.schedule_leave_candidates(1, 1), Ok(()));
    assert_eq!(ext.schedule_candidate_bond_more(1, 30), Ok(()));
}

#[test]
fn cannot_schedule_candidate_bond_more_if_exited_candidates() {
    let mut ext = ext_with(vec![(1, 50)], vec![(1, 20)]);
    assert_eq!(ext.schedule_leave_candidates(1, 1), Ok(()));
    ext.roll_to(10);
    assert_eq!(ext.execute_leave_candidates(1, 10000), Ok(()));
    assert_eq!(ext.schedule_candidate_bond_more(1, 30), err(Error::CandidateDNE));
}

// ~~ SCHEDULE CANDIDATE BOND LESS ~~

#[test]
fn schedule_candidate_bond_less_event_emits_correctly() {
    let mut ext = ext_with(vec![(1, 30)], vec![(1, 30)]);
    assert_eq!(ext.schedule_candidate_bond_less(1, 10), Ok(()));
    assert_eq!(ext.last_event(), Event::CandidateBondLessRequested(1, 10, 2));
}

#[test]
fn cannot_schedule_candidate_bond_less_if_request_exists() {
    let mut ext = ext_with(vec![(1, 30)], vec![(1, 30)]);
    assert_eq!(ext.schedule_candidate_bond_less(1, 5), Ok(()));
    assert_eq!(ext.schedule_candidate_bond_less(1, 5), err(Error::PendingCandidateRequestAlreadyExists));
}

#[test]
fn cannot_schedule_candidate_bond_less_if_not_candidate() {
    let mut ext = ExtBuilder::default().build();
    assert_eq!(ext.schedule_candidate_bond_less(6, 50), err(Error::CandidateDNE));
}

#[test]
fn cannot_schedule_candidate_bond_less_if_new_total_below_min_candidate_stk() {
    let mut ext = ext_with(vec![(1, 30)], vec![(1, 30)]);
    assert_eq!(ext.schedule_candidate_bond_less(1, 21), err(Error::CandidateBondBelowMin));
}

#[test]
fn can_schedule_candidate_bond_less_if_leaving_candidates() {
    let mut ext = ext_with(vec![(1, 30)], vec![(1, 30)]);
    assert_eq!(ext.schedule_leave_candidates(1, 1), Ok(()));
    assert_eq!(ext.schedule_candidate_bond_less(1, 10), Ok(()));
}

#[test]
fn cannot_schedule_candidate_bond_less_if_exited_candidates() {
    let mut ext = ext_with(vec![(1, 30)], vec![(1, 30)]);
    assert_eq!(ext.schedule_leave_candidates(1, 1), Ok(()));
    ext.roll_to(10);
    assert_eq!(ext.execute_leave_candidates(1, 10000), Ok(()));
    assert_eq!(ext.schedule_candidate_bond_less(1, 10), err(Error::CandidateDNE));
}

// ~~ EXECUTE CANDIDATE BOND REQUEST ~~

#[test]
fn execute_candidate_bond_more_emits_correct_event() {
    let mut ext = ext_with(vec![(1, 50)], vec![(1, 20)]);
    assert_eq!(ext.schedule_candidate_bond_more(1, 30), Ok(()));
    ext.roll_to(10);
    assert_eq!(ext.execute_candidate_bond_request(1), Ok(()));
    assert_eq!(ext.last_event(), Event::CandidateBondedMore(1, 30, 50));
}

#[test]
fn execute_candidate_bond_more_reserves_balance() {
    let mut ext = ext_with(vec![(1, 50)], vec![(1, 20)]);
    assert_eq!(ext.reserved_balance(1, 1), 20);
    assert_eq!(ext.free_balance(1, 1), 30);
    assert_eq!(ext.schedule_candidate_bond_more(1, 30), Ok(()));
    ext.roll_to(10);
    assert_eq!(ext.execute_candidate_bond_request(1), Ok(()));
    assert_eq!(ext.reserved_balance(1, 1), 50);
    assert_eq!(ext.free_balance(1, 1), 0);
}

#[test]
fn execute_candidate_bond_more_increases_total() {
    let mut ext = ext_with(vec![(1, 50)], vec![(1, 20)]);
    let total = ext.total(1);
    assert_eq!(ext.schedule_candidate_bond_more(1, 30), Ok(()));
    ext.roll_to(10);
    assert_eq!(ext.execute_candidate_bond_request(1), Ok(()));
    assert_eq!(ext.total(1), total + 30);
}

#[test]
fn execute_candidate_bond_more_updates_candidate_state() {
    let mut ext = ext_with(vec![(1, 50)], vec![(1, 20)]);
    assert_eq!(ext.candidate_state(1).unwrap().bond, 20);
    assert_eq!(ext.schedule_candidate_bond_more(1, 30), Ok(()));
    ext.roll_to(10);
    assert_eq!(ext.execute_candidate_bond_request(1), Ok(()));
    assert_eq!(ext.candidate_state(1).unwrap().bond, 50);
}

#[test]
fn execute_candidate_bond_more_updates_candidate_pool() {
    let mut ext = ext_with(vec![(1, 50)], vec![(1, 20)]);
    assert_eq!(bond_tuple(&ext.candidate_pool()[0]), (1, 20, 1));
    assert_eq!(ext.schedule_candidate_bond_more(1, 30), Ok(()));
    ext.roll_to(10);
    assert_eq!(ext.execute_candidate_bond_request(1), Ok(()));
    assert_eq!(bond_tuple(&ext.candidate_pool()[0]), (1, 50, 1));
}

#[test]
fn execute_candidate_bond_less_emits_correct_event() {
    let mut ext = ext_with(vec![(1, 50)], vec![(1, 50)]);
    assert_eq!(ext.schedule_candidate_bond_less(1, 30), Ok(()));
    ext.roll_to(10);
    assert_eq!(ext.execute_candidate_bond_request(1), Ok(()));
    assert_eq!(ext.last_event(), Event::CandidateBondedLess(1, 30, 20));
}

#[test]
fn execute_candidate_bond_less_unreserves_balance() {
    let mut ext = ext_with(vec![(1, 30)], vec![(1, 30)]);
    assert_eq!(ext.reserved_balance(1, 1), 30);
    assert_eq!(ext.free_balance(1, 1), 0);
    assert_eq!(ext.schedule_candidate_bond_less(1, 10), Ok(()));
    ext.roll_to(10);
    assert_eq!(ext.execute_candidate_bond_request(1), Ok(()));
    assert_eq!(ext.reserved_balance(1, 1), 20);
    assert_eq!(ext.free_balance(1, 1), 10);
}

#[test]
fn execute_candidate_bond_less_decreases_total() {
    let mut ext = ext_with(vec![(1, 30)], vec![(1, 30)]);
    let total = ext.total(1);
    assert_eq!(ext.schedule_candidate_bond_less(1, 10), Ok(()));
    ext.roll_to(10);
    assert_eq!(ext.execute_candidate_bond_request(1), Ok(()));
    assert_eq!(ext.total(1), total - 10);
}

#[test]
fn execute_candidate_bond_less_updates_candidate_state() {
    let mut ext = ext_with(vec![(1, 30)], vec![(1, 30)]);
    assert_eq!(ext.candidate_state(1).unwrap().bond, 30);
    assert_eq!(ext.schedule_candidate_bond_less(1, 10), Ok(()));
    ext.roll_to(10);
    assert_eq!(ext.execute_candidate_bond_request(1), Ok(()));
    assert_eq!(ext.candidate_state(1).unwrap().bond, 20);
}

#[test]
fn execute_candidate_bond_less_updates_candidate_pool() {
    let mut ext = ext_with(vec![(1, 30)], vec![(1, 30)]);
    assert_eq!(bond_tuple(&ext.candidate_pool()[0]), (1, 30, 1));
    assert_eq!(ext.schedule_candidate_bond_less(1, 10), Ok(()));
    ext.roll_to(10);
    assert_eq!(ext.execute_candidate_bond_request(1), Ok(()));
    assert_eq!(bond_tuple(&ext.candidate_pool()[0]), (1, 20, 1));
}

// ~~ CANCEL CANDIDATE BOND REQUEST ~~

#[test]
fn cancel_candidate_bond_more_emits_event() {
    let mut ext = ext_with(vec![(1, 40)], vec![(1, 30)]);
    assert_eq!(ext.schedule_candidate_bond_more(1, 10), Ok(()));
    assert_eq!(ext.cancel_candidate_bond_request(1), Ok(()));
    assert_eq!(
        ext.last_event(),
        Event::CancelledCandidateBondChange(
            1,
            CandidateBondRequest { amount: 10, change: CandidateBondChange::Increase, when_executable: 2 }
        )
    );
}

#[test]
fn cancel_candidate_bond_more_updates_candidate_state() {
    let mut ext = ext_with(vec![(1, 40)], vec![(1, 30)]);
    assert_eq!(ext.schedule_candidate_bond_more(1, 10), Ok(()));
    assert_eq!(ext.cancel_candidate_bond_request(1), Ok(()));
    assert!(ext.candidate_state(1).unwrap().request.is_none());
}

#[test]
fn only_candidate_can_cancel_candidate_bond_more_request() {
    let mut ext = ext_with(vec![(1, 40)], vec![(1, 30)]);
    assert_eq!(ext.schedule_candidate_bond_more(1, 10), Ok(()));
    assert_eq!(ext.cancel_candidate_bond_request(2), err(Error::CandidateDNE));
}

#[test]
fn cancel_candidate_bond_less_emits_event() {
    let mut ext = ext_with(vec![(1, 30)], vec![(1, 30)]);
    assert_eq!(ext.schedule_candidate_bond_less(1, 10), Ok(()));
    assert_eq!(ext.cancel_candidate_bond_request(1), Ok(()));
    assert_eq!(
        ext.last_event(),
        Event::CancelledCandidateBondChange(
            1,
            CandidateBondRequest { amount: 10, change: CandidateBondChange::Decrease, when_executable: 2 }
        )
    );
}

#[test]
fn cancel_candidate_bond_less_updates_candidate_state() {
    let mut ext = ext_with(vec![(1, 30)], vec![(1, 30)]);
    assert_eq!(ext.schedule_candidate_bond_less(1, 10), Ok(()));
    assert_eq!(ext.cancel_candidate_bond_request(1), Ok(()));
    assert!(ext.candidate_state(1).unwrap().request.is_none());
}

#[test]
fn only_candidate_can_cancel_candidate_bond_less_request() {
    let mut ext = ext_with(vec![(1, 30)], vec![(1, 30)]);
    assert_eq!(ext.schedule_candidate_bond_less(1, 10), Ok(()));
    assert_eq!(ext.cancel_candidate_bond_request(2), err(Error::CandidateDNE));
}

// ~~ DELEGATE ~~

fn one_delegation_ext() -> Ext {
    ext_with_delegations(vec![(1, 30), (2, 10)], vec![(1, 30)], vec![(2, 1, 10)])
}

#[test]
fn delegate_event_emits_correctly() {
    let mut ext = ext_with(vec![(1, 30), (2, 10)], vec![(1, 30)]);
    assert_eq!(ext.delegate(2, 1, 10, 0, 0), Ok(()));
    assert_eq!(ext.last_event(), Event::Delegation(2, 10, 1, DelegatorAdded::AddedToTop { new_total: 40 }));
}

#[test]
fn delegate_reserves_balance() {
    let mut ext = ext_with(vec![(1, 30), (2, 10)], vec![(1, 30)]);
    assert_eq!(ext.reserved_balance(1, 2), 0);
    assert_eq!(ext.free_balance(1, 2), 10);
    assert_eq!(ext.delegate(2, 1, 10, 0, 0), Ok(()));
    assert_eq!(ext.reserved_balance(1, 2), 10);
    assert_eq!(ext.free_balance(1, 2), 0);
}

#[test]
fn delegate_updates_delegator_state() {
    let mut ext = ext_with(vec![(1, 30), (2, 10)], vec![(1, 30)]);
    assert!(ext.delegator_state(2).is_none());
    assert_eq!(ext.delegate(2, 1, 10, 0, 0), Ok(()));
    let d = ext.delegator_state(2).expect("just delegated => exists");
    assert_eq!(bond_tuple(&d.delegations.0[0]), (1, 10, 1));
}

#[test]
fn delegate_updates_collator_state() {
    let mut ext = ext_with(vec![(1, 30), (2, 10)], vec![(1, 30)]);
    let c = ext.candidate_state(1).expect("registered in genesis");
    assert_eq!(c.total_backing, 30);
    assert_eq!(c.total_counted, 30);
    assert!(c.top_delegations.is_empty());
    assert_eq!(ext.delegate(2, 1, 10, 0, 0), Ok(()));
    let c = ext.candidate_state(1).expect("just delegated => exists");
    assert_eq!(c.total_backing, 40);
    assert_eq!(c.total_counted, 40);
    assert_eq!(bond_tuple(&c.top_delegations[0]), (2, 10, 1));
}

#[test]
fn can_delegate_immediately_after_other_join_candidates() {
    let mut ext = ext_with(vec![(1, 20), (2, 20)], vec![(999, 10)]);
    assert_eq!(ext.join_candidates(1, 20, 1, 10000, 1), Ok(()));
    assert_eq!(ext.delegate(2, 1, 20, 0, 0), Ok(()));
}

#[test]
fn can_delegate_if_revoking() {
    let mut ext = ext_with_delegations(
        vec![(1, 20), (2, 30), (3, 20), (4, 20)],
        vec![(1, 20), (3, 20), (4, 20)],
        vec![(2, 1, 10), (2, 3, 10)],
    );
    assert_eq!(ext.schedule_revoke_delegation(2, 1), Ok(()));
    assert_eq!(ext.delegate(2, 4, 10, 0, 2), Ok(()));
}

#[test]
fn cannot_delegate_if_leaving() {
    let mut ext = ext_with_delegations(vec![(1, 20), (2, 20), (3, 20)], vec![(1, 20), (3, 20)], vec![(2, 1, 10)]);
    assert_eq!(ext.schedule_leave_delegators(2), Ok(()));
    assert_eq!(ext.delegate(2, 3, 10, 0, 1), err(Error::CannotDelegateIfLeaving));
}

#[test]
fn cannot_delegate_if_candidate() {
    let mut ext = ext_with(vec![(1, 20), (2, 20)], vec![(1, 20), (2, 20)]);
    assert_eq!(ext.delegate(2, 1, 10, 0, 0), err(Error::CandidateExists));
}

#[test]
fn cannot_delegate_if_already_delegated() {
    let mut ext = ext_with_delegations(vec![(1, 20), (2, 30)], vec![(1, 20)], vec![(2, 1, 20)]);
    assert_eq!(ext.delegate(2, 1, 10, 1, 1), err(Error::AlreadyDelegatedCandidate));
}

#[test]
fn cannot_delegate_more_than_max_delegations() {
    let mut ext = ext_with_delegations(
        vec![(1, 20), (2, 50), (3, 20), (4, 20), (5, 20), (6, 20)],
        vec![(1, 20), (3, 20), (4, 20), (5, 20), (6, 20)],
        vec![(2, 1, 10), (2, 3, 10), (2, 4, 10), (2, 5, 10)],
    );
    assert_eq!(ext.delegate(2, 6, 10, 0, 4), err(Error::ExceedMaxDelegationsPerDelegator));
}

fn ten_accounts_two_candidates() -> Ext {
    ext_with_delegations(
        vec![(1, 20), (2, 20), (3, 20), (4, 20), (5, 20), (6, 20), (7, 20), (8, 20), (9, 20), (10, 20)],
        vec![(1, 20), (2, 20)],
        vec![(3, 1, 10), (4, 1, 10), (5, 1, 10), (6, 1, 10)],
    )
}

#[test]
fn sufficient_delegate_weight_hint_succeeds() {
    let mut ext = ten_accounts_two_candidates();
    let mut count = 4u32;
    for i in 7..11 {
        assert_eq!(ext.delegate(i, 1, 10, count, 0), Ok(()));
        count += 1;
    }
    let mut count = 0u32;
    for i in 3..11 {
        assert_eq!(ext.delegate(i, 2, 10, count, 1), Ok(()));
        count += 1;
    }
}

#[test]
fn insufficient_delegate_weight_hint_fails() {
    let mut ext = ten_accounts_two_candidates();
    let mut count = 3u32;
    for i in 7..11 {
        assert_eq!(ext.delegate(i, 1, 10, count, 0), err(Error::TooLowCandidateDelegationCountToDelegate));
    }
    count = 4;
    for i in 7..11 {
        assert_eq!(ext.delegate(i, 1, 10, count, 0), Ok(()));
        count += 1;
    }
    count = 0;
    for i in 3..11 {
        assert_eq!(ext.delegate(i, 2, 10, count, 0), err(Error::TooLowDelegationCountToDelegate));
        count += 1;
    }
}

// ~~ SCHEDULE LEAVE DELEGATORS ~~

#[test]
fn schedule_leave_delegators_event_emits_correctly() {
    let mut ext = one_delegation_ext();
    assert_eq!(ext.schedule_leave_delegators(2), Ok(()));
    assert_eq!(ext.last_event(), Event::DelegatorExitScheduled(0, 2, 2));
}

#[test]
fn cannot_schedule_leave_delegators_if_already_leaving() {
    let mut ext = one_delegation_ext();
    assert_eq!(ext.schedule_leave_delegators(2), Ok(()));
    assert_eq!(ext.schedule_leave_delegators(2), err(Error::DelegatorAlreadyLeaving));
}

#[test]
fn cannot_schedule_leave_delegators_if_not_delegator() {
    let mut ext = ext_with(vec![(1, 30), (2, 10)], vec![(1, 30)]);
    assert_eq!(ext.schedule_leave_delegators(2), err(Error::DelegatorDNE));
}

// ~~ EXECUTE LEAVE DELEGATORS ~~

#[test]
fn execute_leave_delegators_event_emits_correctly() {
    let mut ext = one_delegation_ext();
    assert_eq!(ext.schedule_leave_delegators(2), Ok(()));
    ext.roll_to(10);
    assert_eq!(ext.execute_leave_delegators(2, 1), Ok(()));
    assert!(ext.event_emitted(&Event::DelegatorLeft(2, 10)));
}

#[test]
fn execute_leave_delegators_unreserves_balance() {
    let mut ext = one_delegation_ext();
    assert_eq!(ext.reserved_balance(1, 2), 10);
    assert_eq!(ext.free_balance(1, 2), 0);
    assert_eq!(ext.schedule_leave_delegators(2), Ok(()));
    ext.roll_to(10);
    assert_eq!(ext.execute_leave_delegators(2, 1), Ok(()));
    assert_eq!(ext.reserved_balance(1, 2), 0);
    assert_eq!(ext.free_balance(1, 2), 10);
}

#[test]
fn execute_leave_delegators_decreases_total_staked() {
    let mut ext = one_delegation_ext();
    assert_eq!(ext.total(1), 40);
    assert_eq!(ext.schedule_leave_delegators(2), Ok(()));
    ext.roll_to(10);
    assert_eq!(ext.execute_leave_delegators(2, 1), Ok(()));
    assert_eq!(ext.total(1), 30);
}

#[test]
fn execute_leave_delegators_removes_delegator_state() {
    let mut ext = one_delegation_ext();
    assert!(ext.delegator_state(2).is_some());
    assert_eq!(ext.schedule_leave_delegators(2), Ok(()));
    ext.roll_to(10);
    assert_eq!(ext.execute_leave_delegators(2, 1), Ok(()));
    assert!(ext.delegator_state(2).is_none());
}

#[test]
fn execute_leave_delegators_removes_delegations_from_collator_state() {
    let mut ext = ext_with_delegations(
        vec![(1, 100), (2, 20), (3, 20), (4, 20), (5, 20)],
        vec![(2, 20), (3, 20), (4, 20), (5, 20)],
        vec![(1, 2, 10), (1, 3, 10), (1, 4, 10), (1, 5, 10)],
    );
    for i in 2..6 {
        let c = ext.candidate_state(i).expect("initialized in ext builder");
        assert_eq!(bond_tuple(&c.top_delegations[0]), (1, 10, 1));
        assert_eq!(c.delegators.0[0], 1);
        assert_eq!(c.total_backing, 30);
    }
    assert_eq!(ext.delegator_state(1).unwrap().delegations.0.len(), 4);
    assert_eq!(ext.schedule_leave_delegators(1), Ok(()));
    ext.roll_to(10);
    assert_eq!(ext.execute_leave_delegators(1, 10), Ok(()));
    for i in 2..6 {
        let c = ext.candidate_state(i).expect("initialized in ext builder");
        assert!(c.top_delegations.is_empty());
        assert!(c.delegators.0.is_empty());
        assert_eq!(c.total_backing, 20);
    }
}

#[test]
fn cannot_execute_leave_delegators_before_delay() {
    let mut ext = one_delegation_ext();
    assert_eq!(ext.schedule_leave_delegators(2), Ok(()));
    assert_eq!(ext.execute_leave_delegators(2, 1), err(Error::DelegatorCannotLeaveYet));
    ext.roll_to(10);
    assert_eq!(ext.execute_leave_delegators(2, 1), Ok(()));
}

fn four_delegators_one_candidate() -> Ext {
    ext_with_delegations(
        vec![(1, 20), (2, 20), (3, 20), (4, 20), (5, 20), (6, 20)],
        vec![(1, 20)],
        vec![(3, 1, 10), (4, 1, 10), (5, 1, 10), (6, 1, 10)],
    )
}

#[test]
fn insufficient_execute_leave_delegators_weight_hint_fails() {
    let mut ext = four_delegators_one_candidate();
    for i in 3..7 {
        assert_eq!(ext.schedule_leave_delegators(i), Ok(()));
    }
    ext.roll_to(10);
    for i in 3..7 {
        assert_eq!(ext.execute_leave_delegators(i, 0), err(Error::TooLowDelegationCountToLeaveDelegators));
    }
}

#[test]
fn sufficient_execute_leave_delegators_weight_hint_succeeds() {
    let mut ext = four_delegators_one_candidate();
    for i in 3..7 {
        assert_eq!(ext.schedule_leave_delegators(i), Ok(()));
    }
    ext.roll_to(10);
    for i in 3..7 {
        assert_eq!(ext.execute_leave_delegators(i, 1), Ok(()));
    }
}

// ~~ CANCEL LEAVE DELEGATORS ~~

#[test]
fn cancel_leave_delegators_emits_correct_event() {
    let mut ext = one_delegation_ext();
    assert_eq!(ext.schedule_leave_delegators(2), Ok(()));
    assert_eq!(ext.cancel_leave_delegators(2), Ok(()));
    assert_eq!(ext.last_event(), Event::DelegatorExitCancelled(2));
}

#[test]
fn cancel_leave_delegators_updates_delegator_state() {
    let mut ext = one_delegation_ext();
    assert_eq!(ext.schedule_leave_delegators(2), Ok(()));
    assert_eq!(ext.cancel_leave_delegators(2), Ok(()));
    let d = ext.delegator_state(2).expect("just cancelled exit so exists");
    assert!(d.is_active());
}

// ~~ SCHEDULE REVOKE DELEGATION ~~

#[test]
fn revoke_delegation_event_emits_correctly() {
    let mut ext = ext_with_delegations(
        vec![(1, 30), (2, 20), (3, 30)],
        vec![(1, 30), (3, 30)],
        vec![(2, 1, 10), (2, 3, 10)],
    );
    assert_eq!(ext.schedule_revoke_delegation(2, 1), Ok(()));
    assert_eq!(ext.last_event(), Event::DelegationRevocationScheduled(0, 2, 1, 2));
    ext.roll_to(10);
    assert_eq!(ext.execute_delegation_request(2, 1), Ok(()));
    assert!(ext.event_emitted(&Event::DelegatorLeftCandidate(2, 1, 10, 30)));
}

fn two_delegations_ext() -> Ext {
    ext_with_delegations(vec![(1, 30), (2, 20), (3, 20)], vec![(1, 30), (3, 20)], vec![(2, 1, 10), (2, 3, 10)])
}

#[test]
fn can_revoke_delegation_if_revoking_another_delegation() {
    let mut ext = two_delegations_ext();
    assert_eq!(ext.schedule_revoke_delegation(2, 1), Ok(()));
    assert_eq!(ext.schedule_revoke_delegation(2, 3), Ok(()));
}

#[test]
fn can_revoke_if_leaving() {
    let mut ext = two_delegations_ext();
    assert_eq!(ext.schedule_leave_delegators(2), Ok(()));
    assert_eq!(ext.schedule_revoke_delegation(2, 3), Ok(()));
}

#[test]
fn cannot_revoke_delegation_if_not_delegator() {
    let mut ext = ExtBuilder::default().build();
    assert_eq!(ext.schedule_revoke_delegation(2, 1), err(Error::DelegatorDNE));
}

#[test]
fn cannot_revoke_delegation_that_dne() {
    let mut ext = one_delegation_ext();
    assert_eq!(ext.schedule_revoke_delegation(2, 3), err(Error::DelegationDNE));
}

#[test]
fn can_schedule_revoke_delegation_below_min_delegator_stake() {
    let mut ext = ext_with_delegations(vec![(1, 20), (2, 8), (3, 20)], vec![(1, 20), (3, 20)], vec![(2, 1, 5), (2, 3, 3)]);
    assert_eq!(ext.schedule_revoke_delegation(2, 1), Ok(()));
}

// ~~ SCHEDULE DELEGATOR BOND MORE ~~

fn bond_more_ext() -> Ext {
    ext_with_delegations(vec![(1, 30), (2, 15)], vec![(1, 30)], vec![(2, 1, 10)])
}

#[test]
fn delegator_bond_more_event_emits_correctly() {
    let mut ext = bond_more_ext();
    assert_eq!(ext.schedule_delegator_bond_more(2, 1, 5), Ok(()));
    assert_eq!(ext.last_event(), Event::DelegationIncreaseScheduled(2, 1, 5, 2));
}

#[test]
fn delegator_bond_more_updates_delegator_state() {
    let mut ext = bond_more_ext();
    assert_eq!(ext.schedule_delegator_bond_more(2, 1, 5), Ok(()));
    let state = ext.delegator_state(2).expect("just request bonded less so exists");
    assert_eq!(
        state.requests().get(&1),
        Some(&DelegationRequest { collator: 1, amount: 5, when_executable: 2, action: DelegationChange::Increase })
    );
}

#[test]
fn can_delegator_bond_more_if_leaving() {
    let mut ext = bond_more_ext();
    assert_eq!(ext.schedule_leave_delegators(2), Ok(()));
    assert_eq!(ext.schedule_delegator_bond_more(2, 1, 5), Ok(()));
}

#[test]
fn cannot_delegator_bond_more_if_revoking() {
    let mut ext = ext_with_delegations(vec![(1, 30), (2, 25), (3, 20)], vec![(1, 30), (3, 20)], vec![(2, 1, 10), (2, 3, 10)]);
    assert_eq!(ext.schedule_revoke_delegation(2, 1), Ok(()));
    assert_eq!(ext.schedule_delegator_bond_more(2, 1, 5), err(Error::PendingDelegationRequestAlreadyExists));
}

#[test]
fn cannot_delegator_bond_more_if_not_delegator() {
    let mut ext = ExtBuilder::default().build();
    assert_eq!(ext.schedule_delegator_bond_more(2, 1, 5), err(Error::DelegatorDNE));
}

#[test]
fn cannot_delegator_bond_more_if_candidate_dne() {
    let mut ext = one_delegation_ext();
    assert_eq!(ext.schedule_delegator_bond_more(2, 3, 5), err(Error::DelegationDNE));
}

#[test]
fn cannot_delegator_bond_more_if_delegation_dne() {
    let mut ext = ext_with_delegations(vec![(1, 30), (2, 10), (3, 30)], vec![(1, 30), (3, 30)], vec![(2, 1, 10)]);
    assert_eq!(ext.schedule_delegator_bond_more(2, 3, 5), err(Error::DelegationDNE));
}

#[test]
fn cannot_delegator_bond_more_if_insufficient_balance() {
    let mut ext = one_delegation_ext();
    assert_eq!(ext.schedule_delegator_bond_more(2, 1, 5), err(Error::InsufficientBalance));
}

// ~~ SCHEDULE DELEGATOR BOND LESS ~~

#[test]
fn delegator_bond_less_event_emits_correctly() {
    let mut ext = one_delegation_ext();
    assert_eq!(ext.schedule_delegator_bond_less(2, 1, 5), Ok(()));
    assert_eq!(ext.last_event(), Event::DelegationDecreaseScheduled(2, 1, 5, 2));
}

#[test]
fn delegator_bond_less_updates_delegator_state() {
    let mut ext = one_delegation_ext();
    assert_eq!(ext.schedule_delegator_bond_less(2, 1, 5), Ok(()));
    let state = ext.delegator_state(2).expect("just request bonded less so exists");
    assert_eq!(
        state.requests().get(&1),
        Some(&DelegationRequest { collator: 1, amount: 5, when_executable: 2, action: DelegationChange::Decrease })
    );
}

#[test]
fn can_delegator_bond_less_if_leaving() {
    let mut ext = bond_more_ext();
    assert_eq!(ext.schedule_leave_delegators(2), Ok(()));
    assert_eq!(ext.schedule_delegator_bond_less(2, 1, 1), Ok(()));
}

#[test]
fn cannot_delegator_bond_less_if_revoking() {
    let mut ext = ext_with_delegations(vec![(1, 30), (2, 25), (3, 20)], vec![(1, 30), (3, 20)], vec![(2, 1, 10), (2, 3, 10)]);
    assert_eq!(ext.schedule_revoke_delegation(2, 1), Ok(()));
    assert_eq!(ext.schedule_delegator_bond_less(2, 1, 1), err(Error::PendingDelegationRequestAlreadyExists));
}

#[test]
fn cannot_delegator_bond_less_if_not_delegator() {
    let mut ext = ExtBuilder::default().build();
    assert_eq!(ext.schedule_delegator_bond_less(2, 1, 5), err(Error::DelegatorDNE));
}

#[test]
fn cannot_delegator_bond_less_if_candidate_dne() {
    let mut ext = one_delegation_ext();
    assert_eq!(ext.schedule_delegator_bond_less(2, 3, 5), err(Error::DelegationDNE));
}

#[test]
fn cannot_delegator_bond_less_if_delegation_dne() {
    let mut ext = ext_with_delegations(vec![(1, 30), (2, 10), (3, 30)], vec![(1, 30), (3, 30)], vec![(2, 1, 10)]);
    assert_eq!(ext.schedule_delegator_bond_less(2, 3, 5), err(Error::DelegationDNE));
}

#[test]
fn cannot_delegator_bond_less_more_than_total_delegation() {
    let mut ext = one_delegation_ext();
    assert_eq!(ext.schedule_delegator_bond_less(2, 1, 11), err(Error::DelegationBelowMin));
}

#[test]
fn cannot_delegator_bond_less_below_min_delegation() {
    let mut ext = ext_with_delegations(vec![(1, 30), (2, 20), (3, 30)], vec![(1, 30), (3, 30)], vec![(2, 1, 10), (2, 3, 10)]);
    assert_eq!(ext.schedule_delegator_bond_less(2, 1, 8), err(Error::DelegationBelowMin));
}

// ~~ EXECUTE PENDING DELEGATION REQUEST: REVOKE ~~

#[test]
fn execute_revoke_delegation_emits_exit_event_if_exit_happens() {
    let mut ext = one_delegation_ext();
    assert_eq!(ext.schedule_revoke_delegation(2, 1), Ok(()));
    ext.roll_to(10);
    assert_eq!(ext.execute_delegation_request(2, 1), Ok(()));
    assert!(ext.event_emitted(&Event::DelegatorLeftCandidate(2, 1, 10, 30)));
    assert!(ext.event_emitted(&Event::DelegatorLeft(2, 10)));
}

#[test]
fn revoke_delegation_executes_exit_if_last_delegation() {
    let mut ext = one_delegation_ext();
    assert_eq!(ext.schedule_revoke_delegation(2, 1), Ok(()));
    ext.roll_to(10);
    assert_eq!(ext.execute_delegation_request(2, 1), Ok(()));
    assert!(ext.event_emitted(&Event::DelegatorLeftCandidate(2, 1, 10, 30)));
    assert!(ext.event_emitted(&Event::DelegatorLeft(2, 10)));
}

#[test]
fn execute_revoke_delegation_emits_correct_event() {
    let mut ext = ext_with_delegations(vec![(1, 30), (2, 20), (3, 30)], vec![(1, 30), (3, 30)], vec![(2, 1, 10), (2, 3, 10)]);
    assert_eq!(ext.schedule_revoke_delegation(2, 1), Ok(()));
    ext.roll_to(10);
    assert_eq!(ext.execute_delegation_request(2, 1), Ok(()));
    assert!(ext.event_emitted(&Event::DelegatorLeftCandidate(2, 1, 10, 30)));
}

#[test]
fn execute_revoke_delegation_unreserves_balance() {
    let mut ext = one_delegation_ext();
    assert_eq!(ext.reserved_balance(1, 2), 10);
    assert_eq!(ext.free_balance(1, 2), 0);
    assert_eq!(ext.schedule_revoke_delegation(2, 1), Ok(()));
    ext.roll_to(10);
    assert_eq!(ext.execute_delegation_request(2, 1), Ok(()));
    assert_eq!(ext.reserved_balance(1, 2), 0);
    assert_eq!(ext.free_balance(1, 2), 10);
}

#[test]
fn execute_revoke_delegation_adds_revocation_to_delegator_state() {
    let mut ext = two_delegations_ext();
    assert!(ext.delegator_state(2).unwrap().requests.requests.get(&1).is_none());
    assert_eq!(ext.schedule_revoke_delegation(2, 1), Ok(()));
    assert!(ext.delegator_state(2).unwrap().requests.requests.get(&1).is_some());
}

#[test]
fn execute_revoke_delegation_removes_revocation_from_delegator_state_upon_execution() {
    let mut ext = two_delegations_ext();
    assert_eq!(ext.schedule_revoke_delegation(2, 1), Ok(()));
    ext.roll_to(10);
    assert_eq!(ext.execute_delegation_request(2, 1), Ok(()));
    assert!(ext.delegator_state(2).unwrap().requests.requests.get(&1).is_none());
}

#[test]
fn execute_revoke_delegation_decreases_total_staked() {
    let mut ext = one_delegation_ext();
    assert_eq!(ext.total(1), 40);
    assert_eq!(ext.schedule_revoke_delegation(2, 1), Ok(()));
    ext.roll_to(10);
    assert_eq!(ext.execute_delegation_request(2, 1), Ok(()));
    assert_eq!(ext.total(1), 30);
}

#[test]
fn execute_revoke_delegation_for_last_delegation_removes_delegator_state() {
    let mut ext = one_delegation_ext();
    assert!(ext.delegator_state(2).is_some());
    assert_eq!(ext.schedule_revoke_delegation(2, 1), Ok(()));
    ext.roll_to(10);
    assert_eq!(ext.execute_delegation_request(2, 1), Ok(()));
    assert!(ext.delegator_state(2).is_none());
}

#[test]
fn execute_revoke_delegation_removes_delegation_from_candidate_state() {
    let mut ext = one_delegation_ext();
    assert_eq!(ext.candidate_state(1).unwrap().delegators.0.len(), 1);
    assert_eq!(ext.schedule_revoke_delegation(2, 1), Ok(()));
    ext.roll_to(10);
    assert_eq!(ext.execute_delegation_request(2, 1), Ok(()));
    assert!(ext.candidate_state(1).unwrap().delegators.0.is_empty());
}

#[test]
fn can_execute_revoke_delegation_for_leaving_candidate() {
    let mut ext = one_delegation_ext();
    assert_eq!(ext.schedule_leave_candidates(1, 1), Ok(()));
    assert_eq!(ext.schedule_revoke_delegation(2, 1), Ok(()));
    ext.roll_to(10);
    assert_eq!(ext.execute_delegation_request(2, 1), Ok(()));
}

#[test]
fn can_execute_leave_candidates_if_revoking_candidate() {
    let mut ext = one_delegation_ext();
    assert_eq!(ext.schedule_leave_candidates(1, 1), Ok(()));
    assert_eq!(ext.schedule_revoke_delegation(2, 1), Ok(()));
    ext.roll_to(10);
    assert_eq!(ext.execute_leave_candidates(1, 10000), Ok(()));
    assert!(!ext.is_delegator(2));
    assert_eq!(ext.reserved_balance(1, 2), 0);
    assert_eq!(ext.free_balance(1, 2), 10);
}

#[test]
fn delegator_bond_more_after_revoke_delegation_does_not_effect_exit() {
    let mut ext = ext_with_delegations(vec![(1, 30), (2, 30), (3, 30)], vec![(1, 30), (3, 30)], vec![(2, 1, 10), (2, 3, 10)]);
    assert_eq!(ext.schedule_revoke_delegation(2, 1), Ok(()));
    assert_eq!(ext.schedule_delegator_bond_more(2, 1, 10), err(Error::PendingDelegationRequestAlreadyExists));
    assert_eq!(ext.schedule_delegator_bond_more(2, 3, 10), Ok(()));
    ext.roll_to(10);
    assert_eq!(ext.execute_delegation_request(2, 1), Ok(()));
    assert_eq!(ext.execute_delegation_request(2, 3), Ok(()));
    assert!(ext.is_delegator(2));
    assert_eq!(ext.reserved_balance(1, 2), 20);
    assert_eq!(ext.free_balance(1, 2), 10);
}

#[test]
fn delegator_bond_less_after_revoke_delegation_does_not_effect_exit() {
    let mut ext = ext_with_delegations(vec![(1, 30), (2, 30), (3, 30)], vec![(1, 30), (3, 30)], vec![(2, 1, 10), (2, 3, 10)]);
    assert_eq!(ext.schedule_revoke_delegation(2, 1), Ok(()));
    assert_eq!(ext.last_event(), Event::DelegationRevocationScheduled(0, 2, 1, 2));
    assert_eq!(ext.schedule_delegator_bond_less(2, 1, 2), err(Error::PendingDelegationRequestAlreadyExists));
    assert_eq!(ext.schedule_delegator_bond_less(2, 3, 2), Ok(()));
    ext.roll_to(10);
    assert_eq!(ext.execute_delegation_request(2, 1), Ok(()));
    assert_eq!(ext.execute_delegation_request(2, 3), Ok(()));
    assert_eq!(ext.last_event(), Event::DelegationDecreased(2, 3, 2, true));
    assert!(ext.is_delegator(2));
    assert_eq!(ext.reserved_balance(1, 2), 8);
    assert_eq!(ext.free_balance(1, 2), 22);
}

// ~~ EXECUTE BOND MORE ~~

#[test]
fn execute_delegator_bond_more_reserves_balance() {
    let mut ext = bond_more_ext();
    assert_eq!(ext.reserved_balance(1, 2), 10);
    assert_eq!(ext.free_balance(1, 2), 5);
    assert_eq!(ext.schedule_delegator_bond_more(2, 1, 5), Ok(()));
    ext.roll_to(10);
    assert_eq!(ext.execute_delegation_request(2, 1), Ok(()));
    assert_eq!(ext.reserved_balance(1, 2), 15);
    assert_eq!(ext.free_balance(1, 2), 0);
}

#[test]
fn execute_delegator_bond_more_increases_total_staked() {
    let mut ext = bond_more_ext();
    assert_eq!(ext.total(1), 40);
    assert_eq!(ext.schedule_delegator_bond_more(2, 1, 5), Ok(()));
    ext.roll_to(10);
    assert_eq!(ext.execute_delegation_request(2, 1), Ok(()));
    assert_eq!(ext.total(1), 45);
}

#[test]
fn execute_delegator_bond_more_updates_delegator_state() {
    let mut ext = bond_more_ext();
    assert_eq!(ext.schedule_delegator_bond_more(2, 1, 5), Ok(()));
    ext.roll_to(10);
    assert_eq!(ext.execute_delegation_request(2, 1), Ok(()));
}

#[test]
fn execute_delegator_bond_more_updates_candidate_state_top_delegations() {
    let mut ext = bond_more_ext();
    assert_eq!(bond_tuple(&ext.candidate_state(1).unwrap().top_delegations[0]), (2, 10, 1));
    assert_eq!(ext.schedule_delegator_bond_more(2, 1, 5), Ok(()));
    ext.roll_to(10);
    assert_eq!(ext.execute_delegation_request(2, 1), Ok(()));
    assert_eq!(bond_tuple(&ext.candidate_state(1).unwrap().top_delegations[0]), (2, 15, 1));
}

#[test]
fn execute_delegator_bond_more_updates_candidate_state_bottom_delegations() {
    let mut ext = ext_with_delegations(
        vec![(1, 30), (2, 20), (3, 20), (4, 20), (5, 20), (6, 20)],
        vec![(1, 30)],
        vec![(2, 1, 10), (3, 1, 20), (4, 1, 20), (5, 1, 20), (6, 1, 20)],
    );
    assert_eq!(bond_tuple(&ext.candidate_state(1).unwrap().bottom_delegations[0]), (2, 10, 1));
    assert_eq!(ext.schedule_delegator_bond_more(2, 1, 5), Ok(()));
    ext.roll_to(10);
    assert_eq!(ext.execute_delegation_request(2, 1), Ok(()));
    assert_eq!(ext.last_event(), Event::DelegationIncreased(2, 1, 5, false));
    assert_eq!(bond_tuple(&ext.candidate_state(1).unwrap().bottom_delegations[0]), (2, 15, 1));
}

#[test]
fn execute_delegator_bond_more_increases_total() {
    let mut ext = bond_more_ext();
    assert_eq!(ext.total(1), 40);
    assert_eq!(ext.schedule_delegator_bond_more(2, 1, 5), Ok(()));
    ext.roll_to(10);
    assert_eq!(ext.execute_delegation_request(2, 1), Ok(()));
    assert_eq!(ext.total(1), 45);
}

#[test]
fn can_execute_delegator_bond_more_for_leaving_candidate() {
    let mut ext = bond_more_ext();
    assert_eq!(ext.schedule_leave_candidates(1, 1), Ok(()));
    assert_eq!(ext.schedule_delegator_bond_more(2, 1, 5), Ok(()));
    ext.roll_to(10);
    assert_eq!(ext.execute_delegation_request(2, 1), Ok(()));
}

// ~~ EXECUTE BOND LESS ~~

#[test]
fn execute_delegator_bond_less_unreserves_balance() {
    let mut ext = one_delegation_ext();
    assert_eq!(ext.reserved_balance(1, 2), 10);
    assert_eq!(ext.free_balance(1, 2), 0);
    assert_eq!(ext.schedule_delegator_bond_less(2, 1, 5), Ok(()));
    ext.roll_to(10);
    assert_eq!(ext.execute_delegation_request(2, 1), Ok(()));
    assert_eq!(ext.reserved_balance(1, 2), 5);
    assert_eq!(ext.free_balance(1, 2), 5);
}

#[test]
fn execute_delegator_bond_less_decreases_total_staked() {
    let mut ext = one_delegation_ext();
    assert_eq!(ext.total(1), 40);
    assert_eq!(ext.schedule_delegator_bond_less(2, 1, 5), Ok(()));
    ext.roll_to(10);
    assert_eq!(ext.execute_delegation_request(2, 1), Ok(()));
    assert_eq!(ext.total(1), 35);
}

#[test]
fn execute_delegator_bond_less_updates_delegator_state() {
    let mut ext = bond_more_ext();
    assert_eq!(ext.schedule_delegator_bond_less(2, 1, 5), Ok(()));
    ext.roll_to(10);
    assert_eq!(ext.execute_delegation_request(2, 1), Ok(()));
}

#[test]
fn execute_delegator_bond_less_updates_candidate_state() {
    let mut ext = bond_more_ext();
    assert_eq!(bond_tuple(&ext.candidate_state(1).unwrap().top_delegations[0]), (2, 10, 1));
    assert_eq!(ext.schedule_delegator_bond_less(2, 1, 5), Ok(()));
    ext.roll_to(10);
    assert_eq!(ext.execute_delegation_request(2, 1), Ok(()));
    assert_eq!(bond_tuple(&ext.candidate_state(1).unwrap().top_delegations[0]), (2, 5, 1));
}

#[test]
fn execute_delegator_bond_less_decreases_total() {
    let mut ext = bond_more_ext();
    assert_eq!(ext.total(1), 40);
    assert_eq!(ext.schedule_delegator_bond_less(2, 1, 5), Ok(()));
    ext.roll_to(10);
    assert_eq!(ext.execute_delegation_request(2, 1), Ok(()));
    assert_eq!(ext.total(1), 35);
}

fn five_delegations_ext() -> Ext {
    ext_with_delegations(
        vec![(1, 20), (2, 10), (3, 11), (4, 12), (5, 14), (6, 15)],
        vec![(1, 20)],
        vec![(2, 1, 10), (3, 1, 11), (4, 1, 12), (5, 1, 14), (6, 1, 15)],
    )
}

/// Whether some bond of `pre` has another amount in `post` under the same owner.
fn some_amount_changed(pre: &[Bond], post: &[Bond]) -> bool {
    pre.iter().any(|b| post.iter().any(|p| p.owner == b.owner && p.amount != b.amount))
}

#[test]
fn execute_delegator_bond_less_updates_just_bottom_delegations() {
    let mut ext = five_delegations_ext();
    let pre = ext.candidate_state(1).expect("delegated by all so exists");
    assert_eq!(ext.schedule_delegator_bond_less(2, 1, 2), Ok(()));
    ext.roll_to(10);
    assert_eq!(ext.execute_delegation_request(2, 1), Ok(()));
    let post = ext.candidate_state(1).expect("delegated by all so exists");
    assert!(some_amount_changed(&pre.bottom_delegations, &post.bottom_delegations));
    assert!(!some_amount_changed(&pre.top_delegations, &post.top_delegations));
    assert_eq!(pre.total_backing - 2, post.total_backing);
    assert_eq!(pre.total_counted, post.total_counted);
}

#[test]
fn execute_delegator_bond_less_does_not_delete_bottom_delegations() {
    let mut ext = five_delegations_ext();
    let pre = ext.candidate_state(1).expect("delegated by all so exists");
    assert_eq!(ext.schedule_delegator_bond_less(6, 1, 4), Ok(()));
    ext.roll_to(10);
    assert_eq!(ext.execute_delegation_request(6, 1), Ok(()));
    let post = ext.candidate_state(1).expect("delegated by all so exists");
    assert!(!some_amount_changed(&pre.bottom_delegations, &post.bottom_delegations));
    assert!(some_amount_changed(&pre.top_delegations, &post.top_delegations));
    assert_eq!(pre.total_backing - 4, post.total_backing);
    assert_eq!(pre.total_counted - 4, post.total_counted);
}

#[test]
fn can_execute_delegator_bond_less_for_leaving_candidate() {
    let mut ext = ext_with_delegations(vec![(1, 30), (2, 15)], vec![(1, 30)], vec![(2, 1, 15)]);
    assert_eq!(ext.schedule_leave_candidates(1, 1), Ok(()));
    assert_eq!(ext.schedule_delegator_bond_less(2, 1, 5), Ok(()));
    ext.roll_to(10);
    assert_eq!(ext.execute_delegation_request(2, 1), Ok(()));
}

// ~~ CANCEL PENDING DELEGATION REQUEST ~~

#[test]
fn cancel_revoke_delegation_emits_correct_event() {
    let mut ext = one_delegation_ext();
    assert_eq!(ext.schedule_revoke_delegation(2, 1), Ok(()));
    assert_eq!(ext.cancel_delegation_request(2, 1), Ok(()));
    assert_eq!(
        ext.last_event(),
        Event::CancelledDelegationRequest(
            2,
            DelegationRequest { collator: 1, amount: 10, when_executable: 2, action: DelegationChange::Revoke }
        )
    );
}

#[test]
fn cancel_revoke_delegation_updates_delegator_state() {
    let mut ext = one_delegation_ext();
    assert_eq!(ext.schedule_revoke_delegation(2, 1), Ok(()));
    assert_eq!(
        ext.delegator_state(2).unwrap().requests().get(&1),
        Some(&DelegationRequest { collator: 1, amount: 10, when_executable: 2, action: DelegationChange::Revoke })
    );
    assert_eq!(ext.cancel_delegation_request(2, 1), Ok(()));
    assert!(ext.delegator_state(2).unwrap().requests().get(&1).is_none());
}

#[test]
fn cancel_delegator_bond_more_emits_correct_event() {
    let mut ext = bond_more_ext();
    assert_eq!(ext.schedule_delegator_bond_more(2, 1, 5), Ok(()));
    assert_eq!(ext.cancel_delegation_request(2, 1), Ok(()));
    assert_eq!(
        ext.last_event(),
        Event::CancelledDelegationRequest(
            2,
            DelegationRequest { collator: 1, amount: 5, when_executable: 2, action: DelegationChange::Increase }
        )
    );
}

#[test]
fn cancel_delegator_bond_more_updates_delegator_state() {
    let mut ext = bond_more_ext();
    assert_eq!(ext.schedule_delegator_bond_more(2, 1, 5), Ok(()));
    assert_eq!(
        ext.delegator_state(2).unwrap().requests().get(&1),
        Some(&DelegationRequest { collator: 1, amount: 5, when_executable: 2, action: DelegationChange::Increase })
    );
    assert_eq!(ext.cancel_delegation_request(2, 1), Ok(()));
    assert!(ext.delegator_state(2).unwrap().requests().get(&1).is_none());
}

fn bond_less_ext() -> Ext {
    ext_with_delegations(vec![(1, 30), (2, 15)], vec![(1, 30)], vec![(2, 1, 15)])
}

#[test]
fn cancel_delegator_bond_less_correct_event() {
    let mut ext = bond_less_ext();
    assert_eq!(ext.schedule_delegator_bond_less(2, 1, 5), Ok(()));
    assert_eq!(ext.cancel_delegation_request(2, 1), Ok(()));
    assert_eq!(
        ext.last_event(),
        Event::CancelledDelegationRequest(
            2,
            DelegationRequest { collator: 1, amount: 5, when_executable: 2, action: DelegationChange::Decrease }
        )
    );
}

#[test]
fn cancel_delegator_bond_less_updates_delegator_state() {
    let mut ext = bond_less_ext();
    assert_eq!(ext.schedule_delegator_bond_less(2, 1, 5), Ok(()));
    assert_eq!(
        ext.delegator_state(2).unwrap().requests().get(&1),
        Some(&DelegationRequest { collator: 1, amount: 5, when_executable: 2, action: DelegationChange::Decrease })
    );
    assert_eq!(ext.cancel_delegation_request(2, 1), Ok(()));
    assert!(ext.delegator_state(2).unwrap().requests().get(&1).is_none());
}

// ~~ PROPERTY-BASED TESTS ~~

#[test]
fn delegator_schedule_revocation() {
    let mut ext = ext_with_delegations(
        vec![(1, 20), (2, 40), (3, 20), (4, 20), (5, 20)],
        vec![(1, 20), (3, 20), (4, 20), (5, 20)],
        vec![(2, 1, 10), (2, 3, 10), (2, 4, 10)],
    );
    assert_eq!(ext.schedule_revoke_delegation(2, 1), Ok(()));
    ext.roll_to(10);
    assert_eq!(ext.execute_delegation_request(2, 1), Ok(()));
    assert_eq!(ext.delegate(2, 5, 10, 0, 2), Ok(()));
    assert_eq!(ext.schedule_revoke_delegation(2, 3), Ok(()));
    assert_eq!(ext.schedule_revoke_delegation(2, 4), Ok(()));
    ext.roll_to(20);
    assert_eq!(ext.execute_delegation_request(2, 3), Ok(()));
    assert_eq!(ext.execute_delegation_request(2, 4), Ok(()));
}

fn chosen(round: RoundIndex, list: &[(AccountId, Balance)]) -> Vec<Event> {
    list.iter().map(|&(a, t)| Event::CollatorChosen(round, a, t)).collect()
}

fn five_chosen(round: RoundIndex, first: u64, total_first: Balance, total: Balance) -> Vec<Event> {
    let mut v = chosen(round, &[(1, total_first), (2, 40), (3, 20), (4, 20), (5, 10)]);
    v.push(Event::NewRound(first, round - 1, 5, total));
    v
}

fn payout_events(round: RoundIndex, collator_reward: Balance, dels: &[(AccountId, Balance)]) -> Vec<Event> {
    let mut v = vec![Event::Rewarded(round, 1, collator_reward)];
    v.extend(dels.iter().map(|&(d, r)| Event::DelegatorDueReward(round, 1, d, r)));
    v
}

#[test]
fn reworked_deprecated_test() {
    let mut ext = ExtBuilder::default()
        .with_staking_tokens(vec![
            (999, 600, 0),
            (1, 100, 1),
            (2, 100, 1),
            (3, 100, 1),
            (4, 100, 1),
            (5, 100, 1),
            (6, 100, 1),
            (7, 100, 1),
            (8, 100, 1),
            (9, 100, 1),
            (10, 100, 1),
            (11, 1, 1),
        ])
        .with_default_token_candidates(vec![(1, 20), (2, 20), (3, 20), (4, 20), (5, 10)])
        .with_delegations(vec![(6, 1, 10), (7, 1, 10), (8, 2, 10), (9, 2, 10), (10, 1, 10)])
        .build();
    assert_eq!(ext.free_balance(1, 11), 1);
    ext.roll_to(8);
    let mut expected = five_chosen(2, 5, 50, 140);
    assert_eq!(ext.events, expected);
    assert_eq!(ext.free_balance(1, 11), 1);
    ext.roll_to(10);
    expected.extend(five_chosen(3, 10, 50, 140));
    assert_eq!(ext.events, expected);
    ext.set_author(2, 1, 100);
    ext.roll_to(20);
    ext.payout_collator_for_round(2);
    let old_dels = [(6, 48), (7, 48), (10, 48)];
    expected.extend(five_chosen(4, 15, 50, 140));
    expected.extend(five_chosen(5, 20, 50, 140));
    expected.extend(payout_events(2, 157, &old_dels));
    expected.push(Event::CollatorRewardsDistributed(1, PayoutRounds::All));
    assert_eq!(ext.events, expected);
    assert_eq!(ext.free_balance(0, 11), 0);
    ext.set_author(3, 1, 100);
    ext.set_author(4, 1, 100);
    ext.set_author(5, 1, 100);
    assert_eq!(ext.schedule_leave_delegators(66), err(Error::DelegatorDNE));
    assert_eq!(ext.schedule_leave_delegators(6), Ok(()));
    ext.roll_to(30);
    ext.payout_collator_for_round(3);
    ext.payout_collator_for_round(4);
    assert_eq!(ext.execute_leave_delegators(6, 10), Ok(()));
    ext.roll_to(35);
    ext.payout_collator_for_round(5);
    expected.push(Event::DelegatorExitScheduled(4, 6, 6));
    expected.extend(five_chosen(6, 25, 50, 140));
    expected.extend(five_chosen(7, 30, 50, 140));
    expected.extend(payout_events(3, 157, &old_dels));
    expected.extend(payout_events(4, 157, &old_dels));
    expected.push(Event::CollatorRewardsDistributed(1, PayoutRounds::All));
    expected.push(Event::DelegatorLeftCandidate(6, 1, 10, 40));
    expected.push(Event::DelegatorLeft(6, 10));
    expected.extend(five_chosen(8, 35, 40, 130));
    expected.extend(payout_events(5, 157, &old_dels));
    expected.push(Event::CollatorRewardsDistributed(1, PayoutRounds::All));
    assert_eq!(ext.events, expected);
    assert_eq!(ext.free_balance(0, 11), 0);
    ext.set_author(6, 1, 100);
    ext.roll_to(40);
    ext.payout_collator_for_round(6);
    expected.extend(five_chosen(9, 40, 40, 130));
    expected.extend(payout_events(6, 157, &old_dels));
    expected.push(Event::CollatorRewardsDistributed(1, PayoutRounds::All));
    assert_eq!(ext.events, expected);
    assert_eq!(ext.free_balance(0, 11), 0);
    ext.set_author(7, 1, 100);
    ext.roll_to(45);
    ext.payout_collator_for_round(7);
    expected.extend(five_chosen(10, 45, 40, 130));
    expected.extend(payout_events(7, 157, &old_dels));
    expected.push(Event::CollatorRewardsDistributed(1, PayoutRounds::All));
    assert_eq!(ext.events, expected);
    assert_eq!(ext.free_balance(0, 11), 0);
    ext.set_author(8, 1, 100);
    assert_eq!(ext.delegate(8, 1, 10, 10, 10), Ok(()));
    ext.roll_to(50);
    ext.payout_collator_for_round(8);
    let new_dels = [(7, 61), (10, 61)];
    expected.push(Event::Delegation(8, 10, 1, DelegatorAdded::AddedToTop { new_total: 50 }));
    expected.extend(five_chosen(11, 50, 50, 140));
    expected.extend(payout_events(8, 182, &new_dels));
    expected.push(Event::CollatorRewardsDistributed(1, PayoutRounds::All));
    assert_eq!(ext.events, expected);
    assert_eq!(ext.free_balance(0, 11), 0);
    ext.set_author(9, 1, 100);
    ext.set_author(10, 1, 100);
    ext.roll_to(55);
    ext.payout_collator_for_round(9);
    expected.extend(five_chosen(12, 55, 50, 140));
    expected.extend(payout_events(9, 182, &new_dels));
    expected.push(Event::CollatorRewardsDistributed(1, PayoutRounds::All));
    assert_eq!(ext.events, expected);
    assert_eq!(ext.free_balance(0, 11), 0);
    ext.roll_to(60);
    ext.payout_collator_for_round(10);
    expected.extend(five_chosen(13, 60, 50, 140));
    expected.extend(payout_events(10, 182, &new_dels));
    expected.push(Event::CollatorRewardsDistributed(1, PayoutRounds::All));
    assert_eq!(ext.events, expected);
    assert_eq!(ext.free_balance(0, 11), 0);
}

#[test]
fn paid_collator_commission_matches_config() {
    let mut ext = ExtBuilder::default()
        .with_staking_tokens(vec![(999, 600, 0), (1, 100, 1), (2, 100, 1), (3, 100, 1), (4, 100, 1), (5, 100, 1), (6, 100, 1)])
        .with_default_token_candidates(vec![(1, 20)])
        .with_delegations(vec![(2, 1, 10), (3, 1, 10)])
        .build();
    ext.roll_to(7);
    let mut expected = vec![Event::CollatorChosen(2, 1, 40), Event::NewRound(5, 1, 1, 40)];
    assert_eq!(ext.events, expected);
    assert_eq!(ext.join_candidates(4, 20, 1, 100, 10000), Ok(()));
    assert_eq!(ext.last_event(), Event::JoinedCollatorCandidates(4, 20, 60));
    ext.roll_to(8);
    assert_eq!(ext.delegate(5, 4, 10, 10, 10), Ok(()));
    assert_eq!(ext.delegate(6, 4, 10, 10, 10), Ok(()));
    ext.roll_to(10);
    expected.extend(vec![
        Event::JoinedCollatorCandidates(4, 20, 60),
        Event::Delegation(5, 10, 4, DelegatorAdded::AddedToTop { new_total: 30 }),
        Event::Delegation(6, 10, 4, DelegatorAdded::AddedToTop { new_total: 40 }),
        Event::CollatorChosen(3, 1, 40),
        Event::CollatorChosen(3, 4, 40),
        Event::NewRound(10, 2, 2, 80),
    ]);
    assert_eq!(ext.events, expected);
    ext.roll_to(15);
    expected.extend(vec![Event::CollatorChosen(4, 1, 40), Event::CollatorChosen(4, 4, 40), Event::NewRound(15, 3, 2, 80)]);
    assert_eq!(ext.events, expected);
    ext.set_author(3, 4, 100);
    ext.roll_to(25);
    ext.payout_collator_for_round(3);
    expected.extend(vec![
        Event::CollatorChosen(5, 1, 40),
        Event::CollatorChosen(5, 4, 40),
        Event::NewRound(20, 4, 2, 80),
        Event::CollatorChosen(6, 1, 40),
        Event::CollatorChosen(6, 4, 40),
        Event::NewRound(25, 5, 2, 80),
        Event::Rewarded(3, 4, 182),
        Event::DelegatorDueReward(3, 4, 5, 61),
        Event::DelegatorDueReward(3, 4, 6, 61),
        Event::CollatorRewardsDistributed(4, PayoutRounds::All),
    ]);
    assert_eq!(ext.events, expected);
}

#[test]
fn collator_exit_executes_after_delay() {
    let mut ext = ext_with_delegations(
        vec![(1, 1000), (2, 300), (3, 100), (4, 100), (5, 100), (6, 100), (7, 100), (8, 9), (9, 4)],
        vec![(1, 500), (2, 200)],
        vec![(3, 1, 100), (4, 1, 100), (5, 2, 100), (6, 2, 100)],
    );
    ext.roll_to(11);
    assert_eq!(ext.schedule_leave_candidates(2, 2), Ok(()));
    assert_eq!(ext.candidate_state(2).unwrap().state, CollatorStatus::Leaving(4));
    ext.roll_to(21);
    assert_eq!(ext.execute_leave_candidates(2, 10000), Ok(()));
    let expected = vec![
        Event::CollatorChosen(2, 1, 700),
        Event::CollatorChosen(2, 2, 400),
        Event::NewRound(5, 1, 2, 1100),
        Event::CollatorChosen(3, 1, 700),
        Event::CollatorChosen(3, 2, 400),
        Event::NewRound(10, 2, 2, 1100),
        Event::CandidateScheduledExit(2, 2, 4),
        Event::CollatorChosen(4, 1, 700),
        Event::NewRound(15, 3, 1, 700),
        Event::CollatorChosen(5, 1, 700),
        Event::NewRound(20, 4, 1, 700),
        Event::CandidateLeft(2, 400, 700),
    ];
    assert_eq!(ext.events, expected);
}

#[test]
fn collator_selection_chooses_top_candidates() {
    let mut ext = ext_with(
        vec![(1, 1000), (2, 1000), (3, 1000), (4, 1000), (5, 1000), (6, 1000), (7, 33), (8, 33), (9, 33)],
        vec![(1, 100), (2, 90), (3, 80), (4, 70), (5, 60), (6, 50)],
    );
    ext.roll_to(8);
    let top5 = |r: RoundIndex| chosen(r, &[(1, 100), (2, 90), (3, 80), (4, 70), (5, 60)]);
    let mut expected = top5(2);
    expected.push(Event::NewRound(5, 1, 5, 400));
    assert_eq!(ext.events, expected);
    assert_eq!(ext.schedule_leave_candidates(6, 6), Ok(()));
    assert_eq!(ext.last_event(), Event::CandidateScheduledExit(1, 6, 3));
    ext.roll_to(21);
    assert_eq!(ext.execute_leave_candidates(6, 10000), Ok(()));
    assert_eq!(ext.join_candidates(6, 69, 1, 100, 10000), Ok(()));
    assert_eq!(ext.last_event(), Event::JoinedCollatorCandidates(6, 69, 469));
    ext.roll_to(27);
    expected.push(Event::CandidateScheduledExit(1, 6, 3));
    for (r, first) in [(3u32, 10u64), (4, 15), (5, 20)] {
        expected.extend(top5(r));
        expected.push(Event::NewRound(first, r - 1, 5, 400));
    }
    expected.push(Event::CandidateLeft(6, 50, 400));
    expected.push(Event::JoinedCollatorCandidates(6, 69, 469));
    expected.extend(chosen(6, &[(1, 100), (2, 90), (3, 80), (4, 70), (6, 69)]));
    expected.push(Event::NewRound(25, 5, 5, 409));
    assert_eq!(ext.events, expected);
}

#[test]
fn multiple_delegations() {
    let mut ext = ext_with_delegations(
        vec![(1, 100), (2, 100), (3, 100), (4, 100), (5, 100), (6, 100), (7, 100), (8, 100), (9, 100), (10, 100)],
        vec![(1, 20), (2, 20), (3, 20), (4, 20), (5, 10)],
        vec![(6, 1, 10), (7, 1, 10), (8, 2, 10), (9, 2, 10), (10, 1, 10)],
    );
    ext.roll_to(8);
    let mut expected = five_chosen(2, 5, 50, 140);
    assert_eq!(ext.events, expected);
    assert_eq!(ext.delegate(6, 2, 10, 10, 10), Ok(()));
    assert_eq!(ext.delegate(6, 3, 10, 10, 10), Ok(()));
    assert_eq!(ext.delegate(6, 4, 10, 10, 10), Ok(()));
    ext.roll_to(16);
    expected.push(Event::Delegation(6, 10, 2, DelegatorAdded::AddedToTop { new_total: 50 }));
    expected.push(Event::Delegation(6, 10, 3, DelegatorAdded::AddedToTop { new_total: 30 }));
    expected.push(Event::Delegation(6, 10, 4, DelegatorAdded::AddedToTop { new_total: 30 }));
    let mid = [(1, 50), (2, 50), (3, 30), (4, 30), (5, 10)];
    expected.extend(chosen(3, &mid));
    expected.push(Event::NewRound(10, 2, 5, 170));
    expected.extend(chosen(4, &mid));
    expected.push(Event::NewRound(15, 3, 5, 170));
    assert_eq!(ext.events, expected);
    ext.roll_to(21);
    assert_eq!(ext.delegate(7, 2, 80, 10, 10), Ok(()));
    assert_eq!(ext.delegate(10, 2, 10, 10, 10), Ok(()));
    ext.roll_to(26);
    expected.extend(chosen(5, &mid));
    expected.push(Event::NewRound(20, 4, 5, 170));
    expected.push(Event::Delegation(7, 80, 2, DelegatorAdded::AddedToTop { new_total: 130 }));
    expected.push(Event::Delegation(10, 10, 2, DelegatorAdded::AddedToBottom));
    expected.extend(chosen(6, &[(1, 50), (2, 130), (3, 30), (4, 30), (5, 10)]));
    expected.push(Event::NewRound(25, 5, 5, 250));
    assert_eq!(ext.events, expected);
    assert_eq!(ext.schedule_leave_candidates(2, 5), Ok(()));
    assert_eq!(ext.last_event(), Event::CandidateScheduledExit(5, 2, 7));
    ext.roll_to(31);
    expected.push(Event::CandidateScheduledExit(5, 2, 7));
    expected.extend(chosen(7, &[(1, 50), (3, 30), (4, 30), (5, 10)]));
    expected.push(Event::NewRound(30, 6, 4, 120));
    assert_eq!(ext.events, expected);
    assert_eq!(ext.delegator_state(7).unwrap().delegations.0.len(), 2);
    assert_eq!(ext.delegator_state(6).unwrap().delegations.0.len(), 4);
    assert_eq!(ext.reserved_balance(1, 6), 40);
    assert_eq!(ext.reserved_balance(1, 7), 90);
    assert_eq!(ext.free_balance(1, 6), 60);
    assert_eq!(ext.free_balance(1, 7), 10);
    ext.roll_to(40);
    assert_eq!(ext.execute_leave_candidates(2, 10000), Ok(()));
    assert_eq!(ext.delegator_state(7).unwrap().delegations.0.len(), 1);
    assert_eq!(ext.delegator_state(6).unwrap().delegations.0.len(), 3);
    assert_eq!(ext.reserved_balance(1, 6), 30);
    assert_eq!(ext.reserved_balance(1, 7), 10);
    assert_eq!(ext.free_balance(1, 6), 70);
    assert_eq!(ext.free_balance(1, 7), 90);
}

#[test]
fn bottom_delegations_are_empty_when_top_delegations_not_full() {
    let mut ext = ext_with(vec![(1, 20), (2, 10), (3, 10), (4, 10), (5, 10)], vec![(1, 20)]);
    let c = ext.candidate_state(1).unwrap();
    assert!(c.top_delegations.is_empty());
    assert!(c.bottom_delegations.is_empty());
    for (i, d) in (2..6).enumerate() {
        assert_eq!(ext.delegate(d, 1, 10, 10, 10), Ok(()));
        let c = ext.candidate_state(1).unwrap();
        assert_eq!(c.top_delegations.len(), i + 1);
        assert!(c.bottom_delegations.is_empty());
    }
}

fn eight_delegators_ext() -> Ext {
    ext_with_delegations(
        vec![(1, 20), (3, 19), (4, 20), (5, 21), (6, 22), (7, 15), (8, 16), (9, 17), (10, 18)],
        vec![(1, 20)],
        vec![(3, 1, 11), (4, 1, 12), (5, 1, 13), (6, 1, 14), (7, 1, 15), (8, 1, 16), (9, 1, 17), (10, 1, 18)],
    )
}

fn assert_pool_bond(ext: &Ext, account: AccountId, bond: Balance) {
    for c in ext.candidate_pool() {
        if c.owner == account {
            assert_eq!(c.amount, bond);
        }
    }
}

#[test]
fn candidate_pool_updates_when_total_counted_changes() {
    let mut ext = eight_delegators_ext();
    assert_pool_bond(&ext, 1, 86);
    assert_eq!(ext.schedule_delegator_bond_more(3, 1, 8), Ok(()));
    ext.roll_to(10);
    assert_eq!(ext.execute_delegation_request(3, 1), Ok(()));
    assert_pool_bond(&ext, 1, 90);
    assert_eq!(ext.schedule_delegator_bond_more(4, 1, 8), Ok(()));
    ext.roll_to(20);
    assert_eq!(ext.execute_delegation_request(4, 1), Ok(()));
    assert_pool_bond(&ext, 1, 94);
    assert_eq!(ext.schedule_delegator_bond_less(10, 1, 3), Ok(()));
    ext.roll_to(30);
    assert_eq!(ext.execute_delegation_request(10, 1), Ok(()));
    assert_pool_bond(&ext, 1, 92);
    assert_eq!(ext.schedule_delegator_bond_less(9, 1, 4), Ok(()));
    ext.roll_to(40);
    assert_eq!(ext.execute_delegation_request(9, 1), Ok(()));
    assert_pool_bond(&ext, 1, 90);
}

#[test]
fn only_top_collators_are_counted() {
    let mut ext = eight_delegators_ext();
    for i in 3..11 {
        assert!(ext.is_delegator(i));
    }
    let c = ext.candidate_state(1).unwrap();
    assert_eq!(c.total_counted, 86);
    assert_eq!(c.total_counted + 50, c.total_backing);
    let steps = [(3u64, 2u32, 10u64, 90u128, 54u128), (4, 4, 20, 94, 58), (5, 6, 30, 98, 62), (6, 8, 40, 102, 66)];
    for (d, when, block, counted, rest) in steps {
        assert_eq!(ext.schedule_delegator_bond_more(d, 1, 8), Ok(()));
        assert!(ext.event_emitted(&Event::DelegationIncreaseScheduled(d, 1, 8, when)));
        ext.roll_to(block);
        assert_eq!(ext.execute_delegation_request(d, 1), Ok(()));
        assert!(ext.event_emitted(&Event::DelegationIncreased(d, 1, 8, true)));
        let c = ext.candidate_state(1).unwrap();
        assert_eq!(c.total_counted, counted);
        assert_eq!(c.total_counted + rest, c.total_backing);
    }
}

#[test]
fn delegation_events_convey_correct_position() {
    let mut ext = ext_with_delegations(
        vec![(1, 100), (2, 100), (3, 100), (4, 100), (5, 100), (6, 100), (7, 100), (8, 100), (9, 100), (10, 100)],
        vec![(1, 20), (2, 20)],
        vec![(3, 1, 11), (4, 1, 12), (5, 1, 13), (6, 1, 14)],
    );
    let counted_rest = |ext: &Ext| {
        let c = ext.candidate_state(1).unwrap();
        (c.total_counted, c.total_backing - c.total_counted)
    };
    assert_eq!(counted_rest(&ext), (70, 0));
    assert_eq!(ext.delegate(7, 1, 15, 10, 10), Ok(()));
    assert!(ext.event_emitted(&Event::Delegation(7, 15, 1, DelegatorAdded::AddedToTop { new_total: 74 })));
    assert_eq!(counted_rest(&ext), (74, 11));
    assert_eq!(ext.delegate(8, 1, 10, 10, 10), Ok(()));
    assert!(ext.event_emitted(&Event::Delegation(8, 10, 1, DelegatorAdded::AddedToBottom)));
    assert_eq!(counted_rest(&ext), (74, 21));
    assert_eq!(ext.schedule_delegator_bond_more(8, 1, 3), Ok(()));
    assert!(ext.event_emitted(&Event::DelegationIncreaseScheduled(8, 1, 3, 2)));
    ext.roll_to(10);
    assert_eq!(ext.execute_delegation_request(8, 1), Ok(()));
    assert!(ext.event_emitted(&Event::DelegationIncreased(8, 1, 3, true)));
    assert_eq!(counted_rest(&ext), (75, 23));
    assert_eq!(ext.schedule_delegator_bond_more(3, 1, 1), Ok(()));
    assert!(ext.event_emitted(&Event::DelegationIncreaseScheduled(3, 1, 1, 4)));
    ext.roll_to(20);
    assert_eq!(ext.execute_delegation_request(3, 1), Ok(()));
    assert!(ext.event_emitted(&Event::DelegationIncreased(3, 1, 1, false)));
    assert_eq!(counted_rest(&ext), (75, 24));
    assert_eq!(ext.schedule_delegator_bond_less(6, 1, 2), Ok(()));
    assert!(ext.event_emitted(&Event::DelegationDecreaseScheduled(6, 1, 2, 6)));
    ext.roll_to(30);
    assert_eq!(ext.execute_delegation_request(6, 1), Ok(()));
    assert!(ext.event_emitted(&Event::DelegationDecreased(6, 1, 2, true)));
    assert_eq!(counted_rest(&ext), (73, 24));
    assert_eq!(ext.schedule_delegator_bond_less(6, 1, 1), Ok(()));
    assert!(ext.event_emitted(&Event::DelegationDecreaseScheduled(6, 1, 1, 8)));
    ext.roll_to(40);
    assert_eq!(ext.execute_delegation_request(6, 1), Ok(()));
    assert!(ext.event_emitted(&Event::DelegationDecreased(6, 1, 1, false)));
    assert_eq!(counted_rest(&ext), (73, 23));
}

#[test]
fn start_and_new_session_works() {
    let mut ext = ext_with(vec![(1, 100), (2, 100), (3, 100), (4, 100), (5, 100)], vec![(1, 20), (2, 20)]);
    let mut expected: Vec<Event> = vec![];
    assert_eq!(ext.events, expected);
    assert_eq!(ext.at_stake(0, 1).bond, 20);
    assert_eq!(ext.at_stake(0, 2).bond, 20);
    assert_eq!(ext.at_stake(1, 1).bond, 20);
    assert_eq!(ext.at_stake(1, 2).bond, 20);
    ext.roll_to(5);
    assert_eq!(ext.at_stake(2, 1).bond, 20);
    assert_eq!(ext.at_stake(2, 2).bond, 20);
    assert_eq!(ext.st.new_session(vec![]), Some(vec![1, 2]));
    expected.extend(vec![Event::CollatorChosen(2, 1, 20), Event::CollatorChosen(2, 2, 20), Event::NewRound(5, 1, 2, 40)]);
    assert_eq!(ext.events, expected);
    assert_eq!(ext.join_candidates(3, 10, 1, 2, 10000), Ok(()));
    ext.roll_to(10);
    assert_eq!(ext.at_stake(3, 1).bond, 20);
    assert_eq!(ext.at_stake(3, 2).bond, 20);
    assert_eq!(ext.at_stake(3, 3).bond, 10);
    assert_eq!(ext.st.new_session(vec![]), Some(vec![1, 2, 3]));
    expected.extend(vec![
        Event::JoinedCollatorCandidates(3, 10, 50),
        Event::CollatorChosen(3, 1, 20),
        Event::CollatorChosen(3, 2, 20),
        Event::CollatorChosen(3, 3, 10),
        Event::NewRound(10, 2, 3, 50),
    ]);
    assert_eq!(ext.events, expected);
    assert_eq!(ext.join_candidates(4, 10, 1, 3, 10000), Ok(()));
    assert_eq!(ext.join_candidates(5, 10, 1, 4, 10000), Ok(()));
    ext.roll_to(15);
    for (c, b) in [(1, 20), (2, 20), (3, 10), (4, 10), (5, 10)] {
        assert_eq!(ext.at_stake(4, c).bond, b);
    }
    assert_eq!(ext.st.new_session(vec![]), Some(vec![1, 2, 3, 4, 5]));
    expected.extend(vec![
        Event::JoinedCollatorCandidates(4, 10, 60),
        Event::JoinedCollatorCandidates(5, 10, 70),
        Event::CollatorChosen(4, 1, 20),
        Event::CollatorChosen(4, 2, 20),
        Event::CollatorChosen(4, 3, 10),
        Event::CollatorChosen(4, 4, 10),
        Event::CollatorChosen(4, 5, 10),
        Event::NewRound(15, 3, 5, 70),
    ]);
    assert_eq!(ext.events, expected);
}

fn listed(ext: &Ext, t: CurrencyId) -> Option<Option<(Balance, Balance)>> {
    ext.st.staking_liquidity_tokens.get(&t).cloned()
}

#[test]
fn adding_removing_staking_token_works() {
    let mut ext = ExtBuilder::default()
        .with_staking_tokens(vec![
            (999, 100, 0),
            (1, 100, 1),
            (2, 100, 2),
            (3, 100, 3),
            (4, 100, 4),
            (5, 100, 5),
            (6, 100, 6),
            (7, 100, 7),
            (8, 100, 1),
            (9, 100, 2),
            (10, 100, 3),
        ])
        .with_candidates(vec![(1, 20, 1), (2, 20, 2)])
        .build();
    assert_eq!(listed(&ext, 1), Some(Some((1, 1))));
    assert_eq!(listed(&ext, 2), Some(Some((2, 1))));
    for t in 3..8 {
        assert_eq!(listed(&ext, t), None);
    }
    assert_eq!(ext.join_candidates(8, 10, 1, 100, 10000), Ok(()));
    assert_eq!(ext.join_candidates(9, 10, 2, 100, 10000), Ok(()));
    for t in 3..8u32 {
        assert_eq!(ext.join_candidates(t as u64, 10, t, 100, 10000), err(Error::StakingLiquidityTokenNotListed));
    }
    assert_eq!(ext.add_staking_liquidity_token(Liquidity(3), 100), Ok(()));
    assert_eq!(ext.join_candidates(3, 10, 3, 100, 10000), Ok(()));
    assert_eq!(listed(&ext, 3), Some(None));
    for t in 4..8u32 {
        assert_eq!(listed(&ext, t), None);
        assert_eq!(ext.join_candidates(t as u64, 10, t, 100, 10000), err(Error::StakingLiquidityTokenNotListed));
    }
    ext.roll_to(5);
    assert_eq!(listed(&ext, 3), Some(Some((5, 1))));
    for t in 4..8u32 {
        assert_eq!(listed(&ext, t), None);
        assert_eq!(ext.join_candidates(t as u64, 10, t, 100, 10000), err(Error::StakingLiquidityTokenNotListed));
    }
    assert_eq!(ext.add_staking_liquidity_token(Liquidity(3), 100), err(Error::StakingLiquidityTokenAlreadyListed));
    assert_eq!(ext.remove_staking_liquidity_token(Liquidity(4), 100), err(Error::StakingLiquidityTokenNotListed));
    assert_eq!(ext.remove_staking_liquidity_token(Liquidity(3), 100), Ok(()));
    assert_eq!(ext.join_candidates(10, 10, 3, 100, 10000), err(Error::StakingLiquidityTokenNotListed));
    ext.roll_to(10);
    assert_eq!(listed(&ext, 3), None);
    for t in 4..8u32 {
        assert_eq!(ext.add_staking_liquidity_token(Liquidity(t), 100), Ok(()));
    }
    assert_eq!(ext.join_candidates(4, 10, 4, 100, 10000), Ok(()));
    assert_eq!(ext.join_candidates(6, 10, 6, 100, 10000), Ok(()));
    assert_eq!(ext.join_candidates(7, 10, 7, 100, 10000), Ok(()));
    ext.roll_to(15);
    assert_eq!(listed(&ext, 1), Some(Some((1, 1))));
    assert_eq!(listed(&ext, 2), Some(Some((2, 1))));
    assert_eq!(listed(&ext, 3), None);
    assert_eq!(listed(&ext, 4), Some(Some((1, 1))));
    assert_eq!(listed(&ext, 5), Some(Some((1, 2))));
    assert_eq!(listed(&ext, 6), Some(Some((1, 5))));
    assert_eq!(listed(&ext, 7), Some(None));
}

fn seven_token_tokens(six: Balance) -> Vec<(AccountId, Balance, CurrencyId)> {
    vec![
        (999, 100, 0),
        (1, 100, 1),
        (2, 100, 2),
        (3, 100, 3),
        (4, 100, 4),
        (5, 100, 5),
        (6, six, 6),
        (7, 100, 7),
        (8, 100, 1),
        (8, 100, 2),
        (9, 100, 1),
        (9, 100, 2),
        (10, 100, 3),
        (11, 100, 7),
    ]
}

#[test]
fn delegation_tokens_work() {
    let mut ext = ExtBuilder::default()
        .with_staking_tokens(seven_token_tokens(100))
        .with_candidates(vec![(1, 10, 1), (2, 10, 2), (3, 20, 3), (4, 20, 4), (5, 20, 5), (6, 20, 6), (7, 20, 7)])
        .with_delegations(vec![(8, 1, 5), (8, 2, 10), (9, 1, 5), (10, 3, 10), (11, 7, 10)])
        .build();
    let before = ext.st.clone();
    assert_eq!(ext.delegate(9, 3, 10, 100, 100), Err(Fail::BalanceTooLow));
    assert_eq!(ext.st.delegator_state, before.delegator_state);
    assert_eq!(ext.st.candidate_state, before.candidate_state);
}

fn stake_of(ext: &Ext, round: RoundIndex, c: AccountId) -> (Balance, Balance) {
    let s = ext.at_stake(round, c);
    (s.bond, s.total)
}

#[test]
fn token_valuations_works() {
    let mut ext = ExtBuilder::default()
        .with_staking_tokens(seven_token_tokens(300))
        .with_candidates(vec![(1, 10, 1), (2, 10, 2), (3, 10, 3), (4, 20, 4), (5, 20, 5), (6, 200, 6), (7, 10, 7)])
        .with_delegations(vec![(8, 1, 5), (8, 2, 10), (9, 1, 5), (10, 3, 10), (11, 7, 10)])
        .build();
    assert_eq!(ext.set_total_selected(10), Ok(()));
    let pool: Vec<_> = ext.candidate_pool().iter().map(bond_tuple).collect();
    assert_eq!(pool, vec![(1, 20, 1), (2, 20, 2), (3, 20, 3), (4, 20, 4), (5, 20, 5), (6, 200, 6), (7, 20, 7)]);
    for r in 0..2 {
        assert_eq!(stake_of(&ext, r, 1), (10, 20));
        assert_eq!(stake_of(&ext, r, 2), (10, 20));
        assert_eq!(stake_of(&ext, r, 3), (10, 20));
        assert_eq!(stake_of(&ext, r, 4), (20, 20));
        assert_eq!(stake_of(&ext, r, 5), (0, 0));
        assert_eq!(stake_of(&ext, r, 6), (200, 200));
    }
    assert_eq!(stake_of(&ext, 1, 7), (0, 0));
    ext.roll_to(5);
    for (c, s) in [(1, (10, 20)), (2, (10, 20)), (3, (10, 20)), (4, (20, 20)), (5, (20, 20)), (6, (200, 200)), (7, (0, 0))] {
        assert_eq!(stake_of(&ext, 2, c), s);
    }
    let mut expected = vec![Event::TotalSelectedSet(5, 10)];
    expected.extend(chosen(2, &[(1, 20), (2, 40), (3, 100), (4, 20), (5, 10), (6, 40)]));
    expected.push(Event::NewRound(5, 1, 6, 230));
    assert_eq!(ext.events, expected);
    assert_eq!(ext.remove_staking_liquidity_token(PairedOrLiquidityToken::Liquidity(3), 100), Ok(()));
    ext.roll_to(10);
    for (c, s) in [(1, (10, 20)), (2, (10, 20)), (3, (0, 0)), (4, (20, 20)), (5, (20, 20)), (6, (200, 200)), (7, (0, 0))] {
        assert_eq!(stake_of(&ext, 3, c), s);
    }
    expected.extend(chosen(3, &[(1, 20), (2, 40), (4, 20), (5, 10), (6, 40)]));
    expected.push(Event::NewRound(10, 2, 5, 130));
    assert_eq!(ext.events, expected);
}

#[test]
fn paired_or_liquidity_token_works() {
    let mut ext = ext_with(vec![(1, 100), (2, 100), (3, 100), (4, 100), (5, 100)], vec![(1, 20), (2, 20)]);
    assert_eq!(ext.add_staking_liquidity_token(Paired(7000), 100), Ok(()));
    assert_eq!(listed(&ext, 70), Some(None));
    assert_eq!(ext.add_staking_liquidity_token(Liquidity(700), 100), Ok(()));
    assert_eq!(listed(&ext, 700), Some(None));
    assert_eq!(ext.remove_staking_liquidity_token(Liquidity(70), 100), Ok(()));
    assert_eq!(listed(&ext, 70), None);
    assert_eq!(ext.remove_staking_liquidity_token(Paired(70000), 100), Ok(()));
    assert_eq!(listed(&ext, 700), None);
}

fn aggregator_ext() -> Ext {
    let mut ext = ExtBuilder::default()
        .with_staking_tokens(seven_token_tokens(300))
        .with_candidates(vec![(1, 20, 1), (2, 30, 2), (3, 10, 3)])
        .with_delegations(vec![(8, 1, 5), (8, 2, 10), (9, 1, 5), (10, 3, 10)])
        .build();
    ext.st.total_selected = 1;
    assert_eq!(ext.st.total_selected, 1);
    let pool: Vec<_> = ext.candidate_pool().iter().map(bond_tuple).collect();
    assert_eq!(pool, vec![(1, 30, 1), (2, 40, 2), (3, 20, 3)]);
    assert_eq!(ext.aggregator_update_metadata(4, vec![1, 2], MetadataUpdateAction::ExtendApprovedCollators), Ok(()));
    assert_eq!(ext.update_candidate_aggregator(1, Some(4)), Ok(()));
    assert_eq!(ext.update_candidate_aggregator(2, Some(4)), Ok(()));
    ext
}

#[test]
fn token_valuations_works_with_aggregators() {
    let mut ext = aggregator_ext();
    ext.roll_to(5);
    assert_eq!(stake_of(&ext, 2, 1), (20, 30));
    assert_eq!(stake_of(&ext, 2, 2), (30, 40));
    ext.roll_to(10);
    assert_eq!(stake_of(&ext, 3, 1), (20, 30));
    assert_eq!(stake_of(&ext, 3, 2), (30, 40));
    let mut expected = vec![
        Event::AggregatorMetadataUpdated(4),
        Event::CandidateAggregatorUpdated(1, Some(4)),
        Event::CandidateAggregatorUpdated(2, Some(4)),
        Event::CollatorChosen(2, 1, 30),
        Event::CollatorChosen(2, 2, 80),
        Event::NewRound(5, 1, 2, 110),
        Event::CollatorChosen(3, 1, 30),
        Event::CollatorChosen(3, 2, 80),
        Event::NewRound(10, 2, 2, 110),
    ];
    assert_eq!(ext.events, expected);
    assert_eq!(ext.remove_staking_liquidity_token(PairedOrLiquidityToken::Liquidity(2), 100), Ok(()));
    ext.roll_to(15);
    assert_eq!(stake_of(&ext, 4, 3), (10, 20));
    expected.extend(vec![Event::CollatorChosen(4, 3, 100), Event::NewRound(15, 3, 1, 100)]);
    assert_eq!(ext.events, expected);
}

#[test]
fn round_aggregator_info_is_updated() {
    let mut ext = aggregator_ext();
    ext.roll_to(5);
    assert_eq!(stake_of(&ext, 2, 1), (20, 30));
    assert_eq!(stake_of(&ext, 2, 2), (30, 40));
    let info: Vec<(AccountId, Balance)> = ext.st.round_aggregator_info[&2][&4].0.iter().map(|e| (e.account, e.amount)).collect();
    assert_eq!(info, [(1, 30), (2, 80)]);
}

fn reward_info(ext: &Ext, collator: AccountId, round: RoundIndex) -> (Balance, Vec<(AccountId, Balance)>) {
    let info = &ext.st.round_collator_reward_info[&collator][&round];
    (info.collator_reward, info.delegator_rewards.0.iter().map(|e| (e.account, e.amount)).collect())
}

#[test]
fn payouts_with_aggregators_work() {
    let mut ext = ExtBuilder::default()
        .with_staking_tokens(seven_token_tokens(300))
        .with_candidates(vec![(1, 20, 1), (2, 30, 2), (3, 10, 3)])
        .with_delegations(vec![(8, 1, 5), (8, 2, 10), (9, 1, 5), (10, 3, 10)])
        .build();
    ext.st.total_selected = 2;
    let pool: Vec<_> = ext.candidate_pool().iter().map(bond_tuple).collect();
    assert_eq!(pool, vec![(1, 30, 1), (2, 40, 2), (3, 20, 3)]);
    assert_eq!(ext.aggregator_update_metadata(4, vec![1, 2], MetadataUpdateAction::ExtendApprovedCollators), Ok(()));
    assert_eq!(ext.update_candidate_aggregator(1, Some(4)), Ok(()));
    assert_eq!(ext.update_candidate_aggregator(2, Some(4)), Ok(()));
    ext.roll_to(5);
    assert_eq!(stake_of(&ext, 2, 1), (20, 30));
    assert_eq!(stake_of(&ext, 2, 2), (30, 40));
    let info: Vec<(AccountId, Balance)> = ext.st.round_aggregator_info[&2][&4].0.iter().map(|e| (e.account, e.amount)).collect();
    assert_eq!(info, [(1, 30), (2, 80)]);
    ext.roll_to(10);
    ext.set_author(2, 4, 100);
    ext.set_author(2, 3, 100);
    ext.roll_to(20);
    assert_eq!(reward_info(&ext, 1, 2), (29, vec![(8, 5), (9, 5)]));
    assert_eq!(reward_info(&ext, 2, 2), (88, vec![(8, 22)]));
    assert_eq!(reward_info(&ext, 3, 2), (91, vec![(10, 61)]));
}

#[test]
fn can_join_candidates_and_be_selected_with_native_token() {
    let mut ext = ext_with(
        vec![(1, 1000), (2, 1000), (3, 1000), (4, 1000), (5, 1000), (6, 1000), (7, 33), (8, 33), (9, 33)],
        vec![(1, 100), (2, 90), (3, 80), (4, 70), (5, 60), (6, 50)],
    );
    ext.roll_to(8);
    let mut expected = chosen(2, &[(1, 100), (2, 90), (3, 80), (4, 70), (5, 60)]);
    expected.push(Event::NewRound(5, 1, 5, 400));
    assert_eq!(ext.events, expected);
    assert_eq!(ext.join_candidates(99999, 1_000_000, 0, 6, 10000), Ok(()));
    assert_eq!(ext.last_event(), Event::JoinedCollatorCandidates(99999, 1_000_000, 1_000_000));
    ext.roll_to(9);
    expected.push(Event::JoinedCollatorCandidates(99999, 1000000, 1000000));
    expected.extend(chosen(3, &[(1, 100), (2, 90), (3, 80), (4, 70), (99999, 500000)]));
    expected.push(Event::NewRound(10, 2, 5, 500340));
    assert_eq!(ext.events, expected);
    assert_eq!(ext.reserved_balance(MGA_TOKEN_ID, 99999), 1_000_000);
}

fn claiming_ext() -> Ext {
    let mut ext = ExtBuilder::default()
        .with_staking_tokens(vec![(999, 280, 0), (1, 20, 1), (2, 20, 1), (3, 20, 1), (4, 20, 1), (5, 30, 1), (6, 30, 1), (7, 30, 1), (8, 30, 1)])
        .with_default_token_candidates(vec![(1, 20), (2, 20), (3, 20), (4, 20)])
        .with_delegations(vec![(5, 1, 30), (6, 1, 30), (7, 1, 30), (8, 1, 30)])
        .build();
    for c in 1..5 {
        ext.set_author(1, c, 1);
    }
    ext.roll_to(6);
    for c in 1..5 {
        ext.set_author(2, c, 1);
    }
    ext.roll_to(21);
    ext
}

fn claiming_rounds() -> Vec<Event> {
    let mut v = vec![];
    for (r, first) in [(2u32, 5u64), (3, 10), (4, 15), (5, 20)] {
        v.extend(chosen(r, &[(1, 140), (2, 20), (3, 20), (4, 20)]));
        v.push(Event::NewRound(first, r - 1, 4, 200));
    }
    v
}

fn rounds_recorded(ext: &Ext, collator: AccountId) -> usize {
    ext.st.round_collator_reward_info.get(&collator).map(|m| m.len()).unwrap_or(0)
}

#[test]
fn test_claiming_rewards_for_more_periods_than_asked_due_to_optimization_based_on_delegators_count() {
    let mut ext = claiming_ext();
    assert_eq!(rounds_recorded(&ext, 2), 2);
    ext.payout_collator_rewards(2, Some(1)).unwrap();
    let mut expected = claiming_rounds();
    expected.extend(vec![
        Event::Rewarded(1, 2, 76),
        Event::Rewarded(2, 2, 76),
        Event::CollatorRewardsDistributed(2, PayoutRounds::All),
    ]);
    assert_eq!(ext.events, expected);
}

#[test]
fn test_claiming_rewards_for_exactly_one_period_when_delegators_count_is_equal_to_max_available() {
    let mut ext = claiming_ext();
    assert_eq!(rounds_recorded(&ext, 1), 2);
    ext.payout_collator_rewards(1, Some(1)).unwrap();
    let mut expected = claiming_rounds();
    expected.push(Event::Rewarded(1, 1, 23));
    expected.extend((5..9).map(|d| Event::DelegatorDueReward(1, 1, d, 13)));
    expected.push(Event::CollatorRewardsDistributed(1, PayoutRounds::Partial(vec![1])));
    assert_eq!(ext.events, expected);
}

#[test]
fn test_claiming_rewards_for_all_periods_in_pesimistic_scenario_with_max_delegators_for_exactly_n_blocks() {
    let mut ext = claiming_ext();
    assert_eq!(rounds_recorded(&ext, 1), 2);
    ext.payout_collator_rewards(1, Some(2)).unwrap();
    let mut expected = claiming_rounds();
    for r in 1..3 {
        expected.push(Event::Rewarded(r, 1, 23));
        expected.extend((5..9).map(|d| Event::DelegatorDueReward(r, 1, d, 13)));
    }
    expected.push(Event::CollatorRewardsDistributed(1, PayoutRounds::All));
    assert_eq!(ext.events, expected);
}

#[test]
fn test_triggre_error_when_there_are_no_rewards_to_payout() {
    let mut ext = ExtBuilder::default().with_staking_tokens(vec![(999, 280, 0), (1, 20, 1)]).build();
    assert_eq!(ext.payout_collator_rewards(33, None), err(Error::CollatorRoundRewardsDNE));
}

#[test]
fn geneses() {
    let ext = ExtBuilder::default()
        .with_staking_tokens(vec![
            (999, 100, 0),
            (1, 1000, 1),
            (2, 300, 2),
            (3, 100, 1),
            (4, 100, 1),
            (5, 100, 2),
            (6, 100, 2),
            (7, 100, 3),
            (8, 9, 3),
            (9, 4, 3),
        ])
        .with_candidates(vec![(1, 500, 1), (2, 200, 2)])
        .with_delegations(vec![(3, 1, 100), (4, 1, 100), (5, 2, 100), (6, 2, 100)])
        .build();
    assert_eq!(ext.reserved_balance(1, 1), 500);
    assert_eq!(ext.free_balance(1, 1), 500);
    assert!(ext.is_candidate(1));
    assert_eq!(ext.reserved_balance(2, 2), 200);
    assert_eq!(ext.free_balance(2, 2), 100);
    assert!(ext.is_candidate(2));
    for x in 3..5 {
        assert!(ext.is_delegator(x));
        assert_eq!(ext.free_balance(1, x), 0);
        assert_eq!(ext.reserved_balance(1, x), 100);
    }
    for x in 5..7 {
        assert!(ext.is_delegator(x));
        assert_eq!(ext.free_balance(2, x), 0);
        assert_eq!(ext.reserved_balance(2, x), 100);
    }
    for x in 7..10 {
        assert!(!ext.is_delegator(x));
    }
    assert_eq!(ext.free_balance(3, 7), 100);
    assert_eq!(ext.reserved_balance(3, 7), 0);
    assert_eq!(ext.free_balance(3, 8), 9);
    assert_eq!(ext.reserved_balance(3, 8), 0);
    assert_eq!(ext.free_balance(3, 9), 4);
    assert_eq!(ext.reserved_balance(3, 9), 0);

    let ext = ExtBuilder::default()
        .with_staking_tokens(vec![
            (999, 100, 0),
            (1, 100, 1),
            (2, 100, 2),
            (3, 100, 1),
            (4, 100, 3),
            (5, 100, 3),
            (6, 100, 1),
            (7, 100, 1),
            (8, 100, 1),
            (8, 100, 2),
            (9, 100, 2),
            (10, 100, 1),
        ])
        .with_candidates(vec![(1, 20, 1), (2, 20, 2), (3, 20, 1), (4, 20, 3), (5, 10, 3)])
        .with_delegations(vec![(6, 1, 10), (7, 1, 10), (8, 1, 10), (8, 2, 10), (9, 2, 10), (10, 1, 10)])
        .build();
    for x in [1, 3] {
        assert!(ext.is_candidate(x));
        assert_eq!(ext.free_balance(1, x), 80);
        assert_eq!(ext.reserved_balance(1, x), 20);
    }
    assert!(ext.is_candidate(2));
    assert_eq!(ext.free_balance(2, 2), 80);
    assert_eq!(ext.reserved_balance(2, 2), 20);
    assert!(ext.is_candidate(4));
    assert_eq!(ext.free_balance(3, 4), 80);
    assert_eq!(ext.reserved_balance(3, 4), 20);
    assert!(ext.is_candidate(5));
    assert_eq!(ext.free_balance(3, 5), 90);
    assert_eq!(ext.reserved_balance(3, 5), 10);
    for x in [6, 7, 8, 10] {
        assert!(ext.is_delegator(x));
        assert_eq!(ext.free_balance(1, x), 90);
        assert_eq!(ext.reserved_balance(1, x), 10);
    }
    for x in [8, 9] {
        assert!(ext.is_delegator(x));
        assert_eq!(ext.free_balance(2, x), 90);
        assert_eq!(ext.reserved_balance(2, x), 10);
    }
}

// ~~ LAWS ON CONCRETE VALUES ~~

#[test]
fn going_offline_and_back_online_restores_the_candidate() {
    let mut ext = ext_with_delegations(vec![(1, 30), (2, 30), (3, 10)], vec![(1, 30), (2, 20)], vec![(3, 1, 10)]);
    let state = ext.candidate_state(1).unwrap();
    let pool = ext.candidate_pool().iter().map(bond_tuple).collect::<Vec<_>>();
    assert_eq!(ext.go_offline(1), Ok(()));
    assert_eq!(ext.go_online(1), Ok(()));
    assert_eq!(ext.candidate_state(1).unwrap(), state);
    assert_eq!(ext.candidate_pool().iter().map(bond_tuple).collect::<Vec<_>>(), pool);
}

#[test]
fn cancelling_leave_candidates_restores_the_candidate() {
    let mut ext = ext_with_delegations(vec![(1, 30), (2, 30), (3, 10)], vec![(1, 30), (2, 20)], vec![(3, 1, 10)]);
    let state = ext.candidate_state(1).unwrap();
    let pool = ext.candidate_pool().iter().map(bond_tuple).collect::<Vec<_>>();
    assert_eq!(ext.schedule_leave_candidates(1, 2), Ok(()));
    assert_eq!(ext.cancel_leave_candidates(1, 2), Ok(()));
    assert_eq!(ext.candidate_state(1).unwrap(), state);
    assert_eq!(ext.candidate_pool().iter().map(bond_tuple).collect::<Vec<_>>(), pool);
    assert_eq!(ext.cancel_leave_candidates(1, 2), err(Error::CandidateNotLeaving));
}

#[test]
fn cancelling_bond_more_restores_the_candidate() {
    let mut ext = ext_with(vec![(1, 50)], vec![(1, 20)]);
    let state = ext.candidate_state(1).unwrap();
    assert_eq!(ext.schedule_candidate_bond_more(1, 30), Ok(()));
    assert_eq!(ext.cancel_candidate_bond_request(1), Ok(()));
    assert_eq!(ext.candidate_state(1).unwrap(), state);
    assert_eq!(ext.cancel_candidate_bond_request(1), err(Error::PendingCandidateRequestsDNE));
}

#[test]
fn cancelling_a_delegation_request_restores_the_delegator() {
    let mut ext = bond_more_ext();
    let state = ext.delegator_state(2).unwrap();
    assert_eq!(ext.schedule_delegator_bond_more(2, 1, 5), Ok(()));
    assert_eq!(ext.cancel_delegation_request(2, 1), Ok(()));
    assert_eq!(ext.delegator_state(2).unwrap(), state);
    assert_eq!(ext.cancel_delegation_request(2, 1), err(Error::PendingDelegationRequestDNE));
}

#[test]
fn note_author_adds_twenty_points() {
    let mut ext = single_candidate(20);
    ext.st.note_author(1);
    ext.st.note_author(1);
    ext.st.note_author(7);
    assert_eq!(ext.st.awarded_pts[&0][&1], 40);
    assert_eq!(ext.st.awarded_pts[&0][&7], 20);
    assert_eq!(ext.st.points[&0], 60);
}

#[test]
fn session_estimates_follow_the_round() {
    let mut ext = single_candidate(20);
    assert_eq!(ext.st.average_session_length(), 5);
    assert_eq!(ext.st.estimate_next_session_rotation(), 4);
    assert!(!ext.st.should_end_session(3));
    assert!(ext.st.should_end_session(4));
    assert_eq!(ext.st.estimate_current_session_progress(0).parts, 200_000);
    assert_eq!(ext.st.estimate_current_session_progress(4).parts, 1_000_000);
    ext.roll_to(5);
    assert_eq!(ext.st.round.current, 1);
    assert_eq!(ext.st.round.first, 5);
    assert_eq!(ext.st.estimate_next_session_rotation(), 9);
    assert_eq!(ext.st.estimate_current_session_progress(6).parts, 400_000);
}

#[test]
fn new_session_falls_back() {
    let ext = ExtBuilder::default().build();
    assert_eq!(ext.st.new_session(vec![]), None);
    assert_eq!(ext.st.new_session(vec![4, 5]), Some(vec![4, 5]));
    let ext = single_candidate(20);
    assert_eq!(ext.st.new_session(vec![4, 5]), Some(vec![1]));
}

#[test]
fn on_idle_pays_one_round_of_one_collator() {
    let mut ext = claiming_ext();
    let (w, none) = ext.st.on_idle(10, 10);
    assert_eq!(w, 10);
    assert!(none.is_none());
    let (w, some) = ext.st.on_idle(11, 10);
    assert_eq!(w, 10);
    let (collator, res) = some.unwrap();
    assert_eq!(collator, 1);
    let (transfers, events) = res.unwrap();
    assert_eq!(transfers.iter().map(|t| (t.to, t.amount)).collect::<Vec<_>>(), vec![(1, 23), (5, 13), (6, 13), (7, 13), (8, 13)]);
    assert_eq!(events.last().cloned(), Some(Event::CollatorRewardsDistributed(1, PayoutRounds::Partial(vec![1]))));
    assert_eq!(rounds_recorded(&ext, 1), 1);
}

#[test]
fn payout_delegator_reward_pays_once() {
    let mut ext = claiming_ext();
    assert_eq!(ext.payout_delegator_reward(1, 1, 5), Ok(()));
    assert_eq!(ext.last_event(), Event::DelegatorDueReward(1, 1, 5, 13));
    assert_eq!(ext.free_balance(0, 5), 13);
    assert_eq!(ext.payout_delegator_reward(1, 1, 5), err(Error::DelegatorRewardsDNE));
    assert_eq!(ext.payout_delegator_reward(9, 1, 5), err(Error::CollatorRoundRewardsDNE));
}

#[test]
fn aggregator_errors() {
    let mut ext = aggregator_ext();
    assert_eq!(ext.aggregator_update_metadata(1, vec![2], MetadataUpdateAction::ExtendApprovedCollators), err(Error::CandidateExists));
    assert_eq!(ext.aggregator_update_metadata(8, vec![2], MetadataUpdateAction::ExtendApprovedCollators), err(Error::DelegatorExists));
    assert_eq!(ext.aggregator_update_metadata(4, vec![99], MetadataUpdateAction::ExtendApprovedCollators), err(Error::CandidateDNE));
    assert_eq!(ext.aggregator_update_metadata(4, vec![1], MetadataUpdateAction::ExtendApprovedCollators), err(Error::CandidateAlreadyApprovedByAggregator));
    assert_eq!(ext.aggregator_update_metadata(4, vec![3], MetadataUpdateAction::RemoveApprovedCollators), err(Error::CandidateNotApprovedByAggregator));
    assert_eq!(ext.update_candidate_aggregator(99, Some(4)), err(Error::CandidateDNE));
    assert_eq!(ext.update_candidate_aggregator(1, Some(4)), err(Error::TargettedAggregatorSameAsCurrent));
    assert_eq!(ext.update_candidate_aggregator(3, Some(5)), err(Error::AggregatorDNE));
    assert_eq!(ext.update_candidate_aggregator(3, Some(4)), err(Error::CandidateNotApprovedByAggregator));
    assert_eq!(ext.update_candidate_aggregator(3, None), err(Error::CandidateNotAggregating));
    assert_eq!(ext.delegate(4, 1, 10, 10, 10), err(Error::AggregatorExists));
    assert_eq!(ext.join_candidates(4, 10, 1, 100, 10000), err(Error::AggregatorExists));
    assert_eq!(ext.aggregator_update_metadata(4, vec![1], MetadataUpdateAction::RemoveApprovedCollators), Ok(()));
    assert!(!ext.st.candidate_aggregator.contains_key(&1));
    assert_eq!(ext.update_candidate_aggregator(2, None), Ok(()));
    assert!(ext.st.candidate_aggregator.is_empty());
}

#[test]
fn aggregator_token_is_taken_once() {
    let mut ext = ExtBuilder::default()
        .with_staking_tokens(seven_token_tokens(300))
        .with_candidates(vec![(1, 20, 1), (8, 20, 1)])
        .build();
    assert_eq!(ext.aggregator_update_metadata(4, vec![1, 8], MetadataUpdateAction::ExtendApprovedCollators), Ok(()));
    assert_eq!(ext.update_candidate_aggregator(1, Some(4)), Ok(()));
    assert_eq!(ext.update_candidate_aggregator(8, Some(4)), err(Error::AggregatorLiquidityTokenTaken));
}

#[test]
fn staking_token_listing_errors() {
    let mut ext = single_candidate(20);
    assert_eq!(ext.add_staking_liquidity_token(Liquidity(2), 0), err(Error::TooLowCurrentStakingLiquidityTokensCount));
    assert_eq!(ext.remove_staking_liquidity_token(Liquidity(1), 0), err(Error::TooLowCurrentStakingLiquidityTokensCount));
    assert_eq!(ext.join_candidates(2, 10, 1, 100, 0), err(Error::TooLowCurrentStakingLiquidityTokensCount));
}

#[test]
fn join_candidates_limited_by_max_collator_candidates() {
    let accounts: Vec<(AccountId, Balance)> = (1..12).map(|a| (a, 20)).collect();
    let mut ext = ext_with(accounts, (1..11).map(|a| (a, 20)).collect());
    assert_eq!(ext.candidate_pool().len(), 10);
    assert_eq!(ext.join_candidates(11, 20, 1, 100, 10000), err(Error::ExceedMaxCollatorCandidates));
}

#[test]
fn execute_requests_not_due_yet() {
    let mut ext = bond_more_ext();
    assert_eq!(ext.schedule_delegator_bond_more(2, 1, 5), Ok(()));
    assert_eq!(ext.execute_delegation_request(2, 1), err(Error::PendingDelegationRequestNotDueYet));
    assert_eq!(ext.execute_delegation_request(3, 1), err(Error::DelegatorDNE));
    assert_eq!(ext.execute_delegation_request(2, 9), err(Error::PendingDelegationRequestDNE));
    assert_eq!(ext.schedule_candidate_bond_more(1, 0), Ok(()));
    assert_eq!(ext.execute_candidate_bond_request(1), err(Error::PendingCandidateRequestNotDueYet));
    assert_eq!(ext.execute_candidate_bond_request(9), err(Error::CandidateDNE));
}

#[test]
fn leave_delegators_errors() {
    let mut ext = one_delegation_ext();
    assert_eq!(ext.cancel_leave_delegators(2), err(Error::DelegatorDNE));
    assert_eq!(ext.execute_leave_delegators(2, 1), err(Error::DelegatorNotLeaving));
    assert_eq!(ext.execute_leave_delegators(2, 0), err(Error::TooLowDelegationCountToLeaveDelegators));
    assert_eq!(ext.cancel_leave_delegators(9), err(Error::DelegatorDNE));
    assert_eq!(ext.execute_leave_delegators(9, 1), err(Error::DelegatorDNE));
}

#[test]
fn too_many_delegators_per_candidate() {
    let accounts: Vec<(AccountId, Balance)> = (1..13).map(|a| (a, 20)).collect();
    let dels: Vec<(AccountId, AccountId, Balance)> = (2..12).map(|a| (a, 1, 10)).collect();
    let mut ext = ext_with_delegations(accounts, vec![(1, 20)], dels);
    assert_eq!(ext.candidate_state(1).unwrap().delegators.0.len(), 10);
    assert_eq!(ext.delegate(12, 1, 10, 100, 0), err(Error::ExceedMaxTotalDelegatorsPerCandidate));
}

#[test]
fn delegation_below_min() {
    let mut ext = ext_with(vec![(1, 20), (2, 20)], vec![(1, 20)]);
    assert_eq!(ext.delegate(2, 1, 2, 10, 10), err(Error::DelegationBelowMin));
    assert_eq!(ext.delegate(2, 9, 5, 10, 10), err(Error::CandidateDNE));
}

fn balances(entries: &[(AccountId, CurrencyId, Balance)]) -> BTreeMap<AccountId, BTreeMap<CurrencyId, Balance>> {
    let mut m: BTreeMap<AccountId, BTreeMap<CurrencyId, Balance>> = BTreeMap::new();
    for &(who, token, amount) in entries {
        m.entry(who).or_default().insert(token, amount);
    }
    m
}

fn run_genesis(
    g: &GenesisConfig,
    available: BTreeMap<AccountId, BTreeMap<CurrencyId, Balance>>,
) -> (Staking, Result<(Vec<Event>, Vec<ReserveCall>), GenesisError>) {
    let mut st = Staking::new(config());
    let cv: Vec<Balance> = g.candidates.iter().map(|c| c.1).collect();
    let dv: Vec<Balance> = g.delegations.iter().map(|d| d.2).collect();
    let r = g.build(&mut st, available, &cv, &dv, &pool_states());
    (st, r)
}

#[test]
fn genesis_places_candidates_and_delegations_in_turn() {
    let g = GenesisConfig { candidates: vec![(1, 20, 1), (2, 30, 1), (1, 40, 1)], delegations: vec![(3, 1, 10), (3, 2, 5)] };
    let (st, r) = run_genesis(&g, balances(&[(1, 1, 100), (2, 1, 30), (3, 1, 15)]));
    let (events, calls) = r.unwrap();
    // the second entry of account 1 is refused: it is a candidate already
    assert_eq!(
        calls,
        vec![
            ReserveCall::Bond { token: 1, account: 1, amount: 20, use_balance_from: None },
            ReserveCall::Bond { token: 1, account: 2, amount: 30, use_balance_from: None },
            ReserveCall::Bond { token: 1, account: 3, amount: 10, use_balance_from: None },
            ReserveCall::Bond { token: 1, account: 3, amount: 5, use_balance_from: None },
        ]
    );
    assert_eq!(events[0], Event::JoinedCollatorCandidates(1, 20, 20));
    assert_eq!(events[1], Event::JoinedCollatorCandidates(2, 30, 50));
    assert_eq!(*events.last().unwrap(), Event::NewRound(0, 0, 2, 65));
    assert_eq!(st.candidate_state.get(&1).unwrap().bond, 20);
    assert_eq!(st.delegator_state.get(&3).unwrap().delegations.0.len(), 2);
    assert_eq!(st.total_selected, 5);
    assert_eq!(st.collator_commission, Perbill::from_percent(20));
    assert_eq!(st.at_stake.get(&0).map(|m| m.len()), Some(2));
}

#[test]
fn genesis_refuses_delegation_the_delegator_cannot_reserve() {
    // the first entry of account 1 is refused (bond below the minimum), so it
    // stakes token 2, while delegations to it are checked in token 1
    let g = GenesisConfig { candidates: vec![(1, 5, 1), (1, 20, 2)], delegations: vec![(3, 1, 10)] };
    let (st, r) = run_genesis(&g, balances(&[(1, 1, 5), (1, 2, 20), (3, 1, 50)]));
    let (_, calls) = r.unwrap();
    assert_eq!(calls, vec![ReserveCall::Bond { token: 2, account: 1, amount: 20, use_balance_from: None }]);
    assert!(st.delegator_state.get(&3).is_none());
}

#[test]
fn genesis_stops_at_candidate_short_of_balance() {
    let g = GenesisConfig { candidates: vec![(1, 20, 1), (2, 30, 1)], delegations: vec![] };
    let (_, r) = run_genesis(&g, balances(&[(1, 1, 20), (2, 1, 29)]));
    assert_eq!(r.unwrap_err(), GenesisError::CandidateBalanceTooLow(1));
}

#[test]
fn genesis_stops_at_delegation_to_unknown_candidate() {
    let g = GenesisConfig { candidates: vec![(1, 20, 1)], delegations: vec![(3, 1, 5), (3, 9, 5)] };
    let (_, r) = run_genesis(&g, balances(&[(1, 1, 20), (3, 1, 50)]));
    assert_eq!(r.unwrap_err(), GenesisError::DelegationToUnknownCandidate(1));
}

#[test]
fn genesis_stops_at_delegator_short_of_balance() {
    let g = GenesisConfig { candidates: vec![(1, 20, 1)], delegations: vec![(3, 1, 5), (4, 1, 5)] };
    let (_, r) = run_genesis(&g, balances(&[(1, 1, 20), (3, 1, 50), (4, 1, 4)]));
    assert_eq!(r.unwrap_err(), GenesisError::DelegationBalanceTooLow(1));
}

#[test]
fn delegation_decreases_down_to_the_minimum() {
    let mut ext = bond_more_ext();
    assert_eq!(ext.schedule_delegator_bond_less(2, 1, 7), Ok(()));
    ext.roll_to(10);
    assert_eq!(ext.execute_delegation_request(2, 1), Ok(()));
    assert_eq!(bond_tuple(&ext.candidate_state(1).unwrap().top_delegations[0]), (2, 3, 1));
    assert_eq!(ext.total(1), 33);
}

#[test]
fn selected_candidates_increase_by_account() {
    let mut ext = ExtBuilder::default()
        .with_staking_tokens(vec![(5, 100, 1), (3, 100, 1), (4, 100, 1), (1, 100, 1)])
        .with_candidates(vec![(5, 20, 1), (3, 40, 1), (4, 30, 1), (1, 15, 1)])
        .build();
    ext.roll_to(6);
    let sel = ext.st.selected_candidates.clone();
    assert_eq!(sel, vec![1, 3, 4, 5]);
    assert!(sel.windows(2).all(|w| w[0] < w[1]));
}

#[test]
fn recorded_round_rewards_stay_within_the_reward() {
    let mut ext = ExtBuilder::default()
        .with_staking_tokens(vec![(1, 100, 1), (2, 100, 1), (3, 100, 1)])
        .with_candidates(vec![(1, 20, 1)])
        .with_delegations(vec![(2, 1, 10), (3, 1, 5)])
        .build();
    ext.st.process_collator_with_rewards(1, 1, 1000);
    let (collator_reward, delegators) = reward_info(&ext, 1, 1);
    assert_eq!(collator_reward, 657);
    assert_eq!(delegators, vec![(2, 228), (3, 114)]);
    assert!(collator_reward + delegators.iter().map(|d| d.1).sum::<Balance>() <= 1000);
}
