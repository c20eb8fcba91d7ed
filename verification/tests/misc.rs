use mangata_pallets::arith::{Perbill, U256};
use mangata_pallets::bond::{sort_asc, sort_desc, Bond};
use mangata_pallets::candidate::CollatorSnapshot;
use mangata_pallets::collator_payout::payout_reward;
use mangata_pallets::genesis::GenesisConfig;
use mangata_pallets::ordered_set::OrderedSet;
use mangata_pallets::payout::{aggregator_distribution, collator_payout_info, RewardEntry};
use mangata_pallets::random_seed::{is_random_seed_inherent, RandomSeed, RandomSeedInherentError, RANDOM_SEED_INHERENT_IDENTIFIER};
use mangata_pallets::reward_info::{ConstCurveRewards, RewardInfo, RewardsCalcError, RewardsCalculator, RewardsContext};
use mangata_pallets::rpc::ProofOfStake;
use mangata_pallets::schedule_rewards::{ActivatedLiquidityPerSchedule, LiquidityModification, ScheduleRewards};
use mangata_pallets::selection::{calculate_aggregators_collator_info, calculate_collators_valuations, compute_top_candidates, valuate_bonds};
use mangata_pallets::staking_events::{Event, RewardKind};
use std::collections::BTreeMap;
use std::sync::Arc;

fn bond(owner: u64, amount: u128, token: u32) -> Bond {
    Bond { owner, amount, liquidity_token: token }
}

fn entries(v: &[(u64, u128)]) -> Vec<RewardEntry> {
    v.iter().map(|&(account, amount)| RewardEntry { account, amount }).collect()
}

fn pairs(v: &[RewardEntry]) -> Vec<(u64, u128)> {
    v.iter().map(|e| (e.account, e.amount)).collect()
}

#[test]
fn random_seed_is_kept_until_set() {
    let mut s = RandomSeed::new();
    assert_eq!(s.get(), [0u8; 32]);
    s.set([7u8; 32]);
    assert_eq!(s.get(), [7u8; 32]);
    assert_eq!(s.seed(), [7u8; 32]);
    assert!(is_random_seed_inherent(b"blckseed"));
    assert!(!is_random_seed_inherent(b"blckseeD"));
    assert_eq!(&RANDOM_SEED_INHERENT_IDENTIFIER, b"blckseed");
}

#[test]
fn random_seed_inherent_error_decodes() {
    let data = [0u8, 16, b'b', b'o', b'o', b'm', 7];
    assert_eq!(RandomSeedInherentError::try_from(b"blckseed", &data), Some(RandomSeedInherentError::Other("boom".to_string())));
    assert_eq!(RandomSeedInherentError::try_from(b"otherids", &data), None);
    assert_eq!(RandomSeedInherentError::try_from(b"blckseed", &[1u8, 0]), None);
    assert_eq!(RandomSeedInherentError::try_from(b"blckseed", &[0u8, 16, b'b']), None);
    assert_eq!(RandomSeedInherentError::try_from(b"blckseed", &[]), None);
}

#[test]
fn genesis_tokens_are_sorted_and_distinct() {
    let g = GenesisConfig { candidates: vec![(1, 10, 3), (2, 10, 1), (3, 10, 3), (1, 5, 2)], delegations: vec![] };
    assert_eq!(g.liquidity_tokens(), vec![1, 2, 3]);
    assert_eq!(g.candidate_token(1), Some(3));
    assert_eq!(g.candidate_token(2), Some(1));
    assert_eq!(g.candidate_token(9), None);
    assert!(GenesisConfig::default().liquidity_tokens().is_empty());
}

#[test]
fn ordered_set_keeps_keys_sorted_and_unique() {
    let mut s: OrderedSet<u64> = OrderedSet::new();
    assert!(s.insert(5));
    assert!(s.insert(1));
    assert!(s.insert(9));
    assert!(!s.insert(5));
    assert_eq!(s.0, vec![1, 5, 9]);
    assert!(s.contains(&9));
    assert_eq!(s.get(5), Some(&5));
    assert_eq!(s.get(6), None);
    assert!(s.remove(&5));
    assert!(!s.remove(&5));
    assert_eq!(s.len(), 2);
    let mut b: OrderedSet<Bond> = OrderedSet::new();
    b.insert(bond(2, 10, 1));
    b.upsert(bond(2, 30, 1));
    b.upsert(bond(1, 5, 1));
    assert_eq!(b.0.iter().map(|x| (x.owner, x.amount)).collect::<Vec<_>>(), vec![(1, 5), (2, 30)]);
}

#[test]
fn bonds_sort_by_amount() {
    let mut v = vec![bond(1, 5, 1), bond(2, 50, 1), bond(3, 20, 1)];
    sort_desc(&mut v);
    assert_eq!(v.iter().map(|b| b.amount).collect::<Vec<_>>(), vec![50, 20, 5]);
    sort_asc(&mut v);
    assert_eq!(v.iter().map(|b| b.amount).collect::<Vec<_>>(), vec![5, 20, 50]);
    assert_eq!(Bond::from_owner(4).owner, 4);
    assert_eq!(Bond::default().amount, 0);
}

#[test]
fn collator_payout_splits_by_stake() {
    let snap = CollatorSnapshot { bond: 20, delegations: vec![bond(6, 10, 1), bond(7, 10, 1), bond(10, 10, 1)], total: 50, liquidity_token: 1 };
    let info = collator_payout_info(&snap, Perbill::from_percent(20), 304);
    assert_eq!(info.collator_reward, 157);
    assert_eq!(pairs(&info.delegator_rewards.0), vec![(6, 48), (7, 48), (10, 48)]);
    let solo = CollatorSnapshot { bond: 20, delegations: vec![], total: 20, liquidity_token: 1 };
    let info = collator_payout_info(&solo, Perbill::from_percent(20), 304);
    assert_eq!(info.collator_reward, 304);
    assert!(info.delegator_rewards.0.is_empty());
}

#[test]
fn aggregator_rewards_split_by_valuation() {
    let d = aggregator_distribution(100, &entries(&[(1, 30), (2, 90)]));
    assert_eq!(pairs(&d), vec![(1, 25), (2, 75)]);
    assert!(aggregator_distribution(100, &vec![]).is_empty());
    let even = aggregator_distribution(100, &entries(&[(1, u128::MAX), (2, u128::MAX)]));
    assert_eq!(pairs(&even), vec![(1, 50), (2, 50)]);
}

#[test]
fn payout_reward_names_the_kind() {
    let (t, e) = payout_reward(3, 5, 40, RewardKind::Collator);
    assert_eq!((t.to, t.amount), (5, 40));
    assert_eq!(e, Event::Rewarded(3, 5, 40));
    let (t, e) = payout_reward(3, 6, 12, RewardKind::Delegator(5));
    assert_eq!((t.to, t.amount), (6, 12));
    assert_eq!(e, Event::DelegatorDueReward(3, 5, 6, 12));
}

#[test]
fn valuations_and_selection() {
    let mut pools = BTreeMap::new();
    pools.insert(1u32, Some((1u128, 1u128)));
    pools.insert(2u32, Some((2u128, 1u128)));
    pools.insert(3u32, None);
    let cands = vec![bond(1, 20, 1), bond(2, 40, 2), bond(3, 50, 3), bond(4, 30, 0)];
    let vbs = valuate_bonds(&cands, 0, &pools);
    assert_eq!(pairs(&vbs), vec![(1, 20), (2, 80), (4, 15)]);
    let mut aggs = BTreeMap::new();
    aggs.insert(1u64, 9u64);
    aggs.insert(2u64, 9u64);
    let vals = calculate_collators_valuations(&vbs, &aggs);
    assert_eq!(pairs(&vals.0), vec![(4, 15), (9, 100)]);
    let info = calculate_aggregators_collator_info(&vbs, &aggs);
    assert_eq!(pairs(&info[&9].0), vec![(1, 20), (2, 80)]);
    let (authors, collators) = compute_top_candidates(&vals, &info, 10, 1);
    assert_eq!(pairs(&authors), vec![(9, 100)]);
    assert_eq!(pairs(&collators), vec![(1, 20), (2, 80)]);
    let (authors, collators) = compute_top_candidates(&vals, &info, 20, 5);
    assert_eq!(pairs(&authors), vec![(9, 100)]);
    assert_eq!(collators.len(), 2);
}

#[test]
fn schedule_rewards_pending_then_total() {
    let mut s = ScheduleRewards::default();
    s.provide_rewards(1, 100);
    assert_eq!(s.total_rewards(1), 0);
    assert_eq!(s.total_rewards(2), 100);
    s.provide_rewards(2, 50);
    assert_eq!(s.total_rewards(2), 100);
    assert_eq!(s.total_rewards(3), 150);
    s.transfer_pending(3);
    assert_eq!(s, ScheduleRewards { pending: 0, pending_session_id: 3, total: 150 });
    s.provide_rewards(4, 30);
    s.take_ready(4);
    assert_eq!(s, ScheduleRewards { pending: 30, pending_session_id: 4, total: 0 });
    assert_eq!(s.total_rewards(4), 0);
    assert_eq!(s.total_rewards(5), 30);
    s.clear(6);
    assert_eq!(s, ScheduleRewards { pending: 0, pending_session_id: 6, total: 0 });
}

#[test]
fn activated_liquidity_counts_next_session() {
    let mut a = ActivatedLiquidityPerSchedule::default();
    a.update(1, 100, LiquidityModification::Increase);
    assert_eq!(a.total(1), 0);
    assert_eq!(a.total(2), 100);
    a.update(2, 30, LiquidityModification::Decrease);
    assert_eq!(a.total(2), 100);
    assert_eq!(a.total(3), 70);
}

fn info(activated: u128, ratio: u128) -> RewardInfo {
    RewardInfo {
        activated_amount: activated,
        rewards_not_yet_claimed: 0,
        rewards_already_claimed: 0,
        last_checkpoint: 0,
        pool_ratio_at_last_checkpoint: U256::from_u128(ratio),
        missing_at_last_checkpoint: U256::zero(),
    }
}

fn ctx(time: u32, ratio: U256) -> RewardsContext {
    RewardsContext { current_time: time, pool_ratio_current: ratio }
}

#[test]
fn const_curve_rewards_follow_the_ratio() {
    let ten_max = U256::from_u128(u128::MAX).checked_mul(&U256::from_u128(10)).unwrap();
    let calc = RewardsCalculator::new(ctx(3, ten_max), info(100, 0), ConstCurveRewards);
    assert_eq!(calc.calculate_rewards(), Ok(1000));
    let calc = RewardsCalculator::new(ctx(3, ten_max), info(100, 0), ConstCurveRewards);
    let (after, claimed) = calc.claim_rewards().unwrap();
    assert_eq!(claimed, 1000);
    assert_eq!(after.rewards_already_claimed, 1000);
    let calc = RewardsCalculator::new(ctx(3, ten_max), after, ConstCurveRewards);
    assert_eq!(calc.calculate_rewards(), Ok(1000));
    let calc = RewardsCalculator::new(ctx(3, ten_max), after, ConstCurveRewards);
    assert_eq!(calc.claim_rewards().unwrap().1, 0);
    let calc = RewardsCalculator::new(ctx(3, ten_max), info(100, 0), ConstCurveRewards);
    let more = calc.activate_more(50).unwrap();
    assert_eq!(more.activated_amount, 150);
    assert_eq!(more.rewards_not_yet_claimed, 1000);
    let calc = RewardsCalculator::new(ctx(3, ten_max), info(100, 0), ConstCurveRewards);
    assert_eq!(calc.activate_less(101), Err(RewardsCalcError::CheckpointMathError));
}

#[test]
fn rpc_handle_keeps_its_client() {
    let client = Arc::new(5u32);
    let h: ProofOfStake<u32, ()> = ProofOfStake::new(client.clone());
    assert_eq!(**h.client(), 5);
}
