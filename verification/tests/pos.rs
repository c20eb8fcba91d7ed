use mangata_pallets::arith::U256;
use mangata_pallets::pos::{PosCall, PosConfig, PosError, PosPallet, ThirdPartyActivationKind};
use mangata_pallets::reward_info::{AsymptoticCurveRewards, RewardInfo};
use mangata_pallets::{AccountId, Balance, CurrencyId};
use std::collections::BTreeMap;

const NATIVE: CurrencyId = 0;
const VAULT: AccountId = 777_777;
const PALLET_ACCOUNT: AccountId = 888_888;
const MILLION: u128 = 1_000_000;
const REWARD_AMOUNT: u128 = 10_000;
const REWARD_TOKEN: CurrencyId = 5;
const LIQUIDITY_TOKEN: CurrencyId = 10;
const FIRST_REWARD_TOKEN: CurrencyId = REWARD_TOKEN;
const SECOND_REWARD_TOKEN: CurrencyId = 6;
const ALICE: AccountId = 2;
const BOB: AccountId = 3;
const CHARLIE: AccountId = 4;
const EVE: AccountId = 5;

fn q_pow(pow: u32) -> u128 {
    libm::floor(libm::pow(1.03, pow as f64) * 10000.0) as u128
}

fn curve_for(passed: u32) -> AsymptoticCurveRewards {
    AsymptoticCurveRewards { sessions: passed, q_pow_elapsed: q_pow(passed), q_pow_next: q_pow(passed + 1) }
}

#[derive(Debug, PartialEq)]
enum Fail {
    Pos(PosError),
    BalanceTooLow,
}

struct Ext {
    p: PosPallet,
    free: BTreeMap<(CurrencyId, AccountId), Balance>,
    reserved: BTreeMap<(CurrencyId, AccountId), Balance>,
    next_token: CurrencyId,
    block: u64,
}

fn new_test_ext() -> Ext {
    Ext {
        p: PosPallet::new(PosConfig {
            native_currency_id: NATIVE,
            rewards_distribution_period: 10,
            rewards_schedules_limit: 10,
            min3rd_party_reward_valutation_per_session: 10,
            min3rd_party_reward_volume: 10,
            schedules_per_block: 5,
        }),
        free: BTreeMap::new(),
        reserved: BTreeMap::new(),
        next_token: 0,
        block: 1,
    }
}

impl Ext {
    fn free_balance(&self, t: CurrencyId, who: AccountId) -> Balance {
        *self.free.get(&(t, who)).unwrap_or(&0)
    }
    fn reserved_balance(&self, t: CurrencyId, who: AccountId) -> Balance {
        *self.reserved.get(&(t, who)).unwrap_or(&0)
    }
    fn create(&mut self, who: AccountId, amount: Balance) -> CurrencyId {
        let t = self.next_token;
        self.next_token += 1;
        self.mint(t, who, amount);
        t
    }
    fn mint(&mut self, t: CurrencyId, who: AccountId, amount: Balance) {
        *self.free.entry((t, who)).or_insert(0) += amount;
    }
    fn transfer(&mut self, t: CurrencyId, from: AccountId, to: AccountId, amount: Balance) -> Result<(), Fail> {
        if self.free_balance(t, from) < amount {
            return Err(Fail::BalanceTooLow);
        }
        *self.free.entry((t, from)).or_insert(0) -= amount;
        *self.free.entry((t, to)).or_insert(0) += amount;
        Ok(())
    }
    fn apply(&mut self, call: PosCall) {
        match call {
            PosCall::Activate { token, account, amount, .. } => {
                assert!(self.free_balance(token, account) >= amount);
                *self.free.entry((token, account)).or_insert(0) -= amount;
                *self.reserved.entry((token, account)).or_insert(0) += amount;
            },
            PosCall::Deactivate { token, account, amount } => {
                let moved = self.reserved_balance(token, account).min(amount);
                *self.reserved.entry((token, account)).or_insert(0) -= moved;
                *self.free.entry((token, account)).or_insert(0) += moved;
            },
            PosCall::TransferFromVault { to, amount } => self.transfer(NATIVE, VAULT, to, amount).unwrap(),
            PosCall::TransferToPallet { token, from, amount } => self.transfer(token, from, PALLET_ACCOUNT, amount).unwrap(),
            PosCall::TransferFromPallet { token, to, amount } => self.transfer(token, PALLET_ACCOUNT, to, amount).unwrap(),
        }
    }

    /// The curve for `user`'s native checkpoint for `token` now.
    fn curve(&self, user: AccountId, token: CurrencyId) -> AsymptoticCurveRewards {
        let now = self.p.session_index(self.block);
        let last = self.p.rewards_info.get(&user).and_then(|m| m.get(&token)).map(|i| i.last_checkpoint).unwrap_or(now);
        curve_for(now.saturating_sub(last))
    }

    fn update_pool_promotion(&mut self, token: CurrencyId, weight: u8) {
        self.p.update_pool_promotion(token, weight);
    }
    fn activate(&mut self, user: AccountId, token: CurrencyId, amount: Balance) -> Result<(), Fail> {
        let can = self.free_balance(token, user) >= amount;
        let curve = self.curve(user, token);
        let (_, call) = self.p.activate_liquidity_for_native_rewards(user, token, amount, None, self.block, curve, can).map_err(Fail::Pos)?;
        self.apply(call);
        Ok(())
    }
    fn deactivate(&mut self, user: AccountId, token: CurrencyId, amount: Balance) -> Result<(), Fail> {
        let curve = self.curve(user, token);
        if let Some((_, call)) = self.p.deactivate_liquidity_for_native_rewards(user, token, amount, self.block, curve).map_err(Fail::Pos)? {
            self.apply(call);
        }
        Ok(())
    }
    fn claim(&mut self, user: AccountId, token: CurrencyId) -> Result<Balance, Fail> {
        let curve = self.curve(user, token);
        let (amount, _, call) = self.p.claim_native_rewards(user, token, self.block, curve).map_err(Fail::Pos)?;
        self.apply(call);
        Ok(amount)
    }
    fn calculate(&self, user: AccountId, token: CurrencyId) -> Result<Balance, Fail> {
        self.p.calculate_native_rewards_amount(user, token, self.block, self.curve(user, token)).map_err(Fail::Pos)
    }
    fn rewards_info(&self, user: AccountId, token: CurrencyId) -> RewardInfo {
        self.p.rewards_info.get(&user).and_then(|m| m.get(&token)).cloned().unwrap_or(RewardInfo {
            activated_amount: 0,
            rewards_not_yet_claimed: 0,
            rewards_already_claimed: 0,
            last_checkpoint: 0,
            pool_ratio_at_last_checkpoint: U256::zero(),
            missing_at_last_checkpoint: U256::zero(),
        })
    }
    fn mint_and_activate(&mut self, who: AccountId, token: CurrencyId, amount: Balance) {
        self.mint(token, who, amount);
        self.activate(who, token, amount).unwrap();
    }
    fn forward_to_block_with_custom_rewards(&mut self, n: u64, rewards: Balance) {
        while self.block <= n {
            self.p.on_initialize(self.block);
            if self.block % 10 == 0 {
                self.p.distribute_rewards(rewards);
            }
            self.block += 1;
        }
    }
    fn forward_to_block(&mut self, n: u64) {
        self.forward_to_block_with_custom_rewards(n, 10000);
    }
    fn roll_to_session(&mut self, n: u32) {
        let block = n as u64 * 10;
        assert!(block >= self.block, "cannot roll to past block");
        self.forward_to_block(block);
    }

    /// Schedules `amount` of `token` as rewards for the pool the valuator finds
    /// (`liquidity_token`), valued at `valuation` per session, till `end`.
    fn reward_pool_valued(
        &mut self,
        sender: AccountId,
        liquidity_token: Option<CurrencyId>,
        token: CurrencyId,
        amount: Balance,
        end: u32,
        valuation: Balance,
    ) -> Result<(), Fail> {
        let call = self
            .p
            .reward_pool(sender, liquidity_token, token, amount, end, self.block, valuation, 0, Some(10), None)
            .map_err(Fail::Pos)?;
        if self.free_balance(token, sender) < amount {
            return Err(Fail::BalanceTooLow);
        }
        self.apply(call);
        Ok(())
    }
    fn reward_pool(&mut self, sender: AccountId, token: CurrencyId, amount: Balance, end: u32) -> Result<(), Fail> {
        self.reward_pool_valued(sender, Some(LIQUIDITY_TOKEN), token, amount, end, 11)
    }
    fn activate_3rdparty(&mut self, user: AccountId, liq: CurrencyId, amount: Balance, reward: CurrencyId) -> Result<(), Fail> {
        self.activate_3rdparty_from(user, liq, amount, reward, None)
    }
    fn activate_3rdparty_from(
        &mut self,
        user: AccountId,
        liq: CurrencyId,
        amount: Balance,
        reward: CurrencyId,
        kind: Option<ThirdPartyActivationKind>,
    ) -> Result<(), Fail> {
        let can = self.free_balance(liq, user) >= amount;
        let (_, call) = self.p.activate_liquidity_for_3rdparty_rewards(user, liq, amount, kind, reward, self.block, can).map_err(Fail::Pos)?;
        if let Some(c) = call {
            self.apply(c);
        }
        Ok(())
    }
    fn deactivate_3rdparty(&mut self, user: AccountId, liq: CurrencyId, amount: Balance, reward: CurrencyId) -> Result<(), Fail> {
        let (_, call) = self.p.deactivate_liquidity_for_3rdparty_rewards(user, liq, amount, reward, self.block).map_err(Fail::Pos)?;
        if let Some(c) = call {
            self.apply(c);
        }
        Ok(())
    }
    fn calculate_3rdparty(&self, user: AccountId, liq: CurrencyId, reward: CurrencyId) -> Result<Balance, Fail> {
        self.p.calculate_3rdparty_rewards_amount(user, liq, reward, self.block).map_err(Fail::Pos)
    }
    fn claim_3rdparty(&mut self, user: AccountId, liq: CurrencyId, reward: CurrencyId) -> Result<Balance, Fail> {
        let (amount, _, call) = self.p.claim_3rdparty_rewards(user, liq, reward, self.block).map_err(Fail::Pos)?;
        self.apply(call);
        Ok(amount)
    }
    fn pool_rewards(&self, token: CurrencyId) -> U256 {
        self.p.promoted_pool_rewards[&token].rewards
    }
}

/// Account 2 creates tokens 0 to 3 with `u128::MAX` each and token 4 with `liq`.
fn four_max_tokens_and(ext: &mut Ext, liq: Balance) {
    for _ in 0..4 {
        ext.create(2, u128::MAX);
    }
    ext.create(2, liq);
}

fn initialize_liquidity_rewards(ext: &mut Ext) {
    ext.block = 1;
    four_max_tokens_and(ext, 10000);
    ext.update_pool_promotion(4, 2);
    ext.p.promoted_pool_rewards.get_mut(&4).unwrap().rewards = U256::zero();
    ext.activate(2, 4, 10000).unwrap();
}

#[test]
fn liquidity_rewards_single_user_mint_W() {
    let mut ext = new_test_ext();
    four_max_tokens_and(&mut ext, 10000);
    let owned = ext.free_balance(4, 2);
    ext.update_pool_promotion(4, 2);
    ext.activate(2, 4, owned).unwrap();
    let info = ext.rewards_info(2, 4);
    assert_eq!(info.activated_amount, 10000);
    assert_eq!(info.rewards_not_yet_claimed, 0);
    assert_eq!(info.rewards_already_claimed, 0);
    assert_eq!(info.last_checkpoint, 0);
    assert_eq!(info.pool_ratio_at_last_checkpoint, U256::from_u128(0));
    assert_eq!(info.missing_at_last_checkpoint, U256::from_u128(10000));
    assert_eq!(ext.calculate(2, 4), Ok(0));
    let expected = [291u128, 873, 1716, 2847, 4215, 5844, 7712, 9817, 12142, 14704];
    for (i, e) in expected.iter().enumerate() {
        ext.block = 10 * (i as u64 + 1);
        ext.p.distribute_rewards(10000);
        assert_eq!(ext.calculate(2, 4), Ok(*e));
    }
}

fn three_users_ext(weight: u8) -> Ext {
    let mut ext = new_test_ext();
    four_max_tokens_and(&mut ext, 10000);
    ext.update_pool_promotion(4, weight);
    for to in [3, 4] {
        ext.transfer(0, 2, to, 1000000).unwrap();
        ext.transfer(1, 2, to, 1000000).unwrap();
    }
    let owned = ext.free_balance(4, 2);
    ext.activate(2, 4, owned).unwrap();
    ext
}

#[test]
fn liquidity_rewards_three_users_burn_W() {
    let mut ext = three_users_ext(1);
    ext.forward_to_block(100);
    ext.mint_and_activate(3, 4, 10000);
    ext.forward_to_block(200);
    ext.mint_and_activate(4, 4, 10000);
    ext.forward_to_block(240);
    ext.deactivate(4, 4, 5000).unwrap();
    ext.forward_to_block(400);
    assert_eq!(ext.calculate(2, 4), Ok(95965));
    assert_eq!(ext.calculate(3, 4), Ok(44142));
    assert_eq!(ext.calculate(4, 4), Ok(10630));
}

fn funded_vault_ext() -> Ext {
    let mut ext = new_test_ext();
    for _ in 0..4 {
        ext.create(2, u128::MAX);
    }
    ext.transfer(0, 2, VAULT, 10000000000).unwrap();
    ext
}

#[test]
fn liquidity_rewards_claim_W() {
    let mut ext = funded_vault_ext();
    ext.create(2, 10000);
    ext.update_pool_promotion(4, 1);
    let owned = ext.free_balance(4, 2);
    ext.activate(2, 4, owned).unwrap();
    ext.forward_to_block(10);
    ext.forward_to_block(90);
    assert_eq!(ext.calculate(2, 4), Ok(12142));
    ext.claim(2, 4).unwrap();
    ext.forward_to_block(100);
    assert_eq!(ext.calculate(2, 4), Ok(2562));
}

#[test]
fn liquidity_rewards_promote_pool_W() {
    let mut ext = new_test_ext();
    for _ in 0..5 {
        ext.create(2, u128::MAX);
    }
    ext.update_pool_promotion(4, 1);
}

#[test]
fn liquidity_rewards_promote_pool_already_promoted_NW() {
    let mut ext = new_test_ext();
    for _ in 0..5 {
        ext.create(2, u128::MAX);
    }
    ext.update_pool_promotion(4, 1);
    assert!(ext.p.is_enabled(4));
}

#[test]
fn liquidity_rewards_work_after_burn_W() {
    let mut ext = three_users_ext(1);
    ext.forward_to_block(100);
    assert_eq!(ext.calculate(2, 4), Ok(14704));
    ext.mint_and_activate(3, 4, 10000);
    ext.forward_to_block(200);
    ext.mint_and_activate(4, 4, 10000);
    ext.forward_to_block(240);
    ext.deactivate(4, 4, 10000).unwrap();
    ext.forward_to_block(400);
    assert_eq!(ext.calculate(4, 4), Ok(948));
    ext.mint_and_activate(4, 4, 20000);
    ext.forward_to_block(500);
    assert_eq!(ext.calculate(4, 4), Ok(8299));
}

#[test]
fn liquidity_rewards_deactivate_transfer_controled_W() {
    let mut ext = new_test_ext();
    four_max_tokens_and(&mut ext, 10000);
    ext.update_pool_promotion(4, 1);
    let owned = ext.free_balance(4, 2);
    ext.activate(2, 4, owned).unwrap();
    assert_eq!(ext.transfer(4, 2, 3, 10), Err(Fail::BalanceTooLow));
    ext.forward_to_block(100);
    assert_eq!(ext.calculate(2, 4), Ok(14704));
    ext.deactivate(2, 4, owned).unwrap();
    ext.transfer(4, 2, 3, 10).unwrap();
    assert_eq!(ext.calculate(2, 4), Ok(14704));
}

#[test]
fn liquidity_rewards_deactivate_more_NW() {
    let mut ext = new_test_ext();
    four_max_tokens_and(&mut ext, 10000);
    ext.update_pool_promotion(4, 1);
    let owned = ext.free_balance(4, 2);
    ext.activate(2, 4, owned).unwrap();
    assert_eq!(ext.deactivate(2, 4, owned + 1), Err(Fail::Pos(PosError::NotEnoughAssets)));
}

#[test]
fn liquidity_rewards_activate_more_NW() {
    let mut ext = new_test_ext();
    four_max_tokens_and(&mut ext, 10000);
    ext.update_pool_promotion(4, 1);
    let owned = ext.free_balance(4, 2);
    assert_eq!(ext.activate(2, 4, owned + 1), Err(Fail::Pos(PosError::NotEnoughAssets)));
}

#[test]
fn liquidity_rewards_calculate_rewards_pool_not_promoted() {
    let mut ext = new_test_ext();
    four_max_tokens_and(&mut ext, 10000);
    assert_eq!(ext.calculate(2, 4), Err(Fail::Pos(PosError::NotAPromotedPool)));
}

#[test]
fn liquidity_rewards_claim_pool_not_promoted() {
    let mut ext = new_test_ext();
    for _ in 0..4 {
        ext.create(2, u128::MAX);
    }
    assert_eq!(ext.claim(2, 7), Err(Fail::Pos(PosError::NotAPromotedPool)));
}

#[test]
fn liquidity_rewards_transfer_not_working() {
    let mut ext = new_test_ext();
    initialize_liquidity_rewards(&mut ext);
    assert_eq!(ext.transfer(4, 2, 3, 10), Err(Fail::BalanceTooLow));
}

#[test]
fn liquidity_rewards_not_yet_claimed_already_claimed_W() {
    let mut ext = funded_vault_ext();
    ext.create(2, 10000);
    ext.update_pool_promotion(4, 1);
    let owned = ext.free_balance(4, 2);
    ext.activate(2, 4, owned).unwrap();
    ext.forward_to_block(10);
    assert_eq!(ext.calculate(2, 4), Ok(291));
    ext.deactivate(2, 4, owned).unwrap();
    assert_eq!(ext.rewards_info(2, 4).rewards_not_yet_claimed, 291);
    ext.activate(2, 4, owned).unwrap();
    ext.forward_to_block(100);
    assert_eq!(ext.calculate(2, 4), Ok(12433));
    ext.claim(2, 4).unwrap();
    assert_eq!(ext.rewards_info(2, 4).rewards_already_claimed, 12142);
}

#[test]
fn extreme_case_pool_ratio() {
    let mut ext = new_test_ext();
    four_max_tokens_and(&mut ext, u128::MAX);
    ext.update_pool_promotion(4, 1);
    ext.activate(2, 4, 1).unwrap();
    let max = U256::from_u128(u128::MAX);
    ext.p.promoted_pool_rewards.get_mut(&4).unwrap().rewards = max.checked_mul(&max).unwrap();
    ext.block = 10000;
    assert_eq!(ext.calculate(2, 4), Ok(329053048812547494169083245386519860476));
}

#[test]
fn rewards_rounding_during_often_mint() {
    let mut ext = funded_vault_ext();
    let liq = |a: u128, b: u128| -> u128 { a / 2 + b / 2 };
    ext.create(2, liq(250000000000000000000000000, 10000000000000000));
    ext.update_pool_promotion(4, 1);
    ext.transfer(0, 2, 3, 10000000000000000000000000).unwrap();
    ext.transfer(1, 2, 3, 10000000000000000000000000).unwrap();
    ext.mint_and_activate(2, 4, liq(25000000000000000000000, 2000000000000));
    ext.mint_and_activate(3, 4, liq(25000000000000000000000, 2000000000000));
    let mut non_minter_higher = 0u32;
    for n in 1..10000u64 {
        ext.block = n;
        if (n + 1) % 10 == 0 {
            ext.p.distribute_rewards(10000);
            ext.mint_and_activate(3, 4, liq(34000000000000000000, 68000000000000000000));
            let rew_non_minter = ext.calculate(2, 4).unwrap();
            let rew_minter = ext.calculate(3, 4).unwrap();
            if rew_non_minter > rew_minter {
                non_minter_higher += 1;
            }
        }
    }
    assert!(non_minter_higher > 0);
}

/// Accounts 2 up to `last` activate 10000 each of token 4, then rewards of
/// `rewards` per session are distributed up to block 100.
fn storage_ext(last: AccountId, rewards: Balance) -> Ext {
    let mut ext = funded_vault_ext();
    ext.create(2, 10000);
    ext.update_pool_promotion(4, 1);
    for to in 3..last + 1 {
        ext.transfer(1, 2, to, 20010).unwrap();
        ext.transfer(2, 2, to, 20010).unwrap();
    }
    ext.activate(2, 4, 10000).unwrap();
    for who in 3..last + 1 {
        ext.mint_and_activate(who, 4, 10000);
    }
    ext.forward_to_block_with_custom_rewards(100, rewards);
    ext
}

fn max_times(k: u128) -> U256 {
    U256::from_u128(u128::MAX).checked_mul(&U256::from_u128(k)).unwrap()
}

fn claimed_split(ext: &Ext, who: AccountId) -> (Balance, Balance) {
    let i = ext.rewards_info(who, 4);
    (i.rewards_not_yet_claimed, i.rewards_already_claimed)
}

#[test]
fn rewards_storage_right_amounts_start1() {
    let mut ext = storage_ext(6, 50000);
    assert_eq!(ext.pool_rewards(4), max_times(10));
    for who in 2..7 {
        ext.claim(who, 4).unwrap();
    }
    for who in 2..7 {
        assert_eq!(claimed_split(&ext, who), (0, 14704));
    }
    ext.forward_to_block_with_custom_rewards(200, 50000);
    for who in 2..7 {
        assert_eq!(ext.calculate(who, 4), Ok(36530));
    }
    let before = ext.free_balance(0, 2);
    ext.claim(2, 4).unwrap();
    assert_eq!(claimed_split(&ext, 2), (0, 51234));
    assert_eq!(ext.calculate(2, 4), Ok(0));
    assert_eq!(ext.free_balance(0, 2) - before, 36530);

    let before = ext.free_balance(0, 3);
    ext.deactivate(3, 4, 5000).unwrap();
    assert_eq!(claimed_split(&ext, 3), (36530, 0));
    assert_eq!(ext.calculate(3, 4), Ok(36530));
    assert_eq!(ext.free_balance(0, 3) - before, 0);

    let before = ext.free_balance(0, 4);
    ext.mint_and_activate(4, 4, 5000);
    assert_eq!(claimed_split(&ext, 4), (36530, 0));
    assert_eq!(ext.calculate(4, 4), Ok(36530));
    assert_eq!(ext.free_balance(0, 4) - before, 0);

    let before = ext.free_balance(0, 5);
    ext.deactivate(5, 4, 5000).unwrap();
    assert_eq!(claimed_split(&ext, 5), (36530, 0));
    assert_eq!(ext.calculate(5, 4), Ok(36530));
    assert_eq!(ext.free_balance(0, 5) - before, 0);

    let before = ext.free_balance(0, 6);
    ext.claim(6, 4).unwrap();
    assert_eq!(claimed_split(&ext, 6), (0, 14704 + 36530));
    assert_eq!(ext.calculate(6, 4), Ok(0));
    assert_eq!(ext.free_balance(0, 6) - before, 36530);
}

#[test]
fn rewards_storage_right_amounts_start2() {
    let mut ext = storage_ext(5, 40000);
    assert_eq!(ext.pool_rewards(4), max_times(10));
    for who in 2..6 {
        ext.deactivate(who, 4, 5000).unwrap();
    }
    ext.forward_to_block_with_custom_rewards(200, 20000);
    assert_eq!(ext.pool_rewards(4), max_times(20));
    for who in 2..6 {
        assert_eq!(claimed_split(&ext, who), (14704, 0));
        assert_eq!(ext.calculate(who, 4), Ok(32973));
    }
    let before = ext.free_balance(0, 2);
    ext.claim(2, 4).unwrap();
    assert_eq!(claimed_split(&ext, 2), (0, 18269));
    assert_eq!(ext.calculate(2, 4), Ok(0));
    assert_eq!(ext.free_balance(0, 2) - before, 32973);

    let before = ext.free_balance(0, 3);
    ext.deactivate(3, 4, 5000).unwrap();
    assert_eq!(claimed_split(&ext, 3), (32973, 0));
    assert_eq!(ext.calculate(3, 4), Ok(32973));
    assert_eq!(ext.free_balance(0, 3) - before, 0);

    let before = ext.free_balance(0, 4);
    ext.mint_and_activate(4, 4, 5000);
    assert_eq!(claimed_split(&ext, 4), (32973, 0));
    assert_eq!(ext.calculate(4, 4), Ok(32973));
    assert_eq!(ext.free_balance(0, 4) - before, 0);

    let before = ext.free_balance(0, 5);
    ext.deactivate(5, 4, 5000).unwrap();
    assert_eq!(claimed_split(&ext, 5), (32973, 0));
    assert_eq!(ext.calculate(5, 4), Ok(32973));
    assert_eq!(ext.free_balance(0, 5) - before, 0);
}

#[test]
fn rewards_storage_right_amounts_start3() {
    let mut ext = storage_ext(3, 20000);
    assert_eq!(claimed_split(&ext, 2), (0, 0));
    assert_eq!(claimed_split(&ext, 3), (0, 0));
    assert_eq!(ext.calculate(2, 4), Ok(14704));
    assert_eq!(ext.calculate(3, 4), Ok(14704));
    let before = ext.free_balance(0, 2);
    ext.claim(2, 4).unwrap();
    assert_eq!(claimed_split(&ext, 2), (0, 14704));
    assert_eq!(ext.calculate(2, 4), Ok(0));
    assert_eq!(ext.free_balance(0, 2) - before, 14704);
    let before = ext.free_balance(0, 3);
    ext.claim(3, 4).unwrap();
    assert_eq!(claimed_split(&ext, 3), (0, 10000 + 4704));
    assert_eq!(ext.calculate(3, 4), Ok(0));
    assert_eq!(ext.free_balance(0, 3) - before, 10000 + 4704);
}

#[test]
fn liquidity_rewards_transfered_liq_tokens_produce_rewards_W() {
    let mut ext = funded_vault_ext();
    ext.create(2, 10000);
    ext.update_pool_promotion(4, 2);
    let owned = ext.free_balance(4, 2);
    ext.transfer(4, 2, 3, owned).unwrap();
    ext.activate(3, 4, owned).unwrap();
    ext.forward_to_block(100);
    assert_eq!(ext.calculate(3, 4), Ok(14704));
    ext.claim(3, 4).unwrap();
}

#[test]
fn claim_rewards_from_pool_that_has_been_disabled() {
    let mut ext = funded_vault_ext();
    ext.create(2, 10000);
    ext.update_pool_promotion(4, 1);
    let owned = ext.free_balance(4, 2);
    ext.activate(2, 4, owned).unwrap();
    ext.forward_to_block(10);
    assert_eq!(ext.calculate(2, 4), Ok(291));
    ext.update_pool_promotion(4, 0);
    ext.claim(2, 4).unwrap();
    assert_eq!(ext.calculate(2, 4), Ok(0));
}

// ~~ THIRD-PARTY REWARDS ~~

fn issued(list: &[(AccountId, CurrencyId, Balance)]) -> Ext {
    let mut ext = new_test_ext();
    for &(who, t, b) in list {
        ext.mint(t, who, b);
        ext.next_token = ext.next_token.max(t + 1);
    }
    ext
}

#[test]
fn user_can_provide_3rdparty_rewards() {
    let mut ext = issued(&[(ALICE, REWARD_TOKEN, REWARD_AMOUNT)]);
    ext.reward_pool(ALICE, REWARD_TOKEN, REWARD_AMOUNT / 2, 10).unwrap();
    ext.roll_to_session(5);
    ext.reward_pool(ALICE, REWARD_TOKEN, REWARD_AMOUNT / 2, 6).unwrap();
}

#[test]
fn cant_schedule_rewards_in_past() {
    let mut ext = issued(&[(ALICE, REWARD_TOKEN, REWARD_AMOUNT)]);
    ext.roll_to_session(5);
    for end in [1, 4, 5] {
        assert_eq!(ext.reward_pool(ALICE, REWARD_TOKEN, REWARD_AMOUNT, end), Err(Fail::Pos(PosError::CannotScheduleRewardsInPast)));
    }
}

#[test]
fn cannot_reward_unexisting_pool() {
    let mut ext = issued(&[(ALICE, REWARD_TOKEN, REWARD_AMOUNT)]);
    assert_eq!(
        ext.reward_pool_valued(ALICE, None, REWARD_TOKEN, REWARD_AMOUNT, 5, 11),
        Err(Fail::Pos(PosError::PoolDoesNotExist))
    );
}

#[test]
fn rewards_are_stored_in_pallet_account() {
    let mut ext = issued(&[(ALICE, REWARD_TOKEN, REWARD_AMOUNT)]);
    assert_eq!(ext.free_balance(REWARD_TOKEN, PALLET_ACCOUNT), 0);
    assert_eq!(ext.free_balance(REWARD_TOKEN, ALICE), REWARD_AMOUNT);
    assert_eq!(ext.reward_pool(ALICE, REWARD_TOKEN, REWARD_AMOUNT, 5), Ok(()));
    assert_eq!(ext.free_balance(REWARD_TOKEN, ALICE), 0);
    assert_eq!(ext.free_balance(REWARD_TOKEN, PALLET_ACCOUNT), REWARD_AMOUNT);
}

#[test]
fn rewards_schedule_is_stored() {
    let mut ext = issued(&[(ALICE, REWARD_TOKEN, REWARD_AMOUNT)]);
    assert_eq!(ext.reward_pool(ALICE, REWARD_TOKEN, REWARD_AMOUNT, 5), Ok(()));
    let rewards_per_session = REWARD_AMOUNT / 5;
    assert_eq!(ext.p.schedules(), vec![(5u64, LIQUIDITY_TOKEN, REWARD_TOKEN, rewards_per_session, 0)]);
}

#[test]
fn number_of_active_schedules_is_limited() {
    let mut ext = issued(&[(ALICE, REWARD_TOKEN, MILLION)]);
    let max_schedules = ext.p.config.rewards_schedules_limit;
    for i in 0..max_schedules {
        assert_eq!(ext.reward_pool(ALICE, REWARD_TOKEN, REWARD_AMOUNT, 5 + i), Ok(()));
    }
    assert_eq!(ext.reward_pool(ALICE, REWARD_TOKEN, REWARD_AMOUNT, 100), Err(Fail::Pos(PosError::TooManySchedules)));
    ext.roll_to_session(10);
    assert_eq!(ext.reward_pool(ALICE, REWARD_TOKEN, REWARD_AMOUNT, 100), Ok(()));
}

#[test]
fn duplicated_schedules_works() {
    let mut ext = issued(&[(ALICE, REWARD_TOKEN, REWARD_AMOUNT)]);
    assert_eq!(ext.reward_pool(ALICE, REWARD_TOKEN, REWARD_AMOUNT / 2, 5), Ok(()));
    assert_eq!(1, ext.p.schedules().len());
    assert_eq!(ext.reward_pool(ALICE, REWARD_TOKEN, REWARD_AMOUNT / 2, 5), Ok(()));
    assert_eq!(2, ext.p.schedules().len());
}

#[test]
fn reject_schedule_with_too_little_rewards_per_session() {
    let mut ext = issued(&[(ALICE, REWARD_TOKEN, REWARD_AMOUNT)]);
    ext.roll_to_session(4);
    assert_eq!(
        ext.reward_pool_valued(ALICE, Some(LIQUIDITY_TOKEN), REWARD_TOKEN, 1, 5, 1),
        Err(Fail::Pos(PosError::TooLittleRewards))
    );
}

#[test]
fn accept_schedule_valuated_in_native_token() {
    let mut ext = issued(&[(ALICE, NATIVE, REWARD_AMOUNT)]);
    ext.roll_to_session(4);
    assert_eq!(ext.reward_pool_valued(ALICE, Some(LIQUIDITY_TOKEN), NATIVE, 10, 5, 1), Ok(()));
}

fn two_reward_tokens_ext(bob_liquidity: Balance) -> Ext {
    issued(&[(ALICE, FIRST_REWARD_TOKEN, REWARD_AMOUNT), (ALICE, SECOND_REWARD_TOKEN, 100_000), (BOB, LIQUIDITY_TOKEN, bob_liquidity)])
}

#[test]
fn when_liquidity_mining_is_reused_it_is_unlocked_properly() {
    let mut ext = two_reward_tokens_ext(100);
    ext.update_pool_promotion(LIQUIDITY_TOKEN, 1);
    ext.reward_pool(ALICE, FIRST_REWARD_TOKEN, REWARD_AMOUNT, 10).unwrap();
    ext.reward_pool(ALICE, SECOND_REWARD_TOKEN, 2 * REWARD_AMOUNT, 10).unwrap();
    ext.activate(BOB, LIQUIDITY_TOKEN, 100).unwrap();
    assert_eq!(ext.transfer(LIQUIDITY_TOKEN, BOB, CHARLIE, 100), Err(Fail::BalanceTooLow));
    ext.activate_3rdparty_from(BOB, LIQUIDITY_TOKEN, 100, FIRST_REWARD_TOKEN, Some(ThirdPartyActivationKind::NativeRewardsLiquidity))
        .unwrap();
    ext.mint(LIQUIDITY_TOKEN, BOB, 100);
    ext.activate_3rdparty(BOB, LIQUIDITY_TOKEN, 100, FIRST_REWARD_TOKEN).unwrap();
    ext.deactivate_3rdparty(BOB, LIQUIDITY_TOKEN, 200, FIRST_REWARD_TOKEN).unwrap();
    assert_eq!(ext.transfer(LIQUIDITY_TOKEN, BOB, CHARLIE, 101), Err(Fail::BalanceTooLow));
    assert_eq!(ext.transfer(LIQUIDITY_TOKEN, BOB, CHARLIE, 100), Ok(()));
}

#[test]
fn liquidity_can_be_deactivated_when_all_reward_participation_were_deactivated() {
    let mut ext = two_reward_tokens_ext(100);
    ext.update_pool_promotion(LIQUIDITY_TOKEN, 1);
    ext.reward_pool(ALICE, FIRST_REWARD_TOKEN, REWARD_AMOUNT, 10).unwrap();
    ext.reward_pool(ALICE, SECOND_REWARD_TOKEN, 2 * REWARD_AMOUNT, 10).unwrap();
    ext.activate_3rdparty(BOB, LIQUIDITY_TOKEN, 100, FIRST_REWARD_TOKEN).unwrap();
    ext.activate_3rdparty_from(
        BOB,
        LIQUIDITY_TOKEN,
        100,
        SECOND_REWARD_TOKEN,
        Some(ThirdPartyActivationKind::ActivatedLiquidity(FIRST_REWARD_TOKEN)),
    )
    .unwrap();
    assert_eq!(ext.transfer(0, BOB, CHARLIE, 100), Err(Fail::BalanceTooLow));
    ext.deactivate_3rdparty(BOB, LIQUIDITY_TOKEN, 100, FIRST_REWARD_TOKEN).unwrap();
    assert_eq!(ext.transfer(LIQUIDITY_TOKEN, BOB, CHARLIE, 100), Err(Fail::BalanceTooLow));
    ext.deactivate_3rdparty(BOB, LIQUIDITY_TOKEN, 100, SECOND_REWARD_TOKEN).unwrap();
    assert_eq!(ext.transfer(LIQUIDITY_TOKEN, BOB, CHARLIE, 100), Ok(()));
}

#[test]
fn can_not_provide_liquidity_for_schedule_rewards_when_its_only_activated_for_liq_minting() {
    let mut ext = issued(&[(ALICE, REWARD_TOKEN, REWARD_AMOUNT), (BOB, LIQUIDITY_TOKEN, 100)]);
    ext.update_pool_promotion(LIQUIDITY_TOKEN, 1);
    assert_eq!(ext.activate_3rdparty(BOB, LIQUIDITY_TOKEN, 100, REWARD_TOKEN), Err(Fail::Pos(PosError::NotAPromotedPool)));
}

#[test]
fn can_not_provide_liquidity_for_mining_rewards_when_its_only_activated_for_schedule_rewards() {
    let mut ext = issued(&[(ALICE, REWARD_TOKEN, REWARD_AMOUNT), (BOB, LIQUIDITY_TOKEN, 100)]);
    ext.reward_pool(ALICE, REWARD_TOKEN, REWARD_AMOUNT, 10).unwrap();
    assert_eq!(ext.activate(BOB, LIQUIDITY_TOKEN, 100), Err(Fail::Pos(PosError::NotAPromotedPool)));
}

#[test]
fn scheduled_rewards_of_a_session_are_paid_from_the_next() {
    let mut ext = issued(&[(ALICE, REWARD_TOKEN, REWARD_AMOUNT), (BOB, LIQUIDITY_TOKEN, 100)]);
    ext.reward_pool(ALICE, REWARD_TOKEN, REWARD_AMOUNT, 10).unwrap();
    assert_eq!(ext.p.rewards_schedules_list[&0].0.amount_per_session, 1000);
    ext.roll_to_session(1);
    ext.activate_3rdparty(BOB, LIQUIDITY_TOKEN, 100, REWARD_TOKEN).unwrap();
    assert_eq!(ext.reserved_balance(LIQUIDITY_TOKEN, BOB), 100);
    assert_eq!(ext.calculate_3rdparty(BOB, LIQUIDITY_TOKEN, REWARD_TOKEN), Ok(0));
    ext.roll_to_session(2);
    assert_eq!(ext.calculate_3rdparty(BOB, LIQUIDITY_TOKEN, REWARD_TOKEN), Ok(1000));
    ext.roll_to_session(3);
    assert_eq!(ext.calculate_3rdparty(BOB, LIQUIDITY_TOKEN, REWARD_TOKEN), Ok(2000));
    assert_eq!(ext.claim_3rdparty(BOB, LIQUIDITY_TOKEN, REWARD_TOKEN), Ok(2000));
    assert_eq!(ext.free_balance(REWARD_TOKEN, BOB), 2000);
    assert_eq!(ext.free_balance(REWARD_TOKEN, PALLET_ACCOUNT), REWARD_AMOUNT - 2000);
    assert_eq!(ext.calculate_3rdparty(BOB, LIQUIDITY_TOKEN, REWARD_TOKEN), Ok(0));
    assert_eq!(
        ext.claim_3rdparty(BOB, LIQUIDITY_TOKEN, REWARD_TOKEN),
        Err(Fail::Pos(PosError::NoThirdPartyPartyRewardsToClaim))
    );
}

#[test]
fn schedule_links_lead_to_larger_ids() {
    let mut ext = issued(&[(ALICE, REWARD_TOKEN, MILLION)]);
    assert_eq!(ext.reward_pool(ALICE, REWARD_TOKEN, REWARD_AMOUNT, 2), Ok(()));
    assert_eq!(ext.reward_pool(ALICE, REWARD_TOKEN, REWARD_AMOUNT, 8), Ok(()));
    assert_eq!(ext.reward_pool(ALICE, REWARD_TOKEN, REWARD_AMOUNT, 3), Ok(()));
    ext.roll_to_session(5);
    for (id, (_, next)) in ext.p.rewards_schedules_list.iter() {
        if let Some(n) = next {
            assert!(id < n);
        }
    }
    // the expired schedules were unlinked: only the one ending in session 8 is left
    let live: Vec<u64> = ext.p.schedules().iter().filter(|s| s.0 >= 5).map(|s| s.4).collect();
    assert_eq!(live, vec![1]);
    assert_eq!(ext.p.schedules_list_metadata.count, 1);
    assert_eq!(ext.p.schedules_list_metadata.head, Some(1));
}

#[test]
fn user_can_claim_3rdparty_rewards() {
    let mut ext = issued(&[(ALICE, REWARD_TOKEN, REWARD_AMOUNT), (BOB, LIQUIDITY_TOKEN, 100), (CHARLIE, LIQUIDITY_TOKEN, 100), (EVE, LIQUIDITY_TOKEN, 100)]);
    ext.mint(LIQUIDITY_TOKEN, BOB, 100);
    ext.mint(LIQUIDITY_TOKEN, CHARLIE, 100);
    ext.mint(LIQUIDITY_TOKEN, EVE, 100);
    ext.reward_pool(ALICE, REWARD_TOKEN, REWARD_AMOUNT, 10).unwrap();

    ext.roll_to_session(1);
    ext.activate_3rdparty(BOB, LIQUIDITY_TOKEN, 100, REWARD_TOKEN).unwrap();
    assert_eq!(ext.calculate_3rdparty(BOB, LIQUIDITY_TOKEN, REWARD_TOKEN), Ok(0));

    ext.roll_to_session(2);
    ext.activate_3rdparty(CHARLIE, LIQUIDITY_TOKEN, 100, REWARD_TOKEN).unwrap();
    assert_eq!(ext.calculate_3rdparty(CHARLIE, LIQUIDITY_TOKEN, REWARD_TOKEN), Ok(0));
    assert_eq!(ext.calculate_3rdparty(BOB, LIQUIDITY_TOKEN, REWARD_TOKEN), Ok(1000));

    ext.roll_to_session(3);
    assert_eq!(ext.calculate_3rdparty(BOB, LIQUIDITY_TOKEN, REWARD_TOKEN), Ok(1500));
    assert_eq!(ext.calculate_3rdparty(CHARLIE, LIQUIDITY_TOKEN, REWARD_TOKEN), Ok(500));
}

#[test]
fn deactivate_3rdparty_rewards() {
    let mut ext = issued(&[(ALICE, REWARD_TOKEN, REWARD_AMOUNT), (BOB, LIQUIDITY_TOKEN, 100), (CHARLIE, LIQUIDITY_TOKEN, 100)]);
    ext.reward_pool(ALICE, REWARD_TOKEN, REWARD_AMOUNT, 10).unwrap();

    ext.roll_to_session(1);
    ext.activate_3rdparty(BOB, LIQUIDITY_TOKEN, 100, REWARD_TOKEN).unwrap();
    ext.activate_3rdparty(CHARLIE, LIQUIDITY_TOKEN, 100, REWARD_TOKEN).unwrap();

    ext.roll_to_session(2);
    assert_eq!(ext.calculate_3rdparty(BOB, LIQUIDITY_TOKEN, REWARD_TOKEN), Ok(500));
    assert_eq!(ext.calculate_3rdparty(CHARLIE, LIQUIDITY_TOKEN, REWARD_TOKEN), Ok(500));
    ext.deactivate_3rdparty(CHARLIE, LIQUIDITY_TOKEN, 100, REWARD_TOKEN).unwrap();

    ext.roll_to_session(3);
    assert_eq!(ext.calculate_3rdparty(BOB, LIQUIDITY_TOKEN, REWARD_TOKEN), Ok(1500));
    assert_eq!(ext.calculate_3rdparty(CHARLIE, LIQUIDITY_TOKEN, REWARD_TOKEN), Ok(500));
}

#[test]
fn new_session_exactly_when_the_session_changes() {
    let ext = new_test_ext();
    for block in 1..60u64 {
        let changes = ext.p.session_index(block) != ext.p.session_index(block - 1);
        assert_eq!(ext.p.is_new_session(block), changes);
    }
}

#[test]
fn newly_promoted_pool_starts_without_rewards() {
    let mut ext = new_test_ext();
    ext.update_pool_promotion(LIQUIDITY_TOKEN, 3);
    assert_eq!(ext.p.promoted_pool_rewards.len(), 1);
    assert_eq!(ext.pool_rewards(LIQUIDITY_TOKEN), U256::zero());
    assert_eq!(ext.p.promoted_pool_rewards[&LIQUIDITY_TOKEN].weight, 3);
}
