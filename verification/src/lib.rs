//! Verified core of the Mangata staking and proof-of-stake pallets.
//!
//! The crate keeps the decision logic of parachain staking (collator candidates,
//! delegators, pending requests, rounds, reward splitting and collator selection)
//! and of liquidity-mining rewards (reward checkpoints, schedule rewards) as plain
//! Rust, each function with a proved contract.

use vstd::prelude::*;

pub mod aggregation;
pub mod arith;
pub mod bond;
pub mod candidate;
pub mod collator_payout;
pub mod delegator;
pub mod genesis;
pub mod ordered_set;
pub mod payout;
pub mod pos;
pub mod random_seed;
pub mod reward_info;
pub mod round;
pub mod round_rewards;
pub mod round_selection;
pub mod schedule_rewards;
pub mod rpc;
pub mod selection;
pub mod staking;
pub mod staking_events;

verus! {

/// Account identifiers.
pub type AccountId = u64;

/// Token amounts.
pub type Balance = u128;

/// Token identifiers.
pub type CurrencyId = u32;

/// Round (session) numbers of the staking pallet.
pub type RoundIndex = u32;

} // verus!
