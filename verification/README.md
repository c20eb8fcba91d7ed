# mangata_pallets

The decision logic of Mangata's parachain staking and proof-of-stake
(liquidity mining) pallets, as a library whose functions carry proved
contracts.

## Layout

- `src/` — the library.
  - `staking.rs`, `candidate.rs`, `delegator.rs`, `bond.rs`, `ordered_set.rs`:
    collator candidates, delegators, pending requests and their storage.
  - `round.rs`, `round_rewards.rs`, `round_selection.rs`, `selection.rs`,
    `aggregation.rs`: rounds, collator selection and aggregators.
  - `payout.rs`, `collator_payout.rs`: splitting and paying round rewards.
  - `genesis.rs`: building the staking storage a chain starts with.
  - `pos.rs`, `reward_info.rs`, `schedule_rewards.rs`: liquidity-mining
    checkpoints, native rewards and scheduled (third-party) rewards.
  - `arith.rs`: 256-bit and per-thing arithmetic, through `sp-core` and
    `sp-arithmetic`.
  - `random_seed.rs`, `rpc.rs`, `staking_events.rs`: small supporting types.
- `tests/` — scenario tests on concrete values.
- `app/` — what the library does not take: the floating-point powers of the
  native rewards curve.

Storage, balances, pool valuations and issuance belong to the runtime: the
library takes them as plain values and returns the transfers and reserves to
make as values of its own.
