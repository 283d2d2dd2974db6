# collator_staking

A delegated proof-of-stake engine for the collators of a parachain, written in Verus and
verified: stakers lock funds and stake them on collator candidates, the best-backed
candidates join a fixed set of invulnerables as the collators of each session, and the
rewards of a session are shared between the collators that produced blocks and their
stakers.

## Layout

- `src/` – the verified library.
  - `types.rs`, `config.rs`, `arith.rs`, `weight.rs`: plain data, the configuration,
    percentages and parts per billion (computed by `sp-arithmetic`), weights and the weight
    meter.
  - `ledger.rs`: the account ledger, with balances and per-reason freezes.
  - `pallet.rs`: the whole state of the engine and its well-formedness.
  - `staking.rs`, `release.rs`, `candidacy.rs`, `invulnerables.rs`, `admin.rs`: the calls.
  - `rewards.rs`, `session.rs`, `collators.rs`: the session hooks and reward distribution.
  - `genesis.rs`, `adapters.rs`, `accounts.rs`: genesis, small adapters, pot accounts
    (derived with `parity-scale-codec`).
  - `migration.rs`, `migration_check.rs`: the multi-block storage migration to layout
    version 2, and the checks around it.
  - `laws.rs`, `migration_laws.rs`: properties that span several operations, and those of a
    migration run step after step.
- `tests/` – scenarios and unit checks.
- `app/` – the runtime side: genesis with its panics, a block and session driver, and the
  runtime queries.
