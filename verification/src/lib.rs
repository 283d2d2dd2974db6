//! Collator staking: a delegated proof-of-stake engine for the collators of a parachain.
//!
//! Stakers lock funds and stake them on collator candidates; the best-backed candidates,
//! together with a fixed set of invulnerable collators, form the collator set of each
//! session. Rewards collected during a session are shared between the collators that
//! produced blocks and their stakers, proportionally to the stake.
//!
//! The whole engine is a plain state machine: [`pallet::Pallet`] holds every piece of
//! state, each extrinsic and hook is a method on it, and [`ledger::Ledger`] is the account
//! ledger (balances with per-reason freezes) that it runs against. [`migration`] moves the
//! engine's storage from layout version 1 to version 2, a step per block, within a weight
//! budget; [`laws`] states properties that span several operations.

pub mod arith;
pub mod types;
pub mod ledger;
pub mod config;
pub mod pallet;
pub mod staking;
pub mod release;
pub mod candidacy;
pub mod accounts;
pub mod admin;
pub mod invulnerables;
pub mod rewards;
pub mod session;
pub mod collators;
pub mod genesis;
pub mod adapters;
pub mod weight;
pub mod migration;
pub mod migration_check;
pub mod laws;
pub mod migration_laws;
