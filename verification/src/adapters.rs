//! Small adapters that the runtime around the engine plugs in.

use vstd::prelude::*;

use crate::config::Config;
use crate::pallet::Pallet;
use crate::types::AccountId;

verus! {

/// Converts an account into the collator it stands for: every account is its own collator.
pub struct IdentityCollator;

impl IdentityCollator {
    /// The collator of `t`, which is `t` itself.
    pub fn convert(t: AccountId) -> (r: Option<AccountId>)
        ensures
            r == Some(t),
    {
        Some(t)
    }
}

/// The maximum number of desired candidates that a configuration allows.
pub struct MaxDesiredCandidates;

impl MaxDesiredCandidates {
    /// The maximum number of candidates plus the maximum number of invulnerables, saturating.
    pub fn get(config: &Config) -> (r: u32)
        ensures
            r == config.spec_max_desired_candidates(),
    {
        config.max_desired_candidates()
    }
}

/// The account of the engine's reward pot.
pub struct StakingPotAccountId;

impl StakingPotAccountId {
    /// The account of the reward pot of `pallet`.
    pub fn get(pallet: &Pallet) -> (r: AccountId)
        ensures
            r == pallet.spec_account_id(),
    {
        pallet.account_id()
    }
}

} // verus!
