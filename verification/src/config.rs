//! The constants an engine is configured with.

use vstd::prelude::*;

use crate::types::{AccountId, BlockNumber, UpdateOrigin};

verus! {

/// A demand of the integrity test that a configuration does not meet.
#[derive(Clone, Copy, Debug, PartialEq, Eq, Structural)]
pub enum IntegrityError {
    /// No collator is required at all.
    NoCollatorRequired,
    /// Invulnerables and candidates together cannot satisfy the demand for collators.
    CollatorDemandUnreachable,
    /// A staker could be asked to stake on more candidates than there can be.
    TooManyStakedCandidates,
}

/// The configuration of the engine, fixed when it is built.
#[derive(Clone, Copy, Debug)]
pub struct Config {
    /// Maximum number of candidates (invulnerables not included).
    pub max_candidates: u32,
    /// Minimum number of eligible collators, invulnerables included.
    pub min_eligible_collators: u32,
    /// Maximum number of invulnerables.
    pub max_invulnerables: u32,
    /// A candidate that did not author a block within this many blocks may be kicked.
    pub kick_threshold: BlockNumber,
    /// Maximum number of candidates a staker can stake on.
    pub max_staked_candidates: u32,
    /// Maximum number of stakers per candidate.
    pub max_stakers: u32,
    /// Blocks to wait before the bond of a removed candidate is released.
    pub bond_unlock_delay: BlockNumber,
    /// Blocks to wait before unlocked stake is released.
    pub stake_unlock_delay: BlockNumber,
    /// Blocks to wait before unstaked funds can be staked again.
    pub restake_unlock_delay: BlockNumber,
    /// Identifier from which the reward pot account is derived.
    pub pot_id: [u8; 8],
    /// Identifier from which the extra reward pot account is derived.
    pub extra_reward_pot_id: [u8; 8],
    /// Where the funds left in the extra reward pot go when extra rewards stop.
    pub extra_reward_receiver: Option<AccountId>,
    /// Who may change the parameters of the engine.
    pub update_origin: UpdateOrigin,
}

impl Config {
    /// The maximum number of desired candidates: candidates and invulnerables together,
    /// saturating.
    pub open spec fn spec_max_desired_candidates(self) -> u32 {
        if self.max_candidates + self.max_invulnerables > u32::MAX {
            u32::MAX
        } else {
            (self.max_candidates + self.max_invulnerables) as u32
        }
    }

    /// The longest delay that is ever added to the current block number.
    pub open spec fn max_delay(self) -> int {
        self.kick_threshold + self.bond_unlock_delay + self.stake_unlock_delay + self.restake_unlock_delay
    }

    /// What the integrity test demands of the configuration.
    pub open spec fn spec_integrity(self) -> bool {
        &&& self.min_eligible_collators > 0
        &&& self.spec_max_desired_candidates() >= self.min_eligible_collators
        &&& self.max_candidates >= self.max_staked_candidates
    }

    /// The maximum number of desired candidates: candidates and invulnerables together,
    /// saturating.
    pub fn max_desired_candidates(&self) -> (r: u32)
        ensures
            r == self.spec_max_desired_candidates(),
    {
        self.max_candidates.saturating_add(self.max_invulnerables)
    }

    /// The first demand of the integrity test that the configuration does not meet, if any.
    pub open spec fn spec_integrity_error(self) -> Option<IntegrityError> {
        if self.min_eligible_collators == 0 {
            Some(IntegrityError::NoCollatorRequired)
        } else if self.spec_max_desired_candidates() < self.min_eligible_collators {
            Some(IntegrityError::CollatorDemandUnreachable)
        } else if self.max_candidates < self.max_staked_candidates {
            Some(IntegrityError::TooManyStakedCandidates)
        } else {
            None
        }
    }

    /// Checks the configuration: at least one collator is required, invulnerables and
    /// candidates together can satisfy that demand, and a staker cannot be asked to stake on
    /// more candidates than there can be.
    pub fn integrity_test(&self) -> (r: Result<(), IntegrityError>)
        ensures
            r is Ok <==> self.spec_integrity(),
            r is Ok <==> self.spec_integrity_error() is None,
            r is Err ==> r->Err_0 == self.spec_integrity_error()->0,
    {
        if self.min_eligible_collators == 0 {
            return Err(IntegrityError::NoCollatorRequired);
        }
        if self.max_desired_candidates() < self.min_eligible_collators {
            return Err(IntegrityError::CollatorDemandUnreachable);
        }
        if self.max_candidates < self.max_staked_candidates {
            return Err(IntegrityError::TooManyStakedCandidates);
        }
        Ok(())
    }
}

} // verus!
