//! Building the engine from its genesis configuration, and checking its state.

use std::collections::HashMap;
use vstd::prelude::*;
use vstd::std_specs::iter::IteratorSpec;

use crate::arith::Percent;
use crate::config::{Config, IntegrityError};
use crate::invulnerables::{sort_accounts, sorted_of};
use crate::ledger::{AccountData, Ledger};
use crate::pallet::Pallet;
use crate::types::{AccountId, Balance, UserStakeInfo};

verus! {

broadcast use vstd::std_specs::hash::group_hash_axioms;

/// The genesis configuration of the engine.
pub struct GenesisConfig {
    /// The initial invulnerables, in any order.
    pub invulnerables: Vec<AccountId>,
    /// The minimum candidacy bond.
    pub candidacy_bond: Balance,
    /// The minimum stake.
    pub min_stake: Balance,
    /// The desired number of candidates.
    pub desired_candidates: u32,
    /// The percentage of rewards that goes to the collators.
    pub collator_reward_percentage: Percent,
    /// The per-block extra reward.
    pub extra_reward: Balance,
}

/// Why a genesis configuration cannot be built.
#[derive(Clone, Copy, Debug, PartialEq, Eq, Structural)]
pub enum GenesisError {
    /// The minimum stake is higher than the candidacy bond.
    MinStakeAboveCandidacyBond,
    /// An invulnerable is listed twice.
    DuplicateInvulnerables,
    /// There are more invulnerables than allowed.
    TooManyInvulnerables,
    /// More candidates are desired than there can be.
    TooManyDesiredCandidates,
}

/// Why the state of the engine is not as it should be.
#[derive(Clone, Copy, Debug, PartialEq, Eq, Structural)]
pub enum TryStateError {
    /// More candidates are desired than the configuration allows.
    TooManyDesiredCandidates,
    /// The invulnerables together with the desired candidates cannot meet the collator quota.
    CollatorQuotaUnreachable,
    /// A staker counts more staked candidates than allowed.
    TooManyStakedCandidates,
}

/// The accounts of a list are pairwise distinct.
pub open spec fn no_duplicates(s: Seq<AccountId>) -> bool {
    forall|i: int, j: int| 0 <= i < s.len() && 0 <= j < s.len() && i != j ==> s[i] != s[j]
}

impl GenesisConfig {
    /// What the genesis build demands: the minimum stake does not exceed the candidacy bond,
    /// no invulnerable is listed twice, there are not too many invulnerables, and no more
    /// candidates are desired than there can be.
    pub open spec fn spec_valid(self, config: Config) -> bool {
        &&& self.min_stake <= self.candidacy_bond
        &&& no_duplicates(self.invulnerables@)
        &&& self.invulnerables@.len() <= config.max_invulnerables
        &&& config.max_candidates >= self.desired_candidates
    }

    /// The reason, in the order of the checks, why the build refuses this configuration.
    pub open spec fn spec_error(self, config: Config) -> Option<GenesisError> {
        if self.min_stake > self.candidacy_bond {
            Some(GenesisError::MinStakeAboveCandidacyBond)
        } else if !no_duplicates(self.invulnerables@) {
            Some(GenesisError::DuplicateInvulnerables)
        } else if self.invulnerables@.len() > config.max_invulnerables {
            Some(GenesisError::TooManyInvulnerables)
        } else if config.max_candidates < self.desired_candidates {
            Some(GenesisError::TooManyDesiredCandidates)
        } else {
            None
        }
    }

    /// Checks what the build demands of this configuration: the minimum stake does not
    /// exceed the candidacy bond, no invulnerable is listed twice, there are not too many
    /// invulnerables, and no more candidates are desired than there can be.
    pub fn check(&self, config: &Config) -> (r: Result<(), GenesisError>)
        ensures
            r is Ok <==> self.spec_valid(*config),
            r is Ok <==> self.spec_error(*config) is None,
            r is Err ==> r->Err_0 == self.spec_error(*config)->0,
    {
        if self.min_stake > self.candidacy_bond {
            return Err(GenesisError::MinStakeAboveCandidacyBond);
        }
        let s = &self.invulnerables;
        let mut i: usize = 0;
        while i < s.len()
            invariant
                i <= s@.len(),
                s@ == self.invulnerables@,
                self.min_stake <= self.candidacy_bond,
                forall|a: int, b: int| 0 <= a < i && 0 <= b < s@.len() && a != b ==> s@[a] != s@[b],
            decreases s@.len() - i,
        {
            let mut j: usize = 0;
            while j < s.len()
                invariant
                    i < s@.len(),
                    j <= s@.len(),
                    s@ == self.invulnerables@,
                    self.min_stake <= self.candidacy_bond,
                    forall|a: int, b: int| 0 <= a < i && 0 <= b < s@.len() && a != b ==> s@[a] != s@[b],
                    forall|b: int| 0 <= b < j && b != i ==> s@[i as int] != s@[b],
                decreases s@.len() - j,
            {
                if j != i && s[i] == s[j] {
                    assert(!no_duplicates(self.invulnerables@));
                    return Err(GenesisError::DuplicateInvulnerables);
                }
                j = j + 1;
            }
            i = i + 1;
        }
        if s.len() as u64 > config.max_invulnerables as u64 {
            return Err(GenesisError::TooManyInvulnerables);
        }
        if config.max_candidates < self.desired_candidates {
            return Err(GenesisError::TooManyDesiredCandidates);
        }
        Ok(())
    }

    /// Builds the engine at block zero: the invulnerables sorted, no candidates, the
    /// parameters of the genesis configuration, and an empty ledger with the given existential
    /// deposit.
    pub fn build(&self, config: Config, existential_deposit: Balance) -> (r: Pallet)
        requires
            self.spec_valid(config),
            config.max_delay() <= u64::MAX,
        ensures
            r.wf(),
            r.config == config,
            r.block_number == 0,
            sorted_of(r.invulnerables@, self.invulnerables@),
            r.candidates@.len() == 0,
            r.retained@.len() == 0,
            r.desired_candidates == self.desired_candidates,
            r.min_candidacy_bond == self.candidacy_bond,
            r.min_stake == self.min_stake,
            r.collator_reward_percentage == self.collator_reward_percentage,
            r.extra_reward == self.extra_reward,
            r.current_session == 0,
            r.last_authored_block@.len() == 0,
            r.user_stake@.len() == 0,
            r.release_queues@.len() == 0,
            r.bond_releases@.len() == 0,
            r.total_blocks@.len() == 0,
            r.rewards@.len() == 0,
            r.produced_blocks@.len() == 0,
            r.auto_compound@.len() == 0,
            r.ledger.existential_deposit == existential_deposit,
            forall|w: AccountId| #[trigger] r.ledger.account(w) == AccountData::empty(),
            r.events@.len() == 0,
    {
        let invulnerables = sort_accounts(&self.invulnerables);
        proof {
            vstd::seq_lib::to_multiset_len(invulnerables@);
            vstd::seq_lib::to_multiset_len(self.invulnerables@);
        }
        Pallet {
            config,
            block_number: 0,
            invulnerables,
            candidates: Vec::new(),
            retained: Vec::new(),
            last_authored_block: HashMap::new(),
            desired_candidates: self.desired_candidates,
            min_candidacy_bond: self.candidacy_bond,
            min_stake: self.min_stake,
            user_stake: HashMap::new(),
            release_queues: HashMap::new(),
            bond_releases: HashMap::new(),
            collator_reward_percentage: self.collator_reward_percentage,
            extra_reward: self.extra_reward,
            total_blocks: HashMap::new(),
            rewards: HashMap::new(),
            produced_blocks: Vec::new(),
            current_session: 0,
            auto_compound: HashMap::new(),
            ledger: Ledger::new(existential_deposit),
            events: Vec::new(),
        }
    }
}

/// A value listed by a walk over the values of a map is the value of some key.
proof fn lemma_listed_value_has_key(m: Map<AccountId, UserStakeInfo>, s: Seq<UserStakeInfo>, v: UserStakeInfo)
    requires
        s.to_set() == m.values(),
        s.contains(v),
    ensures
        exists|w: AccountId| #[trigger] m.contains_key(w) && m[w] == v,
{
    assert(s.to_set().contains(v));
    assert(m.values().contains(v));
}

/// When every value listed by a walk over the values of a map is within a bound, every value
/// of the map is.
proof fn lemma_all_values_within(m: Map<AccountId, UserStakeInfo>, s: Seq<UserStakeInfo>, max: u32)
    requires
        s.to_set() == m.values(),
        forall|j: int| 0 <= j < s.len() ==> (#[trigger] s[j]).count <= max,
    ensures
        forall|w: AccountId| #[trigger] m.contains_key(w) ==> m[w].count <= max,
{
    assert forall|w: AccountId| #[trigger] m.contains_key(w) implies m[w].count <= max by {
        assert(m.values().contains(m[w]));
        assert(s.to_set().contains(m[w]));
        let j = choose|j: int| 0 <= j < s.len() && s[j] == m[w];
        assert(s[j].count <= max);
    }
}

impl Pallet {
    /// The error `do_try_state` reports, if any: the checks in their order.
    pub open spec fn try_state_error(self) -> Option<TryStateError> {
        if self.desired_candidates > self.config.max_candidates {
            Some(TryStateError::TooManyDesiredCandidates)
        } else if self.desired_candidates + self.config.max_invulnerables < self.config.min_eligible_collators {
            Some(TryStateError::CollatorQuotaUnreachable)
        } else if exists|w: AccountId| #[trigger] self.user_stake@.contains_key(w) && self.user_stake@[w].count
            > self.config.max_staked_candidates {
            Some(TryStateError::TooManyStakedCandidates)
        } else {
            None
        }
    }

    /// Checks the state: the desired candidates fit in the candidate list, the invulnerables
    /// and desired candidates can meet the minimum of eligible collators, and every staker
    /// counts no more staked candidates than the maximum.
    pub fn do_try_state(&self) -> (r: Result<(), TryStateError>)
        ensures
            r is Ok <==> self.try_state_error() is None,
            r is Err ==> r->Err_0 == self.try_state_error()->0,
    {
        if self.desired_candidates > self.config.max_candidates {
            return Err(TryStateError::TooManyDesiredCandidates);
        }
        if (self.desired_candidates as u64) + (self.config.max_invulnerables as u64)
            < self.config.min_eligible_collators as u64 {
            return Err(TryStateError::CollatorQuotaUnreachable);
        }
        let max = self.config.max_staked_candidates;
        let ghost m = self.user_stake@;
        let ghost whole = vstd::std_specs::hash::spec_values_iter(&self.user_stake).remaining().unref();
        assert(whole.to_set() == m.values());
        for u in it: self.user_stake.values()
            invariant
                max == self.config.max_staked_candidates,
                self.desired_candidates <= self.config.max_candidates,
                self.desired_candidates + self.config.max_invulnerables
                    >= self.config.min_eligible_collators,
                m == self.user_stake@,
                whole.to_set() == m.values(),
                it.seq().unref() == whole,
                forall|j: int| 0 <= j < it.index() ==> (#[trigger] it.seq()[j]).count <= max,
        {
            if u.count > max {
                proof {
                    assert(it.seq().unref()[it.index()] == *u);
                    lemma_listed_value_has_key(m, whole, *u);
                    let w = choose|w: AccountId| #[trigger] m.contains_key(w) && m[w] == *u;
                    assert(self.user_stake@.contains_key(w) && self.user_stake@[w].count > max);
                }
                return Err(TryStateError::TooManyStakedCandidates);
            }
        }
        proof {
            lemma_all_values_within(m, whole, max);
        }
        Ok(())
    }

    /// The hook that checks the state after each block (see `do_try_state`).
    pub fn try_state(&self) -> (r: Result<(), TryStateError>)
        ensures
            r is Ok <==> self.try_state_error() is None,
            r is Err ==> r->Err_0 == self.try_state_error()->0,
    {
        self.do_try_state()
    }

    /// The hook that checks the configuration when the runtime is built (see
    /// `Config::integrity_test`).
    pub fn integrity_test(&self) -> (r: Result<(), IntegrityError>)
        ensures
            r is Ok <==> self.config.spec_integrity_error() is None,
            r is Err ==> r->Err_0 == self.config.spec_integrity_error()->0,
    {
        self.config.integrity_test()
    }
}

} // verus!
