//! The state of the engine and the queries on it.

use std::collections::HashMap;
use vstd::prelude::*;

use crate::arith::Percent;
use crate::config::Config;
use crate::ledger::Ledger;
use crate::types::{
    AccountId, Balance, BlockNumber, CandidateInfo, CandidateStakeInfo, DispatchError, Error,
    Event, FreezeReason, Origin, ReleaseRequest, SessionIndex, UpdateOrigin, UserStakeInfo,
    CandidacyBondRelease,
};

verus! {

broadcast use vstd::std_specs::hash::group_hash_axioms;

/// The stake of one staker on a candidate.
#[derive(Clone, Copy, Debug, PartialEq, Eq, Structural)]
pub struct StakeRecord {
    /// The staker.
    pub staker: AccountId,
    /// When it first staked and how much it has staked.
    pub info: CandidateStakeInfo,
}

/// A collator candidate with the stakes placed on it, in the order they were placed.
#[derive(Clone, Debug)]
pub struct CandidateRecord {
    /// The candidate's account.
    pub account: AccountId,
    /// Its total stake and number of stakers.
    pub info: CandidateInfo,
    /// The stakes placed on it.
    pub stakes: Vec<StakeRecord>,
}

/// The number of blocks an author produced in a session.
#[derive(Clone, Copy, Debug, PartialEq, Eq, Structural)]
pub struct ProducedBlocks {
    /// The session.
    pub session: SessionIndex,
    /// The author.
    pub author: AccountId,
    /// Blocks produced.
    pub blocks: u32,
}

/// The whole state of the staking engine, together with the account ledger it runs against.
pub struct Pallet {
    /// The configuration.
    pub config: Config,
    /// The current block number.
    pub block_number: BlockNumber,
    /// The invulnerable, permissioned collators, sorted.
    pub invulnerables: Vec<AccountId>,
    /// The collator candidates. No candidate is also an invulnerable.
    pub candidates: Vec<CandidateRecord>,
    /// Former candidates, with the stakes left on them and their totals. No account is both
    /// a candidate and a former candidate.
    pub retained: Vec<CandidateRecord>,
    /// Last block authored by a collator (zero when absent).
    pub last_authored_block: HashMap<AccountId, BlockNumber>,
    /// Desired number of candidates.
    pub desired_candidates: u32,
    /// Minimum amount to become a candidate.
    pub min_candidacy_bond: Balance,
    /// Minimum amount a staker can stake on a candidate.
    pub min_stake: Balance,
    /// Number of candidates staked on by a user, and the stake accounted for it.
    pub user_stake: HashMap<AccountId, UserStakeInfo>,
    /// Release requests of each account, oldest first.
    pub release_queues: HashMap<AccountId, Vec<ReleaseRequest>>,
    /// Candidacy bonds waiting to be released, by former candidate.
    pub bond_releases: HashMap<AccountId, CandidacyBondRelease>,
    /// Percentage of rewards that goes to the collators.
    pub collator_reward_percentage: Percent,
    /// Per-block extra reward.
    pub extra_reward: Balance,
    /// Blocks produced in a session: all of them, and those produced by candidates.
    pub total_blocks: HashMap<SessionIndex, (u32, u32)>,
    /// Rewards generated for a session.
    pub rewards: HashMap<SessionIndex, Balance>,
    /// Blocks produced by each author in each session.
    pub produced_blocks: Vec<ProducedBlocks>,
    /// The current session.
    pub current_session: SessionIndex,
    /// Percentage of rewards a staker re-invests.
    pub auto_compound: HashMap<AccountId, Percent>,
    /// The account ledger.
    pub ledger: Ledger,
    /// The events deposited so far.
    pub events: Vec<Event>,
}

/// The accounts of a sequence of candidates are pairwise distinct.
pub open spec fn distinct_accounts(s: Seq<CandidateRecord>) -> bool {
    forall|i: int, j: int|
        0 <= i < s.len() && 0 <= j < s.len() && i != j ==> #[trigger] s[i].account
            != #[trigger] s[j].account
}

/// The stakers of a sequence of stakes are pairwise distinct.
pub open spec fn distinct_stakers(s: Seq<StakeRecord>) -> bool {
    forall|i: int, j: int|
        0 <= i < s.len() && 0 <= j < s.len() && i != j ==> #[trigger] s[i].staker
            != #[trigger] s[j].staker
}

/// A sequence of accounts in non-decreasing order.
pub open spec fn sorted(s: Seq<AccountId>) -> bool {
    forall|i: int, j: int| 0 <= i <= j < s.len() ==> #[trigger] s[i] <= #[trigger] s[j]
}

/// Some candidate of the sequence has this account.
pub open spec fn in_candidates(s: Seq<CandidateRecord>, who: AccountId) -> bool {
    exists|i: int| 0 <= i < s.len() && #[trigger] s[i].account == who
}

/// Some stake of the sequence is placed by this staker.
pub open spec fn in_stakes(s: Seq<StakeRecord>, who: AccountId) -> bool {
    exists|i: int| 0 <= i < s.len() && #[trigger] s[i].staker == who
}

/// The position of the candidate with this account, or -1.
pub open spec fn cand_index(s: Seq<CandidateRecord>, who: AccountId) -> int {
    if in_candidates(s, who) {
        choose|i: int| 0 <= i < s.len() && #[trigger] s[i].account == who
    } else {
        -1
    }
}

/// The position of the stake of this staker, or -1.
pub open spec fn stake_index(s: Seq<StakeRecord>, who: AccountId) -> int {
    if in_stakes(s, who) {
        choose|i: int| 0 <= i < s.len() && #[trigger] s[i].staker == who
    } else {
        -1
    }
}

/// The stake of this staker (nothing when it has not staked).
pub open spec fn stake_in(s: Seq<StakeRecord>, who: AccountId) -> CandidateStakeInfo {
    if in_stakes(s, who) {
        s[stake_index(s, who)].info
    } else {
        CandidateStakeInfo { session: 0, stake: 0 }
    }
}

/// With distinct accounts, a candidate's position is the one holding its account.
pub proof fn lemma_cand_index(s: Seq<CandidateRecord>, i: int)
    requires
        distinct_accounts(s),
        0 <= i < s.len(),
    ensures
        cand_index(s, s[i].account) == i,
        in_candidates(s, s[i].account),
{
    assert(in_candidates(s, s[i].account));
}

/// With distinct stakers, a stake's position is the one holding its staker.
pub proof fn lemma_stake_index(s: Seq<StakeRecord>, i: int)
    requires
        distinct_stakers(s),
        0 <= i < s.len(),
    ensures
        stake_index(s, s[i].staker) == i,
        in_stakes(s, s[i].staker),
        stake_in(s, s[i].staker) == s[i].info,
{
    assert(in_stakes(s, s[i].staker));
}

impl Pallet {
    /// The well-formedness of the state, which every operation keeps.
    pub open spec fn wf(self) -> bool {
        &&& sorted(self.invulnerables@)
        &&& self.invulnerables@.len() <= self.config.max_invulnerables
        &&& distinct_accounts(self.candidates@)
        &&& self.candidates@.len() <= self.config.max_candidates
        &&& forall|i: int|
            0 <= i < self.candidates@.len() ==> !self.invulnerables@.contains(
                #[trigger] self.candidates@[i].account,
            )
        &&& forall|i: int|
            0 <= i < self.candidates@.len() ==> self.record_wf(#[trigger] self.candidates@[i])
        &&& distinct_accounts(self.retained@)
        &&& forall|i: int| 0 <= i < self.retained@.len() ==> self.record_wf(#[trigger] self.retained@[i])
        &&& forall|i: int, j: int|
            0 <= i < self.candidates@.len() && 0 <= j < self.retained@.len() ==> #[trigger] self.candidates@[i].account
                != #[trigger] self.retained@[j].account
        &&& forall|w: AccountId|
            #[trigger] self.release_queues@.contains_key(w) ==> self.release_queues@[w]@.len()
                <= self.config.max_staked_candidates
        &&& self.block_number + self.config.max_delay() <= u64::MAX
    }

    /// A candidate record is well formed: distinct stakers, no more stakes than counted
    /// stakers, and no more stakers than allowed.
    pub open spec fn record_wf(self, r: CandidateRecord) -> bool {
        &&& distinct_stakers(r.stakes@)
        &&& r.stakes@.len() <= r.info.stakers
        &&& r.info.stakers <= self.config.max_stakers
    }

    /// Whether an account is a candidate.
    pub open spec fn is_candidate(self, who: AccountId) -> bool {
        in_candidates(self.candidates@, who)
    }

    /// The record of a candidate (meaningful when it is one).
    pub open spec fn cand(self, who: AccountId) -> CandidateRecord {
        self.candidates@[cand_index(self.candidates@, who)]
    }

    /// Whether an account is a former candidate with a record kept.
    pub open spec fn is_retained(self, who: AccountId) -> bool {
        in_candidates(self.retained@, who)
    }

    /// The kept record of a former candidate (meaningful when it is one).
    pub open spec fn ret(self, who: AccountId) -> CandidateRecord {
        self.retained@[cand_index(self.retained@, who)]
    }

    /// The stake of `staker` on `candidate`, a candidate or a former one (nothing when it has
    /// not staked on it).
    pub open spec fn stake_of(self, candidate: AccountId, staker: AccountId) -> CandidateStakeInfo {
        if self.is_candidate(candidate) {
            stake_in(self.cand(candidate).stakes@, staker)
        } else if self.is_retained(candidate) {
            stake_in(self.ret(candidate).stakes@, staker)
        } else {
            CandidateStakeInfo { session: 0, stake: 0 }
        }
    }

    /// The part of what `who` unstaked last that cannot be staked again yet.
    pub open spec fn restake_pending(self, who: AccountId) -> Balance {
        let us = self.user_stake_of(who);
        if us.last_unstake is Some && self.block_number < us.last_unstake->0.block {
            us.last_unstake->0.amount
        } else {
            0
        }
    }

    /// The pending candidacy bond release of `who`, if any.
    pub open spec fn bond_release_of(self, who: AccountId) -> Option<CandidacyBondRelease> {
        if self.bond_releases@.contains_key(who) {
            Some(self.bond_releases@[who])
        } else {
            None
        }
    }

    /// The last block authored by an account (zero when never recorded).
    pub open spec fn last_authored(self, who: AccountId) -> BlockNumber {
        if self.last_authored_block@.contains_key(who) {
            self.last_authored_block@[who]
        } else {
            0
        }
    }

    /// The stake accounted for a user.
    pub open spec fn user_stake_of(self, who: AccountId) -> UserStakeInfo {
        if self.user_stake@.contains_key(who) {
            self.user_stake@[who]
        } else {
            UserStakeInfo { count: 0, stake: 0, last_unstake: None }
        }
    }

    /// The release requests of an account.
    pub open spec fn release_queue_of(self, who: AccountId) -> Seq<ReleaseRequest> {
        if self.release_queues@.contains_key(who) {
            self.release_queues@[who]@
        } else {
            Seq::empty()
        }
    }

    /// The blocks produced in a session.
    pub open spec fn total_blocks_of(self, session: SessionIndex) -> (u32, u32) {
        if self.total_blocks@.contains_key(session) {
            self.total_blocks@[session]
        } else {
            (0, 0)
        }
    }

    /// The rewards generated for a session.
    pub open spec fn rewards_of(self, session: SessionIndex) -> Balance {
        if self.rewards@.contains_key(session) {
            self.rewards@[session]
        } else {
            0
        }
    }

    /// The auto-compound percentage of a staker.
    pub open spec fn auto_compound_of(self, who: AccountId) -> Percent {
        if self.auto_compound@.contains_key(who) {
            self.auto_compound@[who]
        } else {
            Percent { parts: 0 }
        }
    }

    /// The funds of an account frozen for a reason.
    pub open spec fn frozen_of(self, reason: FreezeReason, who: AccountId) -> Balance {
        self.ledger.account(who).freeze_of(reason)
    }

    /// The balance an account can still lock: its balance minus what is staked, released
    /// and bonded, each subtraction saturating.
    pub open spec fn spec_free_balance(self, who: AccountId) -> Balance {
        let a = self.ledger.account(who);
        a.balance.saturating_sub(a.staking).saturating_sub(a.releasing).saturating_sub(a.bond)
    }

    /// Candidates and invulnerables together, saturating.
    pub open spec fn spec_eligible_collators(self) -> u32 {
        let n = self.candidates@.len() + self.invulnerables@.len();
        if n > u32::MAX { u32::MAX } else { n as u32 }
    }

    /// Whether `origin` may change the parameters of the engine.
    pub open spec fn is_update_origin(self, origin: Origin) -> bool {
        match self.config.update_origin {
            UpdateOrigin::Root => origin == Origin::Root,
            UpdateOrigin::Account(a) => origin == Origin::Signed(a),
        }
    }

    /// Checks that `origin` may change the parameters of the engine.
    pub fn ensure_update_origin(&self, origin: Origin) -> (r: Result<(), DispatchError>)
        ensures
            r is Ok <==> self.is_update_origin(origin),
            r is Err ==> r == Err::<(), DispatchError>(DispatchError::BadOrigin),
    {
        match self.config.update_origin {
            UpdateOrigin::Root => match origin {
                Origin::Root => Ok(()),
                _ => Err(DispatchError::BadOrigin),
            },
            UpdateOrigin::Account(a) => match origin {
                Origin::Signed(w) => {
                    if w == a {
                        Ok(())
                    } else {
                        Err(DispatchError::BadOrigin)
                    }
                },
                _ => Err(DispatchError::BadOrigin),
            },
        }
    }

    /// The account that signed `origin`.
    pub fn ensure_signed(origin: Origin) -> (r: Result<AccountId, DispatchError>)
        ensures
            match origin {
                Origin::Signed(w) => r == Ok::<AccountId, DispatchError>(w),
                _ => r == Err::<AccountId, DispatchError>(DispatchError::BadOrigin),
            },
    {
        match origin {
            Origin::Signed(w) => Ok(w),
            _ => Err(DispatchError::BadOrigin),
        }
    }

    /// The index of a candidate in the candidate list.
    pub fn find_candidate(&self, who: AccountId) -> (r: Option<usize>)
        ensures
            match r {
                Some(i) => i < self.candidates@.len() && self.candidates@[i as int].account == who,
                None => !self.is_candidate(who),
            },
    {
        let mut i: usize = 0;
        while i < self.candidates.len()
            invariant
                i <= self.candidates@.len(),
                forall|k: int| 0 <= k < i ==> #[trigger] self.candidates@[k].account != who,
            decreases self.candidates@.len() - i,
        {
            if self.candidates[i].account == who {
                return Some(i);
            }
            i = i + 1;
        }
        None
    }

    /// The index of a former candidate in the list of kept records.
    pub fn find_retained(&self, who: AccountId) -> (r: Option<usize>)
        ensures
            match r {
                Some(i) => i < self.retained@.len() && self.retained@[i as int].account == who,
                None => !self.is_retained(who),
            },
    {
        let mut i: usize = 0;
        while i < self.retained.len()
            invariant
                i <= self.retained@.len(),
                forall|k: int| 0 <= k < i ==> #[trigger] self.retained@[k].account != who,
            decreases self.retained@.len() - i,
        {
            if self.retained[i].account == who {
                return Some(i);
            }
            i = i + 1;
        }
        None
    }

    /// Checks whether an account is a candidate and returns its information.
    pub fn get_candidate(&self, account: AccountId) -> (r: Result<CandidateInfo, DispatchError>)
        requires
            self.wf(),
        ensures
            r is Ok <==> self.is_candidate(account),
            r is Err ==> r == Err::<CandidateInfo, DispatchError>(
                DispatchError::Module(Error::NotCandidate),
            ),
            forall|i: int|
                0 <= i < self.candidates@.len() && #[trigger] self.candidates@[i].account
                    == account ==> r == Ok::<CandidateInfo, DispatchError>(
                    self.candidates@[i].info,
                ),
    {
        match self.find_candidate(account) {
            Some(i) => Ok(self.candidates[i].info),
            None => Err(DispatchError::Module(Error::NotCandidate)),
        }
    }

    /// Checks whether an account is an invulnerable.
    pub fn is_invulnerable(&self, account: AccountId) -> (r: bool)
        ensures
            r == self.invulnerables@.contains(account),
    {
        let mut i: usize = 0;
        while i < self.invulnerables.len()
            invariant
                i <= self.invulnerables@.len(),
                forall|k: int| 0 <= k < i ==> #[trigger] self.invulnerables@[k] != account,
            decreases self.invulnerables@.len() - i,
        {
            if self.invulnerables[i] == account {
                return true;
            }
            i = i + 1;
        }
        false
    }

    /// The number of eligible collators: candidates and invulnerables.
    pub fn eligible_collators(&self) -> (r: u32)
        ensures
            r == self.spec_eligible_collators(),
    {
        let n: usize = self.candidates.len();
        let m: usize = self.invulnerables.len();
        if n as u128 + m as u128 > u32::MAX as u128 {
            u32::MAX
        } else {
            (n + m) as u32
        }
    }

    /// The current block number.
    pub fn current_block_number(&self) -> (r: BlockNumber)
        ensures
            r == self.block_number,
    {
        self.block_number
    }

    /// The funds of an account locked for staking.
    pub fn get_staked_balance(&self, account: AccountId) -> (r: Balance)
        ensures
            r == self.frozen_of(FreezeReason::Staking, account),
    {
        self.ledger.balance_frozen(FreezeReason::Staking, account)
    }

    /// The funds of an account waiting to be released.
    pub fn get_releasing_balance(&self, account: AccountId) -> (r: Balance)
        ensures
            r == self.frozen_of(FreezeReason::Releasing, account),
    {
        self.ledger.balance_frozen(FreezeReason::Releasing, account)
    }

    /// The funds of an account frozen as candidacy bond.
    pub fn get_bond(&self, account: AccountId) -> (r: Balance)
        ensures
            r == self.frozen_of(FreezeReason::CandidacyBond, account),
    {
        self.ledger.balance_frozen(FreezeReason::CandidacyBond, account)
    }

    /// The maximum balance an account can lock for staking.
    pub fn get_free_balance(&self, account: AccountId) -> (r: Balance)
        ensures
            r == self.spec_free_balance(account),
    {
        self.ledger.balance(account).saturating_sub(self.get_staked_balance(account)).saturating_sub(
            self.get_releasing_balance(account),
        ).saturating_sub(self.get_bond(account))
    }

    /// The current candidates with their total stake, in the order of the list.
    pub fn candidates_with_stake(&self) -> (r: Vec<(AccountId, Balance)>)
        ensures
            r@.len() == self.candidates@.len(),
            forall|k: int|
                0 <= k < r@.len() ==> #[trigger] r@[k] == (self.candidates@[k].account, self.candidates@[k].info.stake),
    {
        let mut r: Vec<(AccountId, Balance)> = Vec::new();
        let mut k: usize = 0;
        while k < self.candidates.len()
            invariant
                k <= self.candidates@.len(),
                r@.len() == k,
                forall|j: int| 0 <= j < k ==> #[trigger] r@[j] == (self.candidates@[j].account, self.candidates@[j].info.stake),
            decreases self.candidates@.len() - k,
        {
            r.push((self.candidates[k].account, self.candidates[k].info.stake));
            k = k + 1;
        }
        r
    }

    /// Adds an event.
    pub fn deposit_event(&mut self, e: Event)
        ensures
            final(self).events@ == old(self).events@.push(e),
            *final(self) == (Pallet { events: final(self).events, ..*old(self) }),
    {
        self.events.push(e);
    }
}

} // verus!
