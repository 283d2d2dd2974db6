//! Plain data of the staking engine: identifiers, records, errors and events.

use vstd::prelude::*;

use crate::arith::Percent;

verus! {

/// An account on the chain.
pub type AccountId = u64;

/// An amount of the native currency.
pub type Balance = u64;

/// A block height.
pub type BlockNumber = u64;

/// The index of a session.
pub type SessionIndex = u32;

/// Basic information about a collator candidate.
#[derive(Clone, Copy, Debug, PartialEq, Eq, Structural)]
pub struct CandidateInfo {
    /// Total stake.
    pub stake: Balance,
    /// Amount of stakers.
    pub stakers: u32,
}

/// A request to release locked funds once a block is reached.
#[derive(Clone, Copy, Debug, PartialEq, Eq, Structural)]
pub struct ReleaseRequest {
    /// Block when the funds can be released.
    pub block: BlockNumber,
    /// Amount to be released.
    pub amount: Balance,
}

/// Information about a staker's stake on one candidate.
#[derive(Clone, Copy, Debug, PartialEq, Eq, Structural)]
pub struct CandidateStakeInfo {
    /// Session when the staker first staked on the candidate.
    pub session: SessionIndex,
    /// The amount staked.
    pub stake: Balance,
}

/// Funds a staker unstaked recently: they cannot be staked again before a block.
#[derive(Clone, Copy, Debug, PartialEq, Eq, Structural)]
pub struct PendingRestake {
    /// The amount unstaked.
    pub amount: Balance,
    /// The block from which it can be staked again.
    pub block: BlockNumber,
}

/// Information about a staker's stakes over all candidates.
#[derive(Clone, Copy, Debug, PartialEq, Eq, Structural)]
pub struct UserStakeInfo {
    /// Number of candidates staked on.
    pub count: u32,
    /// Total stake over all candidates.
    pub stake: Balance,
    /// What was unstaked last and cannot be staked again yet, if anything.
    pub last_unstake: Option<PendingRestake>,
}

/// Why a candidacy bond is being released.
#[derive(Clone, Copy, Debug, PartialEq, Eq, Structural)]
pub enum CandidacyBondReleaseReason {
    /// The candidate was kicked for not producing blocks or for a bond and stake too low.
    Idle,
    /// The candidate was replaced by another one with a higher bond.
    Replaced,
    /// The candidate left.
    Left,
}

/// A candidacy bond waiting to be released after its candidate left or was removed.
#[derive(Clone, Copy, Debug, PartialEq, Eq, Structural)]
pub struct CandidacyBondRelease {
    /// The bond to release.
    pub bond: Balance,
    /// The block from which it can be released.
    pub block: BlockNumber,
    /// Why the candidate was removed, the last time.
    pub reason: CandidacyBondReleaseReason,
}

/// The reasons for which the engine freezes funds.
#[derive(Clone, Copy, Debug, PartialEq, Eq, Structural)]
pub enum FreezeReason {
    /// Funds locked for staking.
    Staking,
    /// Funds frozen as a candidacy bond.
    CandidacyBond,
    /// Funds waiting to be released.
    Releasing,
}

/// What the runtime says of an account's session keys: whether it maps to a collator
/// id, and whether that id has its keys registered.
#[derive(Clone, Copy, Debug, PartialEq, Eq, Structural)]
pub enum KeyStatus {
    /// The account has no associated collator id.
    NoCollatorId,
    /// The collator id has no registered session keys.
    NotRegistered,
    /// The collator id has registered session keys.
    Registered,
}

/// The origin of a call.
#[derive(Clone, Copy, Debug, PartialEq, Eq, Structural)]
pub enum Origin {
    /// The root origin.
    Root,
    /// A call signed by an account.
    Signed(AccountId),
    /// An unsigned call.
    Unsigned,
}

/// Who may change the parameters of the engine.
#[derive(Clone, Copy, Debug, PartialEq, Eq, Structural)]
pub enum UpdateOrigin {
    /// Only the root origin.
    Root,
    /// Only calls signed by this account.
    Account(AccountId),
}

/// Errors of the engine.
#[derive(Clone, Copy, Debug, PartialEq, Eq, Structural)]
pub enum Error {
    /// The pallet has too many candidates.
    TooManyCandidates,
    /// Leaving would result in too few candidates.
    TooFewEligibleCollators,
    /// Account is already a candidate.
    AlreadyCandidate,
    /// Account is not a candidate.
    NotCandidate,
    /// There are too many Invulnerables.
    TooManyInvulnerables,
    /// Account is already an Invulnerable.
    AlreadyInvulnerable,
    /// Account is not an Invulnerable.
    NotInvulnerable,
    /// Account has no associated validator ID.
    NoAssociatedCollatorId,
    /// Collator ID is not yet registered.
    CollatorNotRegistered,
    /// Could not insert in the candidate list.
    InsertToCandidateListFailed,
    /// Amount not sufficient to be staked.
    InsufficientStake,
    /// DesiredCandidates is out of bounds.
    TooManyDesiredCandidates,
    /// Too many unstaking requests. Claim some of them first.
    TooManyReleaseRequests,
    /// Cannot take some candidate's slot while the candidate list is not full.
    CanRegister,
    /// Invalid value for MinStake. It must be lower than or equal to the candidacy bond.
    InvalidMinStake,
    /// Invalid value for CandidacyBond. It must be higher than or equal to the minimum.
    InvalidCandidacyBond,
    /// Number of staked candidates is greater than the maximum.
    TooManyStakedCandidates,
    /// Extra reward cannot be zero.
    InvalidExtraReward,
    /// Extra rewards are already zero.
    ExtraRewardAlreadyDisabled,
    /// The amount to fund the extra reward pot must be greater than zero.
    InvalidFundingAmount,
    /// There is nothing to unstake.
    NothingToUnstake,
    /// Cannot add more stakers to a given candidate.
    TooManyStakers,
    /// The user does not have enough balance to be locked for staking.
    InsufficientFreeBalance,
    /// The user does not have enough locked balance to stake.
    InsufficientLockedBalance,
    /// Cannot unlock such amount.
    CannotUnlock,
    /// The list of invulnerables names an account twice.
    DuplicatedInvulnerables,
}

/// Errors of the account ledger.
#[derive(Clone, Copy, Debug, PartialEq, Eq, Structural)]
pub enum TokenError {
    /// The funds are not available to be moved.
    FundsUnavailable,
    /// The resulting balance of the receiver would be below the existential deposit.
    BelowMinimum,
    /// The resulting balance of the receiver would overflow.
    Overflow,
}

/// Why a call failed.
#[derive(Clone, Copy, Debug, PartialEq, Eq, Structural)]
pub enum DispatchError {
    /// The origin may not make the call.
    BadOrigin,
    /// An error of the engine.
    Module(Error),
    /// An error of the account ledger.
    Token(TokenError),
}

/// Events deposited by the engine.
#[derive(Clone, Debug, PartialEq, Eq)]
pub enum Event {
    /// New Invulnerables were set.
    NewInvulnerables { invulnerables: Vec<AccountId> },
    /// A new Invulnerable was added.
    InvulnerableAdded { account_id: AccountId },
    /// An Invulnerable was removed.
    InvulnerableRemoved { account_id: AccountId },
    /// The number of desired candidates was set.
    NewDesiredCandidates { desired_candidates: u32 },
    /// The minimum candidacy bond was set.
    NewMinCandidacyBond { bond_amount: Balance },
    /// A new candidate joined.
    CandidateAdded { account_id: AccountId, deposit: Balance },
    /// A candidate was removed.
    CandidateRemoved { account_id: AccountId },
    /// An account was replaced in the candidate list by another one.
    CandidateReplaced { old: AccountId, new: AccountId, deposit: Balance, stake: Balance },
    /// An account could not become an Invulnerable because it had no keys registered.
    InvalidInvulnerableSkipped { account_id: AccountId },
    /// A staker added stake to a candidate.
    StakeAdded { staker: AccountId, candidate: AccountId, amount: Balance },
    /// Stake was claimed after a penalty period.
    StakeClaimed { staker: AccountId, amount: Balance },
    /// An unstake request was created.
    ReleaseRequestCreated { staker: AccountId, candidate: AccountId, amount: Balance, block: BlockNumber },
    /// A staker removed stake from a candidate.
    StakeRemoved { staker: AccountId, candidate: AccountId, amount: Balance },
    /// A staking reward was delivered.
    StakingRewardReceived { staker: AccountId, amount: Balance, session: SessionIndex },
    /// AutoCompound percentage was set.
    AutoCompoundPercentageSet { staker: AccountId, percentage: Percent },
    /// Collator reward percentage was set.
    CollatorRewardPercentageSet { percentage: Percent },
    /// The extra reward was set.
    ExtraRewardSet { amount: Balance },
    /// The extra reward was removed.
    ExtraRewardRemoved { amount_left: Balance, receiver: Option<AccountId> },
    /// The minimum amount to stake was changed.
    NewMinStake { min_stake: Balance },
    /// A session just ended.
    SessionEnded { index: SessionIndex, rewards: Balance },
    /// The extra reward pot account was funded.
    ExtraRewardPotFunded { pot: AccountId, amount: Balance },
    /// The staking locked amount got extended.
    LockExtended { total: Balance },
    /// The staking locked amount got decreased.
    LockDecreased { total: Balance },
    /// A candidate's candidacy bond got updated.
    CandidacyBondUpdated { candidate: AccountId, new_bond: Balance },
}

} // verus!
