//! The multi-block migration of the engine's storage from layout version 1 to version 2.
//!
//! The storage is modelled by [`MigrationStore`]: each storage map is a list of entries in
//! the order in which the chain walks it (by key), and a cursor is the key of the last entry
//! handled. A walk that resumes from a cursor handles the entries whose keys come after it,
//! so entries can be removed or rewritten along the way.
//!
//! Each step of the migration spends a [`WeightMeter`]: stakes are rewritten in the new
//! layout, auto-compounding preferences become settings, release queues and candidacy bonds
//! move from their own freezes to the single staking freeze (tracked in the locked balances),
//! claimable rewards are reset, and finally the storage version becomes 2.

use std::collections::HashMap;
use vstd::prelude::*;

use crate::arith::Percent;
use crate::ledger::{AccountData, Ledger};
use crate::types::{AccountId, Balance, BlockNumber, FreezeReason, ReleaseRequest, SessionIndex};
use crate::weight::{Weight, WeightMeter};

verus! {

broadcast use vstd::std_specs::hash::group_hash_axioms;

/// A stake of the candidate-stake map, in the layout of version 1 or of version 2.
#[derive(Clone, Copy, Debug, PartialEq, Eq, Structural)]
pub enum StakeValue {
    /// The layout of version 1: the session of the last update and the stake.
    Old { session: SessionIndex, stake: Balance },
    /// The layout of version 2: the stake, with its reward checkpoint at zero.
    Migrated { stake: Balance },
}

impl StakeValue {
    /// The amount staked.
    pub open spec fn amount(self) -> Balance {
        match self {
            StakeValue::Old { stake, .. } => stake,
            StakeValue::Migrated { stake } => stake,
        }
    }
}

/// An entry of the candidate-stake map.
#[derive(Clone, Copy, Debug, PartialEq, Eq, Structural)]
pub struct StakeEntry {
    /// The candidate staked on.
    pub candidate: AccountId,
    /// The staker.
    pub staker: AccountId,
    /// The stake.
    pub value: StakeValue,
}

/// An auto-compounding preference of version 1.
#[derive(Clone, Copy, Debug, PartialEq, Eq, Structural)]
pub struct AutoCompoundEntry {
    /// The staker.
    pub staker: AccountId,
    /// The share of rewards to compound.
    pub percentage: Percent,
}

/// The release queue of a staker.
#[derive(Clone, Debug)]
pub struct QueueEntry {
    /// The staker.
    pub staker: AccountId,
    /// The pending releases, in the order they were requested.
    pub requests: Vec<ReleaseRequest>,
}

/// A pending release of a candidacy bond.
#[derive(Clone, Copy, Debug, PartialEq, Eq, Structural)]
pub struct BondRelease {
    /// The bond to release.
    pub bond: Balance,
    /// The block from which it can be released.
    pub block: BlockNumber,
}

/// An entry of the candidacy-bond-release map.
#[derive(Clone, Copy, Debug, PartialEq, Eq, Structural)]
pub struct BondReleaseEntry {
    /// The former candidate.
    pub candidate: AccountId,
    /// Its pending release.
    pub release: BondRelease,
}

/// The funds of an account that the engine keeps locked, by purpose.
#[derive(Clone, Copy, Debug, PartialEq, Eq, Structural)]
pub struct LockedBalance {
    /// Locked as candidacy bond.
    pub candidacy_bond: Balance,
    /// Locked while being released.
    pub releasing: Balance,
}

/// The weights of the operations of the migration.
#[derive(Clone, Copy, Debug)]
pub struct MigrationWeights {
    /// Migrating one stake.
    pub stake_step: Weight,
    /// Migrating one auto-compounding preference.
    pub autocompound_step: Weight,
    /// Migrating one release queue: the part that does not depend on its length.
    pub release_queue_base: Weight,
    /// Migrating one release queue: the part per request.
    pub release_queue_per_request: Weight,
    /// Migrating the bond of one candidate.
    pub candidacy_bond: Weight,
    /// Migrating one pending bond release.
    pub candidacy_bond_release: Weight,
    /// One write to storage.
    pub db_write: Weight,
}

impl MigrationWeights {
    /// The weight of migrating a release queue of `n` requests.
    pub open spec fn spec_release_queue(self, n: u64) -> Weight {
        self.release_queue_base.spec_saturating_add(self.release_queue_per_request.spec_saturating_mul(n))
    }

    /// The weight of migrating a release queue of `n` requests.
    pub fn release_queue(&self, n: u64) -> (r: Weight)
        ensures
            r == self.spec_release_queue(n),
    {
        self.release_queue_base.saturating_add(self.release_queue_per_request.saturating_mul(n))
    }
}

/// The storage that the migration reads and writes.
pub struct MigrationStore {
    /// The layout version of the storage on chain.
    pub storage_version: u16,
    /// The current block.
    pub block_number: BlockNumber,
    /// The most candidates a staker can stake on (the longest release queue).
    pub max_staked_candidates: u32,
    /// The weights of the migration's operations.
    pub weights: MigrationWeights,
    /// The candidate-stake map, ordered by candidate and then staker.
    pub candidate_stake: Vec<StakeEntry>,
    /// The auto-compounding preferences of version 1, ordered by staker.
    pub auto_compound: Vec<AutoCompoundEntry>,
    /// The stakers whose rewards compound, in version 2.
    pub auto_compound_settings: HashMap<AccountId, bool>,
    /// The release queues, ordered by staker.
    pub release_queues: Vec<QueueEntry>,
    /// The candidates, ordered.
    pub candidates: Vec<AccountId>,
    /// The pending candidacy bond releases, ordered by candidate.
    pub bond_releases: Vec<BondReleaseEntry>,
    /// The locked balances of version 2.
    pub locked_balances: HashMap<AccountId, LockedBalance>,
    /// Rewards that can be claimed.
    pub claimable_rewards: Balance,
    /// The balances and freezes of the accounts.
    pub ledger: Ledger,
}

/// A release queue, as a value.
#[verifier::ext_equal]
pub struct QueueView {
    /// The staker.
    pub staker: AccountId,
    /// The pending releases.
    pub requests: Seq<ReleaseRequest>,
}

impl View for QueueEntry {
    type V = QueueView;

    open spec fn view(&self) -> QueueView {
        QueueView { staker: self.staker, requests: self.requests@ }
    }
}

/// The storage of the migration, as a value.
#[verifier::ext_equal]
pub struct StoreView {
    pub storage_version: u16,
    pub block_number: BlockNumber,
    pub max_staked_candidates: u32,
    pub weights: MigrationWeights,
    pub candidate_stake: Seq<StakeEntry>,
    pub auto_compound: Seq<AutoCompoundEntry>,
    pub auto_compound_settings: Map<AccountId, bool>,
    pub release_queues: Seq<QueueView>,
    pub candidates: Seq<AccountId>,
    pub bond_releases: Seq<BondReleaseEntry>,
    pub locked_balances: Map<AccountId, LockedBalance>,
    pub claimable_rewards: Balance,
    pub accounts: Map<AccountId, AccountData>,
    pub existential_deposit: Balance,
}

impl View for MigrationStore {
    type V = StoreView;

    open spec fn view(&self) -> StoreView {
        StoreView {
            storage_version: self.storage_version,
            block_number: self.block_number,
            max_staked_candidates: self.max_staked_candidates,
            weights: self.weights,
            candidate_stake: self.candidate_stake@,
            auto_compound: self.auto_compound@,
            auto_compound_settings: self.auto_compound_settings@,
            release_queues: self.release_queues@.map_values(|q: QueueEntry| q@),
            candidates: self.candidates@,
            bond_releases: self.bond_releases@,
            locked_balances: self.locked_balances@,
            claimable_rewards: self.claimable_rewards,
            accounts: self.ledger.accounts@,
            existential_deposit: self.ledger.existential_deposit,
        }
    }
}

/// The place of a stake in the order of the candidate-stake map: by candidate, then staker.
pub open spec fn pair_rank(candidate: AccountId, staker: AccountId) -> int {
    candidate * 0x1_0000_0000_0000_0000int + staker
}

/// The ranks of a list of keys are strictly increasing.
pub open spec fn ascending(keys: Seq<int>) -> bool {
    forall|i: int, j: int| 0 <= i < j < keys.len() ==> keys[i] < keys[j]
}

/// `p` is where a walk resuming from `cursor` starts: every key before it is at most the
/// cursor, every key from it on is above (with no cursor, the walk starts at the beginning).
pub open spec fn after_cursor(keys: Seq<int>, cursor: Option<int>, p: int) -> bool {
    &&& 0 <= p <= keys.len()
    &&& match cursor {
        None => p == 0,
        Some(c) => {
            &&& forall|i: int| 0 <= i < p ==> keys[i] <= c
            &&& forall|i: int| p <= i < keys.len() ==> keys[i] > c
        },
    }
}

/// Where a walk over ascending `keys` resuming from `cursor` starts.
pub open spec fn start_of(keys: Seq<int>, cursor: Option<int>) -> int {
    choose|p: int| after_cursor(keys, cursor, p)
}

/// A walk over ascending keys has exactly one place to resume from.
pub proof fn lemma_start_of(keys: Seq<int>, cursor: Option<int>, p: int)
    requires
        after_cursor(keys, cursor, p),
    ensures
        start_of(keys, cursor) == p,
{
    let q = start_of(keys, cursor);
    assert(after_cursor(keys, cursor, q));
    if cursor is Some {
        if q < p {
            assert(keys[q] <= cursor->0);
        } else if p < q {
            assert(keys[p] <= cursor->0);
        }
    }
}

/// Entries that sit in a storage map under an account key.
pub trait Keyed {
    /// The key of the entry.
    spec fn key(&self) -> AccountId;

    /// The key of the entry.
    fn get_key(&self) -> (r: AccountId)
        ensures
            r == self.key(),
    ;
}

impl Keyed for AccountId {
    open spec fn key(&self) -> AccountId {
        *self
    }

    fn get_key(&self) -> (r: AccountId) {
        *self
    }
}

impl Keyed for AutoCompoundEntry {
    open spec fn key(&self) -> AccountId {
        self.staker
    }

    fn get_key(&self) -> (r: AccountId) {
        self.staker
    }
}

impl Keyed for QueueEntry {
    open spec fn key(&self) -> AccountId {
        self.staker
    }

    fn get_key(&self) -> (r: AccountId) {
        self.staker
    }
}

impl Keyed for BondReleaseEntry {
    open spec fn key(&self) -> AccountId {
        self.candidate
    }

    fn get_key(&self) -> (r: AccountId) {
        self.candidate
    }
}

/// The ranks of the keys of a list of entries.
pub open spec fn ranks<E: Keyed>(s: Seq<E>) -> Seq<int> {
    s.map_values(|e: E| e.key() as int)
}

/// The ranks of the keys of the candidate-stake map.
pub open spec fn stake_ranks(s: Seq<StakeEntry>) -> Seq<int> {
    s.map_values(|e: StakeEntry| pair_rank(e.candidate, e.staker))
}

/// The rank of a cursor over accounts.
pub open spec fn account_cursor(c: Option<AccountId>) -> Option<int> {
    match c {
        None => None,
        Some(a) => Some(a as int),
    }
}

/// The rank of a cursor over the candidate-stake map.
pub open spec fn pair_cursor(c: Option<(AccountId, AccountId)>) -> Option<int> {
    match c {
        None => None,
        Some(k) => Some(pair_rank(k.0, k.1)),
    }
}

/// Where a walk over `s` resuming from `cursor` starts.
pub fn start_after<E: Keyed>(s: &Vec<E>, cursor: Option<AccountId>) -> (p: usize)
    requires
        ascending(ranks(s@)),
    ensures
        after_cursor(ranks(s@), account_cursor(cursor), p as int),
        p == start_of(ranks(s@), account_cursor(cursor)),
{
    let ghost keys = ranks(s@);
    let p = match cursor {
        None => 0,
        Some(c) => {
            let mut i: usize = 0;
            while i < s.len() && s[i].get_key() <= c
                invariant
                    i <= s@.len(),
                    keys == ranks(s@),
                    ascending(keys),
                    forall|j: int| 0 <= j < i ==> keys[j] <= c,
                decreases s@.len() - i,
            {
                i = i + 1;
            }
            proof {
                assert forall|j: int| i <= j < keys.len() implies keys[j] > c by {
                    assert(keys[i as int] > c);
                    if j > i {
                        assert(keys[i as int] < keys[j]);
                    }
                }
            }
            i
        },
    };
    proof {
        lemma_start_of(keys, account_cursor(cursor), p as int);
    }
    p
}

/// Where a walk over the candidate-stake map resuming from `cursor` starts.
pub fn stake_start_after(s: &Vec<StakeEntry>, cursor: Option<(AccountId, AccountId)>) -> (p: usize)
    requires
        ascending(stake_ranks(s@)),
    ensures
        p == start_of(stake_ranks(s@), pair_cursor(cursor)),
        after_cursor(stake_ranks(s@), pair_cursor(cursor), p as int),
{
    let ghost keys = stake_ranks(s@);
    let p = match cursor {
        None => 0,
        Some(c) => {
            let mut i: usize = 0;
            while i < s.len() && (s[i].candidate < c.0 || (s[i].candidate == c.0 && s[i].staker <= c.1))
                invariant
                    i <= s@.len(),
                    keys == stake_ranks(s@),
                    ascending(keys),
                    forall|j: int| 0 <= j < i ==> keys[j] <= pair_rank(c.0, c.1),
                decreases s@.len() - i,
            {
                i = i + 1;
            }
            proof {
                assert forall|j: int| i <= j < keys.len() implies keys[j] > pair_rank(c.0, c.1) by {
                    assert(keys[i as int] > pair_rank(c.0, c.1));
                    if j > i {
                        assert(keys[i as int] < keys[j]);
                    }
                }
            }
            i
        },
    };
    proof {
        lemma_start_of(keys, pair_cursor(cursor), p as int);
    }
    p
}

/// The ranks of the stakers of a list of release queues.
pub open spec fn queue_ranks(s: Seq<QueueView>) -> Seq<int> {
    s.map_values(|q: QueueView| q.staker as int)
}

impl StoreView {
    /// Every map of the store is ordered by key, without repeated keys.
    pub open spec fn wf(self) -> bool {
        &&& ascending(stake_ranks(self.candidate_stake))
        &&& ascending(ranks(self.auto_compound))
        &&& ascending(queue_ranks(self.release_queues))
        &&& ascending(ranks(self.candidates))
        &&& ascending(ranks(self.bond_releases))
    }
}

/// How a walk over `n` entries spends a meter at `w` per entry, when it tries to consume
/// `w` before each entry and once more on reaching the end, and stops at the first failure:
/// the number of entries handled, whether the end was reached, and the meter after.
pub open spec fn spend(meter: WeightMeter, w: Weight, n: nat) -> (nat, bool, WeightMeter)
    decreases n,
{
    if !meter.spec_can_consume(w) {
        (0, false, meter)
    } else if n == 0 {
        (0, true, meter.spec_consume(w))
    } else {
        let r = spend(meter.spec_consume(w), w, (n - 1) as nat);
        ((r.0 + 1) as nat, r.1, r.2)
    }
}

/// A stake rewritten in the layout of version 2.
pub open spec fn migrated_stake(e: StakeEntry) -> StakeEntry {
    StakeEntry { value: StakeValue::Migrated { stake: e.value.amount() }, ..e }
}

/// The outcome of one call of `do_migrate_stake`: from the cursor on, as many stakes as the
/// meter allows are rewritten in the new layout; the cursor is the last one rewritten, or
/// `None` once the walk reached the end of the map.
pub open spec fn stake_batch(v: StoreView, meter: WeightMeter, cursor: Option<(AccountId, AccountId)>) -> (
    StoreView,
    WeightMeter,
    Option<(AccountId, AccountId)>,
) {
    let s = v.candidate_stake;
    let p = start_of(stake_ranks(s), pair_cursor(cursor));
    let r = spend(meter, v.weights.stake_step, (s.len() - p) as nat);
    let k = r.0 as int;
    let s2 = Seq::new(s.len(), |i: int| if p <= i < p + k { migrated_stake(s[i]) } else { s[i] });
    let c2 = if r.1 {
        None
    } else if k > 0 {
        Some((s[p + k - 1].candidate, s[p + k - 1].staker))
    } else {
        cursor
    };
    (StoreView { candidate_stake: s2, ..v }, r.2, c2)
}

/// Taking an entry out of an ascending list leaves it ascending.
pub proof fn lemma_ascending_remove(keys: Seq<int>, i: int)
    requires
        ascending(keys),
        0 <= i < keys.len(),
    ensures
        ascending(keys.remove(i)),
{
    let r = keys.remove(i);
    assert forall|a: int, b: int| 0 <= a < b < r.len() implies r[a] < r[b] by {
        let a0 = if a < i { a } else { a + 1 };
        let b0 = if b < i { b } else { b + 1 };
        assert(r[a] == keys[a0] && r[b] == keys[b0]);
    }
}

/// The auto-compounding settings once the preferences `es` were migrated in order: a staker
/// with a non-zero preference compounds.
pub open spec fn settings_after(m: Map<AccountId, bool>, es: Seq<AutoCompoundEntry>) -> Map<AccountId, bool>
    decreases es.len(),
{
    if es.len() == 0 {
        m
    } else {
        let m1 = settings_after(m, es.drop_last());
        if es.last().percentage.parts != 0 {
            m1.insert(es.last().staker, true)
        } else {
            m1
        }
    }
}

/// The outcome of one call of `do_migrate_autocompounding`: from the cursor on, as many
/// preferences as the meter allows are taken out, those that are not zero becoming
/// settings; the cursor is the last one taken out, or `None` once the walk reached the end.
pub open spec fn autocompound_batch(v: StoreView, meter: WeightMeter, cursor: Option<AccountId>) -> (
    StoreView,
    WeightMeter,
    Option<AccountId>,
) {
    let s = v.auto_compound;
    let p = start_of(ranks(s), account_cursor(cursor));
    let r = spend(meter, v.weights.autocompound_step, (s.len() - p) as nat);
    let k = r.0 as int;
    let c2 = if r.1 {
        None
    } else if k > 0 {
        Some(s[p + k - 1].staker)
    } else {
        cursor
    };
    (
        StoreView {
            auto_compound: s.take(p) + s.skip(p + k),
            auto_compound_settings: settings_after(v.auto_compound_settings, s.subrange(p, p + k)),
            ..v
        },
        r.2,
        c2,
    )
}

impl StoreView {
    /// What an account holds.
    pub open spec fn account(self, who: AccountId) -> AccountData {
        if self.accounts.contains_key(who) { self.accounts[who] } else { AccountData::empty() }
    }

    /// This store with the freeze of `who` for `reason` set to `amount`.
    pub open spec fn with_freeze(self, reason: FreezeReason, who: AccountId, amount: Balance) -> StoreView {
        StoreView { accounts: self.accounts.insert(who, self.account(who).with_freeze(reason, amount)), ..self }
    }

    /// Whether `amount` more of `who` can be frozen for staking: its balance covers the grown
    /// freeze.
    pub open spec fn can_increase_frozen(self, who: AccountId, amount: Balance) -> bool {
        self.account(who).staking + amount <= self.account(who).balance
    }

    /// This store with `amount` more of `who` frozen for staking.
    pub open spec fn frozen_increased(self, who: AccountId, amount: Balance) -> StoreView {
        self.with_freeze(FreezeReason::Staking, who, (self.account(who).staking + amount) as u64)
    }

    /// The locked balance of `who`.
    pub open spec fn locked(self, who: AccountId) -> LockedBalance {
        if self.locked_balances.contains_key(who) {
            self.locked_balances[who]
        } else {
            LockedBalance { candidacy_bond: 0, releasing: 0 }
        }
    }

    /// This store with the locked balance of `who` set to `l`.
    pub open spec fn with_locked(self, who: AccountId, l: LockedBalance) -> StoreView {
        StoreView { locked_balances: self.locked_balances.insert(who, l), ..self }
    }

    /// This store with the candidacy bond locked for `who` grown by `amount` (saturating).
    pub open spec fn bond_locked(self, who: AccountId, amount: Balance) -> StoreView {
        let l = self.locked(who);
        self.with_locked(who, LockedBalance { candidacy_bond: l.candidacy_bond.saturating_add(amount), ..l })
    }

    /// This store with the releasing funds locked for `who` grown by `amount` (saturating).
    pub open spec fn releasing_locked(self, who: AccountId, amount: Balance) -> StoreView {
        let l = self.locked(who);
        self.with_locked(who, LockedBalance { releasing: l.releasing.saturating_add(amount), ..l })
    }
}

/// The store once the bond of candidate `c` was migrated: the bond and releasing freezes are
/// thawed and the bond is frozen for staking instead, and locked as candidacy bond; when the
/// balance cannot cover it, the candidate is left with no bond.
pub open spec fn bond_migrated(v: StoreView, c: AccountId) -> StoreView {
    let bond = v.account(c).bond;
    let v1 = v.with_freeze(FreezeReason::CandidacyBond, c, 0).with_freeze(FreezeReason::Releasing, c, 0);
    if v1.can_increase_frozen(c, bond) {
        v1.frozen_increased(c, bond).bond_locked(c, bond)
    } else {
        v1
    }
}

/// The store once the bonds of the candidates `cs` were migrated in order.
pub open spec fn bonds_migrated(v: StoreView, cs: Seq<AccountId>) -> StoreView
    decreases cs.len(),
{
    if cs.len() == 0 {
        v
    } else {
        bond_migrated(bonds_migrated(v, cs.drop_last()), cs.last())
    }
}

/// The outcome of one call of `do_migrate_candidacy_bond`: from the cursor on, as many
/// candidates as the meter allows have their bonds migrated; the cursor is the last one
/// migrated, or `None` once the walk reached the end.
pub open spec fn candidacy_bond_batch(v: StoreView, meter: WeightMeter, cursor: Option<AccountId>) -> (
    StoreView,
    WeightMeter,
    Option<AccountId>,
) {
    let s = v.candidates;
    let p = start_of(ranks(s), account_cursor(cursor));
    let r = spend(meter, v.weights.candidacy_bond, (s.len() - p) as nat);
    let k = r.0 as int;
    let c2 = if r.1 {
        None
    } else if k > 0 {
        Some(s[p + k - 1])
    } else {
        cursor
    };
    (bonds_migrated(v, s.subrange(p, p + k)), r.2, c2)
}

impl MigrationStore {
    /// The locked balance of `who`.
    pub fn get_locked(&self, who: AccountId) -> (r: LockedBalance)
        ensures
            r == self@.locked(who),
    {
        match self.locked_balances.get(&who) {
            Some(l) => *l,
            None => LockedBalance { candidacy_bond: 0, releasing: 0 },
        }
    }

    /// Thaws the freeze of `who` for `reason`.
    fn thaw(&mut self, reason: FreezeReason, who: AccountId)
        ensures
            final(self)@ == old(self)@.with_freeze(reason, who, 0),
            final(self).release_queues@ == old(self).release_queues@,
    {
        self.ledger.set_freeze(reason, who, 0);
    }

    /// Freezes `amount` more of `who` for staking, if its balance covers it.
    fn increase_frozen(&mut self, who: AccountId, amount: Balance) -> (ok: bool)
        ensures
            ok == old(self)@.can_increase_frozen(who, amount),
            ok ==> final(self)@ == old(self)@.frozen_increased(who, amount),
            !ok ==> final(self)@ == old(self)@,
            final(self).release_queues@ == old(self).release_queues@,
    {
        self.ledger.increase_frozen(who, amount).is_ok()
    }

    /// Grows the candidacy bond locked for `who` by `amount`.
    fn lock_bond(&mut self, who: AccountId, amount: Balance)
        ensures
            final(self)@ == old(self)@.bond_locked(who, amount),
            final(self).release_queues@ == old(self).release_queues@,
    {
        let l = self.get_locked(who);
        self.locked_balances.insert(
            who,
            LockedBalance { candidacy_bond: l.candidacy_bond.saturating_add(amount), releasing: l.releasing },
        );
    }

    /// Grows the releasing funds locked for `who` by `amount`.
    fn lock_releasing(&mut self, who: AccountId, amount: Balance)
        ensures
            final(self)@ == old(self)@.releasing_locked(who, amount),
            final(self).release_queues@ == old(self).release_queues@,
    {
        let l = self.get_locked(who);
        self.locked_balances.insert(
            who,
            LockedBalance { candidacy_bond: l.candidacy_bond, releasing: l.releasing.saturating_add(amount) },
        );
    }

    /// Migrates the bond of candidate `c`.
    fn migrate_bond_of(&mut self, c: AccountId)
        ensures
            final(self)@ == bond_migrated(old(self)@, c),
    {
        let bond = self.ledger.balance_frozen(FreezeReason::CandidacyBond, c);
        self.thaw(FreezeReason::CandidacyBond, c);
        self.thaw(FreezeReason::Releasing, c);
        if self.increase_frozen(c, bond) {
            self.lock_bond(c, bond);
        }
    }
}

/// The store once the pending release `e` was migrated, and whether the release stays: its
/// releasing freeze is thawed; a release that is due is dropped (the bond is free); one that
/// is not due yet is frozen for staking instead and locked as releasing, or dropped when the
/// balance cannot cover it.
pub open spec fn bond_release_outcome(v: StoreView, e: BondReleaseEntry) -> (StoreView, bool) {
    let c = e.candidate;
    let bond = e.release.bond;
    let v1 = v.with_freeze(FreezeReason::Releasing, c, 0);
    if v.block_number >= e.release.block {
        (v1, false)
    } else if v1.can_increase_frozen(c, bond) {
        (v1.frozen_increased(c, bond).releasing_locked(c, bond), true)
    } else {
        (v1, false)
    }
}

/// The store once the pending releases `es` were migrated in order, and the releases that
/// stay.
pub open spec fn bond_releases_outcome(v: StoreView, es: Seq<BondReleaseEntry>) -> (StoreView, Seq<BondReleaseEntry>)
    decreases es.len(),
{
    if es.len() == 0 {
        (v, Seq::empty())
    } else {
        let r = bond_releases_outcome(v, es.drop_last());
        let o = bond_release_outcome(r.0, es.last());
        (o.0, if o.1 { r.1.push(es.last()) } else { r.1 })
    }
}

/// The outcome of one call of `do_migrate_candidacy_bond_releases`: from the cursor on, as
/// many pending releases as the meter allows are migrated, and those that do not stay are
/// removed; the cursor is the last one migrated, or `None` once the walk reached the end.
pub open spec fn bond_release_batch(v: StoreView, meter: WeightMeter, cursor: Option<AccountId>) -> (
    StoreView,
    WeightMeter,
    Option<AccountId>,
) {
    let s = v.bond_releases;
    let p = start_of(ranks(s), account_cursor(cursor));
    let r = spend(meter, v.weights.candidacy_bond_release, (s.len() - p) as nat);
    let k = r.0 as int;
    let o = bond_releases_outcome(v, s.subrange(p, p + k));
    let c2 = if r.1 {
        None
    } else if k > 0 {
        Some(s[p + k - 1].candidate)
    } else {
        cursor
    };
    (StoreView { bond_releases: s.take(p) + o.1 + s.skip(p + k), ..o.0 }, r.2, c2)
}

impl MigrationStore {
    /// Migrates the pending release `e`; returns whether it stays.
    fn migrate_bond_release_of(&mut self, e: BondReleaseEntry) -> (keep: bool)
        ensures
            final(self)@ == bond_release_outcome(old(self)@, e).0,
            keep == bond_release_outcome(old(self)@, e).1,
    {
        let c = e.candidate;
        self.thaw(FreezeReason::Releasing, c);
        if self.block_number >= e.release.block {
            false
        } else if self.increase_frozen(c, e.release.bond) {
            self.lock_releasing(c, e.release.bond);
            true
        } else {
            false
        }
    }
}

/// Migrating pending releases does not touch the list of releases itself.
pub proof fn lemma_bond_releases_keep_list(v: StoreView, es: Seq<BondReleaseEntry>, l: Seq<BondReleaseEntry>)
    ensures
        bond_releases_outcome(StoreView { bond_releases: l, ..v }, es).0 == (StoreView {
            bond_releases: l,
            ..bond_releases_outcome(v, es).0
        }),
        bond_releases_outcome(StoreView { bond_releases: l, ..v }, es).1 == bond_releases_outcome(v, es).1,
    decreases es.len(),
{
    if es.len() > 0 {
        lemma_bond_releases_keep_list(v, es.drop_last(), l);
    }
}

/// The store once the release requests `reqs` of `who` were frozen again in order, at block
/// `now`, with the requests kept and their total amount (saturating): a request that is due is
/// dropped; one that is not yet due is kept when its amount can be frozen for staking, and
/// dropped otherwise.
pub open spec fn requests_refrozen(v: StoreView, who: AccountId, reqs: Seq<ReleaseRequest>, now: BlockNumber) -> (
    StoreView,
    Seq<ReleaseRequest>,
    Balance,
)
    decreases reqs.len(),
{
    if reqs.len() == 0 {
        (v, Seq::empty(), 0)
    } else {
        let r = requests_refrozen(v, who, reqs.drop_last(), now);
        let q = reqs.last();
        if now > q.block {
            r
        } else if r.0.can_increase_frozen(who, q.amount) {
            (r.0.frozen_increased(who, q.amount), r.1.push(q), r.2.saturating_add(q.amount))
        } else {
            r
        }
    }
}

/// The store once the release queue `e` was migrated, and the requests it keeps: its
/// releasing freeze is thawed, its requests are frozen again for staking (see
/// `requests_refrozen`), and what was frozen again is locked as releasing.
pub open spec fn queue_outcome(v: StoreView, e: QueueView) -> (StoreView, Seq<ReleaseRequest>) {
    let v0 = v.with_freeze(FreezeReason::Releasing, e.staker, 0);
    let r = requests_refrozen(v0, e.staker, e.requests, v.block_number);
    (if r.2 != 0 { r.0.releasing_locked(e.staker, r.2) } else { r.0 }, r.1)
}

/// The store once the release queues `es` were migrated in order, and the queues that stay
/// (those left with requests).
pub open spec fn queues_outcome(v: StoreView, es: Seq<QueueView>) -> (StoreView, Seq<QueueView>)
    decreases es.len(),
{
    if es.len() == 0 {
        (v, Seq::empty())
    } else {
        let r = queues_outcome(v, es.drop_last());
        let o = queue_outcome(r.0, es.last());
        (
            o.0,
            if o.1.len() > 0 {
                r.1.push(QueueView { staker: es.last().staker, requests: o.1 })
            } else {
                r.1
            },
        )
    }
}

/// How the walk over the release queues `es` spends a meter: before each queue it checks
/// that `required` could be consumed, and stops if not; it then consumes the weight of a
/// queue of that length; on reaching the end it consumes the weight of a queue of one
/// request. Returns the number of queues handled, whether the end was reached, and the meter
/// after.
pub open spec fn spend_queues(meter: WeightMeter, w: MigrationWeights, required: Weight, es: Seq<QueueView>) -> (
    nat,
    bool,
    WeightMeter,
)
    decreases es.len(),
{
    if !meter.spec_can_consume(required) {
        (0, false, meter)
    } else if es.len() == 0 {
        (0, true, meter.spec_consume(w.spec_release_queue(1)))
    } else {
        let r = spend_queues(
            meter.spec_consume(w.spec_release_queue(es[0].requests.len() as u64)),
            w,
            required,
            es.drop_first(),
        );
        ((r.0 + 1) as nat, r.1, r.2)
    }
}

/// The outcome of one call of `do_migrate_release_queue`: from the cursor on, as many release
/// queues as the meter allows are migrated, and those left empty are removed; the cursor is
/// the last one migrated, or `None` once the walk reached the end.
pub open spec fn release_queue_batch(v: StoreView, meter: WeightMeter, cursor: Option<AccountId>) -> (
    StoreView,
    WeightMeter,
    Option<AccountId>,
) {
    let s = v.release_queues;
    let p = start_of(queue_ranks(s), account_cursor(cursor));
    let required = v.weights.spec_release_queue(v.max_staked_candidates as u64);
    let r = spend_queues(meter, v.weights, required, s.subrange(p, s.len() as int));
    let k = r.0 as int;
    let o = queues_outcome(v, s.subrange(p, p + k));
    let c2 = if r.1 {
        None
    } else if k > 0 {
        Some(s[p + k - 1].staker)
    } else {
        cursor
    };
    (StoreView { release_queues: s.take(p) + o.1 + s.skip(p + k), ..o.0 }, r.2, c2)
}

/// Migrating release queues does not touch the list of queues itself.
pub proof fn lemma_queues_keep_list(v: StoreView, es: Seq<QueueView>, l: Seq<QueueView>)
    ensures
        queues_outcome(StoreView { release_queues: l, ..v }, es).0 == (StoreView {
            release_queues: l,
            ..queues_outcome(v, es).0
        }),
        queues_outcome(StoreView { release_queues: l, ..v }, es).1 == queues_outcome(v, es).1,
    decreases es.len(),
{
    if es.len() > 0 {
        lemma_queues_keep_list(v, es.drop_last(), l);
        let r = queues_outcome(v, es.drop_last());
        lemma_refrozen_keep_list(
            r.0.with_freeze(FreezeReason::Releasing, es.last().staker, 0),
            es.last().staker,
            es.last().requests,
            r.0.block_number,
            l,
        );
    }
}

/// Freezing release requests again does not touch the list of queues, nor the block number.
pub proof fn lemma_refrozen_keep_list(
    v: StoreView,
    who: AccountId,
    reqs: Seq<ReleaseRequest>,
    now: BlockNumber,
    l: Seq<QueueView>,
)
    ensures
        requests_refrozen(StoreView { release_queues: l, ..v }, who, reqs, now).0 == (StoreView {
            release_queues: l,
            ..requests_refrozen(v, who, reqs, now).0
        }),
        requests_refrozen(StoreView { release_queues: l, ..v }, who, reqs, now).1 == requests_refrozen(
            v,
            who,
            reqs,
            now,
        ).1,
        requests_refrozen(StoreView { release_queues: l, ..v }, who, reqs, now).2 == requests_refrozen(
            v,
            who,
            reqs,
            now,
        ).2,
        requests_refrozen(v, who, reqs, now).0.block_number == v.block_number,
        requests_refrozen(v, who, reqs, now).0.release_queues == v.release_queues,
        requests_refrozen(v, who, reqs, now).0.weights == v.weights,
        requests_refrozen(v, who, reqs, now).0.candidate_stake == v.candidate_stake,
        requests_refrozen(v, who, reqs, now).0.auto_compound == v.auto_compound,
        requests_refrozen(v, who, reqs, now).0.candidates == v.candidates,
        requests_refrozen(v, who, reqs, now).0.bond_releases == v.bond_releases,
    decreases reqs.len(),
{
    if reqs.len() > 0 {
        lemma_refrozen_keep_list(v, who, reqs.drop_last(), now, l);
    }
}

impl MigrationStore {
    /// Migrates the release queue at position `q`; returns whether it stays (it still has
    /// requests), in which case it holds the requests kept; otherwise it is removed.
    fn migrate_queue_at(&mut self, q: usize) -> (keep: bool)
        requires
            q < old(self).release_queues@.len(),
        ensures
            ({
                let e = old(self)@.release_queues[q as int];
                let o = queue_outcome(old(self)@, e);
                &&& keep == (o.1.len() > 0)
                &&& keep ==> final(self)@ == (StoreView {
                    release_queues: old(self)@.release_queues.update(
                        q as int,
                        QueueView { staker: e.staker, requests: o.1 },
                    ),
                    ..o.0
                })
                &&& !keep ==> final(self)@ == (StoreView {
                    release_queues: old(self)@.release_queues.remove(q as int),
                    ..o.0
                })
            }),
    {
        let ghost v0 = old(self)@;
        let ghost e = v0.release_queues[q as int];
        let ghost rq0 = self.release_queues@;
        let staker = self.release_queues[q].staker;
        let n = self.release_queues[q].requests.len();
        let now = self.block_number;
        self.thaw(FreezeReason::Releasing, staker);
        let ghost vt = self@;
        let mut kept: Vec<ReleaseRequest> = Vec::new();
        let mut total: u64 = 0;
        let mut t: usize = 0;
        proof {
            assert(e.requests.take(0) =~= Seq::<ReleaseRequest>::empty());
            assert(e.requests == rq0[q as int].requests@);
        }
        while t < n
            invariant
                t <= n,
                q < rq0.len(),
                n == e.requests.len(),
                staker == e.staker,
                now == v0.block_number,
                e.requests == rq0[q as int].requests@,
                self.release_queues@ == rq0,
                (self@, kept@, total) == requests_refrozen(vt, staker, e.requests.take(t as int), now),
            decreases n - t,
        {
            let rq = self.release_queues[q].requests[t];
            proof {
                assert(e.requests.take(t + 1).drop_last() =~= e.requests.take(t as int));
                assert(e.requests.take(t + 1).last() == rq);
            }
            if now <= rq.block {
                if self.increase_frozen(staker, rq.amount) {
                    total = total.saturating_add(rq.amount);
                    kept.push(rq);
                }
            }
            t = t + 1;
        }
        proof {
            assert(e.requests.take(n as int) =~= e.requests);
        }
        if total != 0 {
            self.lock_releasing(staker, total);
        }
        if kept.len() == 0 {
            self.release_queues.remove(q);
            proof {
                assert(self.release_queues@.map_values(|x: QueueEntry| x@) =~= v0.release_queues.remove(
                    q as int,
                ));
            }
            false
        } else {
            self.release_queues.set(q, QueueEntry { staker, requests: kept });
            proof {
                assert(self.release_queues@.map_values(|x: QueueEntry| x@) =~= v0.release_queues.update(
                    q as int,
                    QueueView { staker: e.staker, requests: kept@ },
                ));
            }
            true
        }
    }
}

/// The stages of the migration, each with the cursor of its walk.
#[derive(Clone, Copy, Debug, PartialEq, Eq)]
pub enum MigrationSteps {
    /// The stakes are being rewritten in the new layout.
    MigrateStake { cursor: Option<(AccountId, AccountId)> },
    /// The auto-compounding preferences are being migrated.
    MigrateAutocompounding { cursor: Option<AccountId> },
    /// The release queues are being migrated.
    MigrateReleaseQueue { cursor: Option<AccountId> },
    /// The candidacy bonds are being migrated.
    MigrateCandidacyBond { cursor: Option<AccountId> },
    /// The pending candidacy bond releases are being migrated.
    MigrateCandidacyBondReleases { cursor: Option<AccountId> },
    /// The claimable rewards are to be reset to zero.
    ResetClaimableRewards,
    /// The storage version is to become 2.
    ChangeStorageVersion,
    /// Nothing is left to do.
    Noop,
}

/// The identity of a migration: the storage versions it migrates from and to.
#[derive(Clone, Copy, Debug, PartialEq, Eq, Structural)]
pub struct MigrationId {
    /// The version the storage must be at for the migration to run.
    pub version_from: u8,
    /// The version the storage is at once the migration is done.
    pub version_to: u8,
}

/// Setting the storage version to 2, if the meter allows one write.
pub open spec fn spec_set_storage_version(v: StoreView, meter: WeightMeter) -> (StoreView, WeightMeter, MigrationSteps) {
    if meter.spec_can_consume(v.weights.db_write) {
        (StoreView { storage_version: 2, ..v }, meter.spec_consume(v.weights.db_write), MigrationSteps::Noop)
    } else {
        (v, meter, MigrationSteps::ChangeStorageVersion)
    }
}

/// Resetting the claimable rewards, if the meter allows one write, then going on to the
/// storage version.
pub open spec fn spec_reset_rewards(v: StoreView, meter: WeightMeter) -> (StoreView, WeightMeter, MigrationSteps) {
    if meter.spec_can_consume(v.weights.db_write) {
        spec_set_storage_version(StoreView { claimable_rewards: 0, ..v }, meter.spec_consume(v.weights.db_write))
    } else {
        (v, meter, MigrationSteps::ResetClaimableRewards)
    }
}

/// Migrating pending bond releases from `cursor`, then, once they are done, going on.
pub open spec fn spec_migrate_candidacy_bond_releases(v: StoreView, meter: WeightMeter, cursor: Option<AccountId>) -> (
    StoreView,
    WeightMeter,
    MigrationSteps,
) {
    let b = bond_release_batch(v, meter, cursor);
    match b.2 {
        None => spec_reset_rewards(b.0, b.1),
        Some(c) => (b.0, b.1, MigrationSteps::MigrateCandidacyBondReleases { cursor: Some(c) }),
    }
}

/// Migrating candidacy bonds from `cursor`, then, once they are done, going on.
pub open spec fn spec_migrate_candidacy_bond(v: StoreView, meter: WeightMeter, cursor: Option<AccountId>) -> (
    StoreView,
    WeightMeter,
    MigrationSteps,
) {
    let b = candidacy_bond_batch(v, meter, cursor);
    match b.2 {
        None => spec_migrate_candidacy_bond_releases(b.0, b.1, None),
        Some(c) => (b.0, b.1, MigrationSteps::MigrateCandidacyBond { cursor: Some(c) }),
    }
}

/// Migrating release queues from `cursor`, then, once they are done, going on.
pub open spec fn spec_migrate_release_queue(v: StoreView, meter: WeightMeter, cursor: Option<AccountId>) -> (
    StoreView,
    WeightMeter,
    MigrationSteps,
) {
    let b = release_queue_batch(v, meter, cursor);
    match b.2 {
        None => spec_migrate_candidacy_bond(b.0, b.1, None),
        Some(c) => (b.0, b.1, MigrationSteps::MigrateReleaseQueue { cursor: Some(c) }),
    }
}

/// Migrating auto-compounding preferences from `cursor`, then, once they are done, going on.
pub open spec fn spec_migrate_autocompounding(v: StoreView, meter: WeightMeter, cursor: Option<AccountId>) -> (
    StoreView,
    WeightMeter,
    MigrationSteps,
) {
    let b = autocompound_batch(v, meter, cursor);
    match b.2 {
        None => spec_migrate_release_queue(b.0, b.1, None),
        Some(c) => (b.0, b.1, MigrationSteps::MigrateAutocompounding { cursor: Some(c) }),
    }
}

/// Migrating stakes from `cursor`, then, once they are done, going on.
pub open spec fn spec_migrate_stake(v: StoreView, meter: WeightMeter, cursor: Option<(AccountId, AccountId)>) -> (
    StoreView,
    WeightMeter,
    MigrationSteps,
) {
    let b = stake_batch(v, meter, cursor);
    match b.2 {
        None => spec_migrate_autocompounding(b.0, b.1, None),
        Some(c) => (b.0, b.1, MigrationSteps::MigrateStake { cursor: Some(c) }),
    }
}

/// Running the stage `cursor` and those after it as far as the meter allows.
pub open spec fn spec_run_stage(v: StoreView, meter: WeightMeter, cursor: MigrationSteps) -> (
    StoreView,
    WeightMeter,
    MigrationSteps,
) {
    match cursor {
        MigrationSteps::MigrateStake { cursor } => spec_migrate_stake(v, meter, cursor),
        MigrationSteps::MigrateAutocompounding { cursor } => spec_migrate_autocompounding(v, meter, cursor),
        MigrationSteps::MigrateReleaseQueue { cursor } => spec_migrate_release_queue(v, meter, cursor),
        MigrationSteps::MigrateCandidacyBond { cursor } => spec_migrate_candidacy_bond(v, meter, cursor),
        MigrationSteps::MigrateCandidacyBondReleases { cursor } => spec_migrate_candidacy_bond_releases(
            v,
            meter,
            cursor,
        ),
        MigrationSteps::ResetClaimableRewards => spec_reset_rewards(v, meter),
        MigrationSteps::ChangeStorageVersion => spec_set_storage_version(v, meter),
        MigrationSteps::Noop => (v, meter, MigrationSteps::Noop),
    }
}

/// The outcome of one step of the migration: nothing happens unless the storage is at
/// version 1; otherwise the stage of the cursor (the first stage when there is none) runs
/// as far as the meter allows, and the next cursor is returned, or `None` when nothing is
/// left to do.
pub open spec fn spec_step(v: StoreView, meter: WeightMeter, maybe_cursor: Option<MigrationSteps>) -> (
    StoreView,
    WeightMeter,
    Option<MigrationSteps>,
) {
    if v.storage_version != 1 {
        (v, meter, None)
    } else {
        let cursor = match maybe_cursor {
            Some(c) => c,
            None => MigrationSteps::MigrateStake { cursor: None },
        };
        let r = spec_run_stage(v, meter, cursor);
        (r.0, r.1, if r.2 == MigrationSteps::Noop { None } else { Some(r.2) })
    }
}

/// The migration from layout version 1 to version 2, run a step at a time.
pub struct LazyMigrationV1ToV2;

impl LazyMigrationV1ToV2 {

    /// The identity of this migration: from storage version 1 to 2.
    pub fn id() -> (r: MigrationId)
        ensures
            r == (MigrationId { version_from: 1, version_to: 2 }),
    {
        MigrationId { version_from: 1, version_to: 2 }
    }

    /// Migrates stakes from `cursor`; once they are all done, goes on with the next stages.
    pub fn migrate_stake(
        store: &mut MigrationStore,
        meter: &mut WeightMeter,
        cursor: Option<(AccountId, AccountId)>,
    ) -> (r: MigrationSteps)
        requires
            old(store)@.wf(),
        ensures
            final(store)@.wf(),
            (final(store)@, *final(meter), r) == spec_migrate_stake(old(store)@, *old(meter), cursor),
    {
        let mut cursor = cursor;
        Self::do_migrate_stake(store, meter, &mut cursor);
        match cursor {
            None => Self::migrate_autocompounding(store, meter, None),
            Some(checkpoint) => MigrationSteps::MigrateStake { cursor: Some(checkpoint) },
        }
    }

    /// Migrates auto-compounding preferences from `cursor`; once they are all done, goes on
    /// with the next stages.
    pub fn migrate_autocompounding(
        store: &mut MigrationStore,
        meter: &mut WeightMeter,
        cursor: Option<AccountId>,
    ) -> (r: MigrationSteps)
        requires
            old(store)@.wf(),
        ensures
            final(store)@.wf(),
            (final(store)@, *final(meter), r) == spec_migrate_autocompounding(old(store)@, *old(meter), cursor),
    {
        let mut cursor = cursor;
        Self::do_migrate_autocompounding(store, meter, &mut cursor);
        match cursor {
            None => Self::migrate_release_queue(store, meter, None),
            Some(checkpoint) => MigrationSteps::MigrateAutocompounding { cursor: Some(checkpoint) },
        }
    }

    /// Migrates release queues from `cursor`; once they are all done, goes on with the next
    /// stages.
    pub fn migrate_release_queue(
        store: &mut MigrationStore,
        meter: &mut WeightMeter,
        cursor: Option<AccountId>,
    ) -> (r: MigrationSteps)
        requires
            old(store)@.wf(),
        ensures
            final(store)@.wf(),
            (final(store)@, *final(meter), r) == spec_migrate_release_queue(old(store)@, *old(meter), cursor),
    {
        let mut cursor = cursor;
        Self::do_migrate_release_queue(store, meter, &mut cursor);
        match cursor {
            None => Self::migrate_candidacy_bond(store, meter, None),
            Some(checkpoint) => MigrationSteps::MigrateReleaseQueue { cursor: Some(checkpoint) },
        }
    }

    /// Migrates candidacy bonds from `cursor`; once they are all done, goes on with the next
    /// stages.
    pub fn migrate_candidacy_bond(
        store: &mut MigrationStore,
        meter: &mut WeightMeter,
        cursor: Option<AccountId>,
    ) -> (r: MigrationSteps)
        requires
            old(store)@.wf(),
        ensures
            final(store)@.wf(),
            (final(store)@, *final(meter), r) == spec_migrate_candidacy_bond(old(store)@, *old(meter), cursor),
    {
        let mut cursor = cursor;
        Self::do_migrate_candidacy_bond(store, meter, &mut cursor);
        match cursor {
            None => Self::migrate_candidacy_bond_releases(store, meter, None),
            Some(checkpoint) => MigrationSteps::MigrateCandidacyBond { cursor: Some(checkpoint) },
        }
    }

    /// Migrates pending bond releases from `cursor`; once they are all done, goes on with the
    /// next stages.
    pub fn migrate_candidacy_bond_releases(
        store: &mut MigrationStore,
        meter: &mut WeightMeter,
        cursor: Option<AccountId>,
    ) -> (r: MigrationSteps)
        requires
            old(store)@.wf(),
        ensures
            final(store)@.wf(),
            (final(store)@, *final(meter), r) == spec_migrate_candidacy_bond_releases(
                old(store)@,
                *old(meter),
                cursor,
            ),
    {
        let mut cursor = cursor;
        Self::do_migrate_candidacy_bond_releases(store, meter, &mut cursor);
        match cursor {
            None => Self::reset_rewards(store, meter),
            Some(checkpoint) => MigrationSteps::MigrateCandidacyBondReleases { cursor: Some(checkpoint) },
        }
    }

    /// Sets the storage version to 2 if the meter allows one write.
    pub fn set_storage_version(store: &mut MigrationStore, meter: &mut WeightMeter) -> (r: MigrationSteps)
        requires
            old(store)@.wf(),
        ensures
            final(store)@.wf(),
            (final(store)@, *final(meter), r) == spec_set_storage_version(old(store)@, *old(meter)),
    {
        let required = store.weights.db_write;
        if meter.try_consume(required).is_ok() {
            store.storage_version = Self::id().version_to as u16;
            MigrationSteps::Noop
        } else {
            MigrationSteps::ChangeStorageVersion
        }
    }

    /// Resets the claimable rewards if the meter allows one write, then goes on with the
    /// storage version.
    pub fn reset_rewards(store: &mut MigrationStore, meter: &mut WeightMeter) -> (r: MigrationSteps)
        requires
            old(store)@.wf(),
        ensures
            final(store)@.wf(),
            (final(store)@, *final(meter), r) == spec_reset_rewards(old(store)@, *old(meter)),
    {
        let required = store.weights.db_write;
        if meter.try_consume(required).is_ok() {
            store.claimable_rewards = 0;
            Self::set_storage_version(store, meter)
        } else {
            MigrationSteps::ResetClaimableRewards
        }
    }

    /// One step of the migration: nothing happens unless the storage is at version 1;
    /// otherwise the stage of the cursor (the first stage when there is none) runs as far as
    /// the meter allows. Returns the cursor to resume from, or `None` when the migration is
    /// complete.
    pub fn step(
        store: &mut MigrationStore,
        maybe_cursor: Option<MigrationSteps>,
        meter: &mut WeightMeter,
    ) -> (r: Option<MigrationSteps>)
        requires
            old(store)@.wf(),
        ensures
            final(store)@.wf(),
            (final(store)@, *final(meter), r) == spec_step(old(store)@, *old(meter), maybe_cursor),
    {
        if store.storage_version != Self::id().version_from as u16 {
            return None;
        }
        let cursor = match maybe_cursor {
            Some(c) => c,
            None => MigrationSteps::MigrateStake { cursor: None },
        };
        let new_cursor = match cursor {
            MigrationSteps::MigrateStake { cursor: checkpoint } => Self::migrate_stake(store, meter, checkpoint),
            MigrationSteps::MigrateAutocompounding { cursor: checkpoint } => {
                Self::migrate_autocompounding(store, meter, checkpoint)
            },
            MigrationSteps::MigrateReleaseQueue { cursor: checkpoint } => {
                Self::migrate_release_queue(store, meter, checkpoint)
            },
            MigrationSteps::MigrateCandidacyBond { cursor: checkpoint } => {
                Self::migrate_candidacy_bond(store, meter, checkpoint)
            },
            MigrationSteps::MigrateCandidacyBondReleases { cursor: checkpoint } => {
                Self::migrate_candidacy_bond_releases(store, meter, checkpoint)
            },
            MigrationSteps::ResetClaimableRewards => Self::reset_rewards(store, meter),
            MigrationSteps::ChangeStorageVersion => Self::set_storage_version(store, meter),
            MigrationSteps::Noop => MigrationSteps::Noop,
        };
        match new_cursor {
            MigrationSteps::Noop => None,
            _ => Some(new_cursor),
        }
    }

    /// Moves release queues to the staking freeze, from the cursor on, as long as the meter
    /// allows: each queue's releasing freeze is thawed, requests that are due are dropped, the
    /// others are frozen again for staking (dropped when the funds are gone) and locked as
    /// releasing; a queue left empty is removed.
    pub fn do_migrate_release_queue(
        store: &mut MigrationStore,
        meter: &mut WeightMeter,
        cursor: &mut Option<AccountId>,
    )
        requires
            old(store)@.wf(),
        ensures
            final(store)@.wf(),
            (final(store)@, *final(meter), *final(cursor)) == release_queue_batch(
                old(store)@,
                *old(meter),
                *old(cursor),
            ),
    {
        let required = store.weights.release_queue(store.max_staked_candidates as u64);
        proof {
            assert(ranks(store.release_queues@) =~= queue_ranks(store@.release_queues));
        }
        let p = start_after(&store.release_queues, *cursor);
        let ghost v0 = store@;
        let ghost s0 = v0.release_queues;
        let ghost c0 = *cursor;
        let ghost w = v0.weights;
        let ghost r0 = spend_queues(*meter, w, required, s0.subrange(p as int, s0.len() as int));
        let ghost mut j: int = 0;
        let mut q: usize = p;
        proof {
            assert(s0 =~= s0.take(p as int) + Seq::<QueueView>::empty() + s0.skip(p as int));
            assert(s0.subrange(p as int, p as int) =~= Seq::<QueueView>::empty());
        }
        loop
            invariant_except_break
                spend_queues(*meter, w, required, s0.subrange(p + j, s0.len() as int)).0 + j == r0.0,
                spend_queues(*meter, w, required, s0.subrange(p + j, s0.len() as int)).1 == r0.1,
                spend_queues(*meter, w, required, s0.subrange(p + j, s0.len() as int)).2 == r0.2,
                j > 0 ==> *cursor == Some(s0[p + j - 1].staker),
                j == 0 ==> *cursor == c0,
            invariant
                0 <= j <= s0.len() - p,
                p <= s0.len(),
                w == v0.weights,
                store.weights == w,
                required == w.spec_release_queue(v0.max_staked_candidates as u64),
                p == start_of(queue_ranks(s0), account_cursor(c0)),
                r0 == spend_queues(*old(meter), w, required, s0.subrange(p as int, s0.len() as int)),
                q == p + queues_outcome(v0, s0.subrange(p as int, p + j)).1.len(),
                store@ == (StoreView {
                    release_queues: s0.take(p as int) + queues_outcome(v0, s0.subrange(p as int, p + j)).1
                        + s0.skip(p + j),
                    ..queues_outcome(v0, s0.subrange(p as int, p + j)).0
                }),
                ascending(queue_ranks(store@.release_queues)),
                store@.candidate_stake == v0.candidate_stake,
                store@.auto_compound == v0.auto_compound,
                store@.candidates == v0.candidates,
                store@.bond_releases == v0.bond_releases,
                v0.wf(),
            ensures
                store@.wf(),
                0 <= j <= s0.len() - p,
                store@ == (StoreView {
                    release_queues: s0.take(p as int) + queues_outcome(v0, s0.subrange(p as int, p + j)).1
                        + s0.skip(p + j),
                    ..queues_outcome(v0, s0.subrange(p as int, p + j)).0
                }),
                r0.0 == j,
                r0.2 == *meter,
                r0.1 ==> *cursor is None,
                !r0.1 && j > 0 ==> *cursor == Some(s0[p + j - 1].staker),
                !r0.1 && j == 0 ==> *cursor == c0,
            decreases s0.len() - p - j,
        {
            if !meter.can_consume(required) {
                break;
            }
            if q >= store.release_queues.len() {
                let one = store.weights.release_queue(1);
                meter.consume(one);
                *cursor = None;
                proof {
                    assert(s0.subrange(p + j, s0.len() as int).len() == 0);
                }
                break;
            }
            let ghost before = store@;
            let ghost done = s0.subrange(p as int, p + j);
            let ghost out = queues_outcome(v0, done);
            let n = store.release_queues[q].requests.len();
            let staker = store.release_queues[q].staker;
            proof {
                assert(before.release_queues[q as int] == s0[p + j]);
                assert(s0.subrange(p + j, s0.len() as int)[0] == s0[p + j]);
                assert(s0.subrange(p + j, s0.len() as int).drop_first() =~= s0.subrange(
                    p + j + 1,
                    s0.len() as int,
                ));
                assert(s0.subrange(p as int, p + j + 1).drop_last() =~= done);
                lemma_queues_keep_list(out.0, seq![s0[p + j]], before.release_queues);
                assert(seq![s0[p + j]].drop_last() =~= Seq::<QueueView>::empty());
            }
            let weight = store.weights.release_queue(n as u64);
            meter.consume(weight);
            let keep = store.migrate_queue_at(q);
            proof {
                let o = queue_outcome(out.0, s0[p + j]);
                lemma_refrozen_keep_list(
                    out.0.with_freeze(FreezeReason::Releasing, s0[p + j].staker, 0),
                    s0[p + j].staker,
                    s0[p + j].requests,
                    out.0.block_number,
                    before.release_queues,
                );
                if keep {
                    assert(store@.release_queues =~= s0.take(p as int) + out.1.push(
                        QueueView { staker: s0[p + j].staker, requests: o.1 },
                    ) + s0.skip(p + j + 1));
                    assert(queue_ranks(store@.release_queues) =~= queue_ranks(before.release_queues));
                } else {
                    assert(store@.release_queues =~= s0.take(p as int) + out.1 + s0.skip(p + j + 1));
                    assert(queue_ranks(store@.release_queues) =~= queue_ranks(before.release_queues).remove(
                        q as int,
                    ));
                    lemma_ascending_remove(queue_ranks(before.release_queues), q as int);
                }
            }
            proof {
                lemma_refrozen_keep_list(
                    before.with_freeze(FreezeReason::Releasing, s0[p + j].staker, 0),
                    s0[p + j].staker,
                    s0[p + j].requests,
                    before.block_number,
                    before.release_queues,
                );
            }
            if keep {
                q = q + 1;
            }
            *cursor = Some(staker);
            proof {
                j = j + 1;
            }
        }
    }

    /// Moves pending candidacy bond releases to the staking freeze, from the cursor on, as
    /// long as the meter allows; releases that are due, or whose funds are gone, are removed.
    pub fn do_migrate_candidacy_bond_releases(
        store: &mut MigrationStore,
        meter: &mut WeightMeter,
        cursor: &mut Option<AccountId>,
    )
        requires
            old(store)@.wf(),
        ensures
            final(store)@.wf(),
            (final(store)@, *final(meter), *final(cursor)) == bond_release_batch(
                old(store)@,
                *old(meter),
                *old(cursor),
            ),
    {
        let required = store.weights.candidacy_bond_release;
        let p = start_after(&store.bond_releases, *cursor);
        let ghost v0 = store@;
        let ghost s0 = v0.bond_releases;
        let ghost c0 = *cursor;
        let ghost r0 = spend(*meter, required, (s0.len() - p) as nat);
        let ghost mut j: int = 0;
        let mut q: usize = p;
        proof {
            assert(s0 =~= s0.take(p as int) + Seq::<BondReleaseEntry>::empty() + s0.skip(p as int));
            assert(s0.subrange(p as int, p as int) =~= Seq::<BondReleaseEntry>::empty());
        }
        loop
            invariant_except_break
                spend(*meter, required, (s0.len() - p - j) as nat).0 + j == r0.0,
                spend(*meter, required, (s0.len() - p - j) as nat).1 == r0.1,
                spend(*meter, required, (s0.len() - p - j) as nat).2 == r0.2,
                j > 0 ==> *cursor == Some(s0[p + j - 1].candidate),
                j == 0 ==> *cursor == c0,
            invariant
                0 <= j <= s0.len() - p,
                p <= s0.len(),
                required == v0.weights.candidacy_bond_release,
                p == start_of(ranks(s0), account_cursor(c0)),
                r0 == spend(*old(meter), required, (s0.len() - p) as nat),
                q == p + bond_releases_outcome(v0, s0.subrange(p as int, p + j)).1.len(),
                store@ == (StoreView {
                    bond_releases: s0.take(p as int) + bond_releases_outcome(v0, s0.subrange(p as int, p + j)).1
                        + s0.skip(p + j),
                    ..bond_releases_outcome(v0, s0.subrange(p as int, p + j)).0
                }),
                ascending(ranks(store.bond_releases@)),
                store@.candidate_stake == v0.candidate_stake,
                store@.auto_compound == v0.auto_compound,
                store@.release_queues == v0.release_queues,
                store@.candidates == v0.candidates,
                v0.wf(),
            ensures
                store@.wf(),
                0 <= j <= s0.len() - p,
                store@ == (StoreView {
                    bond_releases: s0.take(p as int) + bond_releases_outcome(v0, s0.subrange(p as int, p + j)).1
                        + s0.skip(p + j),
                    ..bond_releases_outcome(v0, s0.subrange(p as int, p + j)).0
                }),
                ascending(ranks(store.bond_releases@)),
                r0.0 == j,
                r0.2 == *meter,
                r0.1 ==> *cursor is None,
                !r0.1 && j > 0 ==> *cursor == Some(s0[p + j - 1].candidate),
                !r0.1 && j == 0 ==> *cursor == c0,
            decreases s0.len() - p - j,
        {
            if meter.try_consume(required).is_err() {
                break;
            }
            if q >= store.bond_releases.len() {
                *cursor = None;
                break;
            }
            let ghost before = store@;
            let ghost done = s0.subrange(p as int, p + j);
            let ghost out = bond_releases_outcome(v0, done);
            let e = store.bond_releases[q];
            proof {
                assert(e == s0[p + j]);
                lemma_bond_releases_keep_list(out.0, seq![e], before.bond_releases);
                assert(s0.subrange(p as int, p + j + 1).drop_last() =~= done);
            }
            let keep = store.migrate_bond_release_of(e);
            if keep {
                proof {
                    assert(store@.bond_releases =~= s0.take(p as int) + out.1.push(e) + s0.skip(p + j + 1));
                }
                q = q + 1;
            } else {
                let ghost l = store.bond_releases@;
                store.bond_releases.remove(q);
                proof {
                    assert(store.bond_releases@ =~= s0.take(p as int) + out.1 + s0.skip(p + j + 1));
                    assert(ranks(store.bond_releases@) =~= ranks(l).remove(q as int));
                    lemma_ascending_remove(ranks(l), q as int);
                }
            }
            *cursor = Some(e.candidate);
            proof {
                j = j + 1;
            }
        }
    }

    /// Moves candidacy bonds to the staking freeze, from the cursor on, as long as the meter
    /// allows.
    pub fn do_migrate_candidacy_bond(
        store: &mut MigrationStore,
        meter: &mut WeightMeter,
        cursor: &mut Option<AccountId>,
    )
        requires
            old(store)@.wf(),
        ensures
            final(store)@.wf(),
            (final(store)@, *final(meter), *final(cursor)) == candidacy_bond_batch(
                old(store)@,
                *old(meter),
                *old(cursor),
            ),
    {
        let required = store.weights.candidacy_bond;
        let p = start_after(&store.candidates, *cursor);
        let ghost v0 = store@;
        let ghost s0 = v0.candidates;
        let ghost c0 = *cursor;
        let ghost r0 = spend(*meter, required, (s0.len() - p) as nat);
        let mut i: usize = p;
        proof {
            assert(s0.subrange(p as int, p as int) =~= Seq::<AccountId>::empty());
        }
        loop
            invariant_except_break
                spend(*meter, required, (s0.len() - i) as nat).0 + (i - p) == r0.0,
                spend(*meter, required, (s0.len() - i) as nat).1 == r0.1,
                spend(*meter, required, (s0.len() - i) as nat).2 == r0.2,
                i > p ==> *cursor == Some(s0[i - 1]),
                i == p ==> *cursor == c0,
            invariant
                p <= i <= s0.len(),
                required == v0.weights.candidacy_bond,
                p == start_of(ranks(s0), account_cursor(c0)),
                r0 == spend(*old(meter), required, (s0.len() - p) as nat),
                store@ == bonds_migrated(v0, s0.subrange(p as int, i as int)),
                store@.candidates == s0,
                store@.wf(),
            ensures
                p <= i <= s0.len(),
                store@ == bonds_migrated(v0, s0.subrange(p as int, i as int)),
                store@.wf(),
                r0.0 == i - p,
                r0.2 == *meter,
                r0.1 ==> *cursor is None,
                !r0.1 && i > p ==> *cursor == Some(s0[i - 1]),
                !r0.1 && i == p ==> *cursor == c0,
            decreases s0.len() - i,
        {
            if meter.try_consume(required).is_err() {
                break;
            }
            if i >= store.candidates.len() {
                *cursor = None;
                break;
            }
            let c = store.candidates[i];
            store.migrate_bond_of(c);
            proof {
                assert(s0.subrange(p as int, i + 1).drop_last() =~= s0.subrange(p as int, i as int));
            }
            *cursor = Some(c);
            i = i + 1;
        }
    }

    /// Turns auto-compounding preferences into settings, from the cursor on, as long as the
    /// meter allows.
    pub fn do_migrate_autocompounding(
        store: &mut MigrationStore,
        meter: &mut WeightMeter,
        cursor: &mut Option<AccountId>,
    )
        requires
            old(store)@.wf(),
        ensures
            final(store)@.wf(),
            (final(store)@, *final(meter), *final(cursor)) == autocompound_batch(
                old(store)@,
                *old(meter),
                *old(cursor),
            ),
    {
        let required = store.weights.autocompound_step;
        let p = start_after(&store.auto_compound, *cursor);
        let ghost v0 = store@;
        let ghost s0 = v0.auto_compound;
        let ghost c0 = *cursor;
        let ghost r0 = spend(*meter, required, (s0.len() - p) as nat);
        let ghost mut j: int = 0;
        proof {
            assert(s0 =~= s0.take(p as int) + s0.skip(p as int));
            assert(s0.subrange(p as int, p as int) =~= Seq::<AutoCompoundEntry>::empty());
        }
        loop
            invariant_except_break
                spend(*meter, required, (s0.len() - p - j) as nat).0 + j == r0.0,
                spend(*meter, required, (s0.len() - p - j) as nat).1 == r0.1,
                spend(*meter, required, (s0.len() - p - j) as nat).2 == r0.2,
                j > 0 ==> *cursor == Some(s0[p + j - 1].staker),
                j == 0 ==> *cursor == c0,
            invariant
                0 <= j <= s0.len() - p,
                p <= s0.len(),
                required == v0.weights.autocompound_step,
                p == start_of(ranks(s0), account_cursor(c0)),
                r0 == spend(*old(meter), required, (s0.len() - p) as nat),
                store@ == (StoreView {
                    auto_compound: s0.take(p as int) + s0.skip(p + j),
                    auto_compound_settings: settings_after(
                        v0.auto_compound_settings,
                        s0.subrange(p as int, p + j),
                    ),
                    ..v0
                }),
                ascending(ranks(store.auto_compound@)),
            ensures
                0 <= j <= s0.len() - p,
                store@ == (StoreView {
                    auto_compound: s0.take(p as int) + s0.skip(p + j),
                    auto_compound_settings: settings_after(
                        v0.auto_compound_settings,
                        s0.subrange(p as int, p + j),
                    ),
                    ..v0
                }),
                ascending(ranks(store.auto_compound@)),
                r0.0 == j,
                r0.2 == *meter,
                r0.1 ==> *cursor is None,
                !r0.1 && j > 0 ==> *cursor == Some(s0[p + j - 1].staker),
                !r0.1 && j == 0 ==> *cursor == c0,
            decreases s0.len() - p - j,
        {
            if meter.try_consume(required).is_err() {
                break;
            }
            if p >= store.auto_compound.len() {
                *cursor = None;
                break;
            }
            let ghost before = store.auto_compound@;
            let e = store.auto_compound.remove(p);
            proof {
                assert(e == s0[p + j]);
                assert(store.auto_compound@ =~= s0.take(p as int) + s0.skip(p + j + 1));
                assert(ranks(store.auto_compound@) =~= ranks(before).remove(p as int));
                lemma_ascending_remove(ranks(before), p as int);
                assert(s0.subrange(p as int, p + j + 1).drop_last() =~= s0.subrange(p as int, p + j));
            }
            if !e.percentage.is_zero() {
                store.auto_compound_settings.insert(e.staker, true);
            }
            *cursor = Some(e.staker);
            proof {
                j = j + 1;
            }
        }
    }
    /// Rewrites stakes in the new layout, from the cursor on, as long as the meter allows.
    pub fn do_migrate_stake(
        store: &mut MigrationStore,
        meter: &mut WeightMeter,
        cursor: &mut Option<(AccountId, AccountId)>,
    )
        requires
            old(store)@.wf(),
        ensures
            final(store)@.wf(),
            (final(store)@, *final(meter), *final(cursor)) == stake_batch(old(store)@, *old(meter), *old(cursor)),
    {
        let required = store.weights.stake_step;
        let p = stake_start_after(&store.candidate_stake, *cursor);
        let ghost v0 = store@;
        let ghost s0 = v0.candidate_stake;
        let ghost c0 = *cursor;
        let ghost r0 = spend(*meter, required, (s0.len() - p) as nat);
        let mut i: usize = p;
        loop
            invariant_except_break
                spend(*meter, required, (s0.len() - i) as nat).0 + (i - p) == r0.0,
                spend(*meter, required, (s0.len() - i) as nat).1 == r0.1,
                spend(*meter, required, (s0.len() - i) as nat).2 == r0.2,
                i > p ==> *cursor == Some((s0[i - 1].candidate, s0[i - 1].staker)),
                i == p ==> *cursor == c0,
            invariant
                p <= i <= s0.len(),
                required == v0.weights.stake_step,
                p == start_of(stake_ranks(s0), pair_cursor(c0)),
                r0 == spend(*old(meter), required, (s0.len() - p) as nat),
                store@ == (StoreView {
                    candidate_stake: Seq::new(
                        s0.len(),
                        |j: int| if p <= j < i { migrated_stake(s0[j]) } else { s0[j] },
                    ),
                    ..v0
                }),
            ensures
                p <= i <= s0.len(),
                store@ == (StoreView {
                    candidate_stake: Seq::new(
                        s0.len(),
                        |j: int| if p <= j < i { migrated_stake(s0[j]) } else { s0[j] },
                    ),
                    ..v0
                }),
                r0.0 == i - p,
                r0.2 == *meter,
                r0.1 ==> *cursor is None,
                !r0.1 && i > p ==> *cursor == Some((s0[i - 1].candidate, s0[i - 1].staker)),
                !r0.1 && i == p ==> *cursor == c0,
            decreases s0.len() - i,
        {
            if meter.try_consume(required).is_err() {
                break;
            }
            if i >= store.candidate_stake.len() {
                *cursor = None;
                break;
            }
            let e = store.candidate_stake[i];
            let stake = match e.value {
                StakeValue::Old { stake, .. } => stake,
                StakeValue::Migrated { stake } => stake,
            };
            store.candidate_stake.set(
                i,
                StakeEntry { candidate: e.candidate, staker: e.staker, value: StakeValue::Migrated { stake } },
            );
            proof {
                assert(store.candidate_stake@ =~= Seq::new(
                    s0.len(),
                    |j: int| if p <= j < i + 1 { migrated_stake(s0[j]) } else { s0[j] },
                ));
            }
            *cursor = Some((e.candidate, e.staker));
            i = i + 1;
        }
        proof {
            assert(stake_ranks(store.candidate_stake@) =~= stake_ranks(s0));
        }
    }
}

} // verus!
