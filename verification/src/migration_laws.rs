//! What a run of the migration, step after step, does to the stakes and the claimable rewards.

use vstd::prelude::*;

use crate::laws::lemma_start_exists;
use crate::migration::{
    pair_cursor, pair_rank, spec_migrate_stake, spec_run_stage, spec_step, spend, stake_batch,
    stake_ranks, start_of, StakeEntry,
    ascending, autocompound_batch, bond_release_batch, bond_releases_outcome, bonds_migrated,
    candidacy_bond_batch, queue_outcome, queues_outcome, release_queue_batch, requests_refrozen,
    spec_migrate_autocompounding, spec_migrate_candidacy_bond, spec_migrate_candidacy_bond_releases,
    spec_migrate_release_queue, spec_reset_rewards, spec_set_storage_version, MigrationSteps,
    StoreView,
};
use crate::migration_check::{
    autocompound_check, bond_check, bond_release_check, first_failure, release_check, stake_check,
    stake_record, PostUpgradeError, PreUpgradeState,
};
use crate::types::{AccountId, BlockNumber, ReleaseRequest};
use crate::weight::{Weight, WeightMeter};

verus! {

/// `w` has the stakes, the claimable rewards and the storage version of `v`.
pub open spec fn core_kept(v: StoreView, w: StoreView) -> bool {
    &&& w.candidate_stake == v.candidate_stake
    &&& w.claimable_rewards == v.claimable_rewards
    &&& w.storage_version == v.storage_version
}

/// Freezing release requests again touches neither the stakes, the rewards nor the version.
proof fn lemma_requests_keep_core(v: StoreView, who: AccountId, reqs: Seq<ReleaseRequest>, now: BlockNumber)
    ensures
        core_kept(v, requests_refrozen(v, who, reqs, now).0),
    decreases reqs.len(),
{
    if reqs.len() > 0 {
        lemma_requests_keep_core(v, who, reqs.drop_last(), now);
    }
}

/// Migrating release queues touches neither the stakes, the rewards nor the version.
proof fn lemma_queues_keep_core(v: StoreView, es: Seq<crate::migration::QueueView>)
    ensures
        core_kept(v, queues_outcome(v, es).0),
    decreases es.len(),
{
    if es.len() > 0 {
        lemma_queues_keep_core(v, es.drop_last());
        let r = queues_outcome(v, es.drop_last());
        let e = es.last();
        let v0 = r.0.with_freeze(crate::types::FreezeReason::Releasing, e.staker, 0);
        lemma_requests_keep_core(v0, e.staker, e.requests, r.0.block_number);
        assert(core_kept(r.0, queue_outcome(r.0, e).0));
    }
}

/// Migrating bonds touches neither the stakes, the rewards nor the version.
proof fn lemma_bonds_keep_core(v: StoreView, cs: Seq<AccountId>)
    ensures
        core_kept(v, bonds_migrated(v, cs)),
    decreases cs.len(),
{
    if cs.len() > 0 {
        lemma_bonds_keep_core(v, cs.drop_last());
    }
}

/// Migrating bond releases touches neither the stakes, the rewards nor the version.
proof fn lemma_bond_releases_keep_core(v: StoreView, es: Seq<crate::migration::BondReleaseEntry>)
    ensures
        core_kept(v, bond_releases_outcome(v, es).0),
    decreases es.len(),
{
    if es.len() > 0 {
        lemma_bond_releases_keep_core(v, es.drop_last());
    }
}

/// What a stage after the stakes ends in, `r`, starting from `v`: the stakes are as in `v`;
/// the stage is not the stake stage; once nothing is left the version is 2 and the rewards
/// are reset; otherwise the version is that of `v`, and the rewards are reset when only the
/// version is left.
pub open spec fn tail_ok(v: StoreView, r: (StoreView, crate::weight::WeightMeter, MigrationSteps)) -> bool {
    &&& r.0.candidate_stake == v.candidate_stake
    &&& !(r.2 is MigrateStake)
    &&& r.2 == MigrationSteps::Noop ==> r.0.storage_version == 2 && r.0.claimable_rewards == 0
    &&& r.2 != MigrationSteps::Noop ==> r.0.storage_version == v.storage_version
    &&& r.2 == MigrationSteps::ChangeStorageVersion ==> r.0.claimable_rewards == 0
}

/// Setting the version, once the rewards are reset.
proof fn lemma_tail_set_version(v: StoreView, meter: crate::weight::WeightMeter)
    requires
        v.claimable_rewards == 0,
    ensures
        tail_ok(v, spec_set_storage_version(v, meter)),
{
}

/// Resetting the rewards, and what follows.
proof fn lemma_tail_reset(v: StoreView, meter: crate::weight::WeightMeter)
    ensures
        tail_ok(v, spec_reset_rewards(v, meter)),
{
    if meter.spec_can_consume(v.weights.db_write) {
        lemma_tail_set_version(
            StoreView { claimable_rewards: 0, ..v },
            meter.spec_consume(v.weights.db_write),
        );
    }
}

/// Migrating bond releases, and what follows.
proof fn lemma_tail_bond_releases(v: StoreView, meter: crate::weight::WeightMeter, cursor: Option<AccountId>)
    ensures
        tail_ok(v, spec_migrate_candidacy_bond_releases(v, meter, cursor)),
{
    let s = v.bond_releases;
    let p = crate::migration::start_of(crate::migration::ranks(s), crate::migration::account_cursor(cursor));
    let r = crate::migration::spend(meter, v.weights.candidacy_bond_release, (s.len() - p) as nat);
    lemma_bond_releases_keep_core(v, s.subrange(p, p + r.0 as int));
    let b = bond_release_batch(v, meter, cursor);
    lemma_tail_reset(b.0, b.1);
}

/// Migrating bonds, and what follows.
proof fn lemma_tail_bonds(v: StoreView, meter: crate::weight::WeightMeter, cursor: Option<AccountId>)
    ensures
        tail_ok(v, spec_migrate_candidacy_bond(v, meter, cursor)),
{
    let s = v.candidates;
    let p = crate::migration::start_of(crate::migration::ranks(s), crate::migration::account_cursor(cursor));
    let r = crate::migration::spend(meter, v.weights.candidacy_bond, (s.len() - p) as nat);
    lemma_bonds_keep_core(v, s.subrange(p, p + r.0 as int));
    let b = candidacy_bond_batch(v, meter, cursor);
    lemma_tail_bond_releases(b.0, b.1, None);
}

/// Migrating release queues, and what follows.
proof fn lemma_tail_queues(v: StoreView, meter: crate::weight::WeightMeter, cursor: Option<AccountId>)
    ensures
        tail_ok(v, spec_migrate_release_queue(v, meter, cursor)),
{
    let s = v.release_queues;
    let p = crate::migration::start_of(
        crate::migration::queue_ranks(s),
        crate::migration::account_cursor(cursor),
    );
    let required = v.weights.spec_release_queue(v.max_staked_candidates as u64);
    let r = crate::migration::spend_queues(meter, v.weights, required, s.subrange(p, s.len() as int));
    lemma_queues_keep_core(v, s.subrange(p, p + r.0 as int));
    let b = release_queue_batch(v, meter, cursor);
    lemma_tail_bonds(b.0, b.1, None);
}

/// Migrating auto-compounding preferences, and what follows.
proof fn lemma_tail_autocompound(v: StoreView, meter: crate::weight::WeightMeter, cursor: Option<AccountId>)
    ensures
        tail_ok(v, spec_migrate_autocompounding(v, meter, cursor)),
{
    let b = autocompound_batch(v, meter, cursor);
    lemma_tail_queues(b.0, b.1, None);
}

/// A stake in the layout of version 2.
pub open spec fn is_migrated(e: StakeEntry) -> bool {
    e.value is Migrated
}

/// Every stake of `v` is in the layout of version 2.
pub open spec fn all_migrated(v: StoreView) -> bool {
    forall|i: int| 0 <= i < v.candidate_stake.len() ==> is_migrated(#[trigger] v.candidate_stake[i])
}

/// Every stake of `v` up to the place `bound` in the order of the map is in the layout of
/// version 2.
pub open spec fn migrated_upto(v: StoreView, bound: int) -> bool {
    forall|i: int|
        0 <= i < v.candidate_stake.len() && pair_rank(v.candidate_stake[i].candidate, v.candidate_stake[i].staker)
            <= bound ==> is_migrated(#[trigger] v.candidate_stake[i])
}

/// `v` holds the stakes of `v0`, each in its place, with its candidate, staker and amount.
pub open spec fn stakes_kept(v0: StoreView, v: StoreView) -> bool {
    &&& v.candidate_stake.len() == v0.candidate_stake.len()
    &&& forall|i: int|
        0 <= i < v0.candidate_stake.len() ==> {
            &&& (#[trigger] v.candidate_stake[i]).candidate == v0.candidate_stake[i].candidate
            &&& v.candidate_stake[i].staker == v0.candidate_stake[i].staker
            &&& v.candidate_stake[i].value.amount() == v0.candidate_stake[i].value.amount()
        }
}

/// What the migration has done to the stakes and the rewards of `v` when `next` is the stage
/// it goes on with: nothing yet at the start of the stake stage; the stakes up to the cursor
/// within the stake stage; every stake in any later stage, and the rewards reset too when
/// only the version is left. The stage after the end never is the next one.
pub open spec fn progress(v: StoreView, next: Option<MigrationSteps>) -> bool {
    match next {
        None => true,
        Some(MigrationSteps::MigrateStake { cursor }) => match cursor {
            None => true,
            Some(c) => migrated_upto(v, pair_rank(c.0, c.1)),
        },
        Some(MigrationSteps::Noop) => false,
        Some(MigrationSteps::ChangeStorageVersion) => all_migrated(v) && v.claimable_rewards == 0,
        Some(_) => all_migrated(v),
    }
}

/// The state of a migration run from `v0`: `v` is the store and `next` the cursor handed to
/// the next step. The stakes of `v0` are kept in place with their amounts, and their order;
/// at version 1 the run has progressed as `progress` says, and at version 2 it is over, with
/// every stake migrated and the rewards reset.
pub open spec fn migration_run(v0: StoreView, v: StoreView, next: Option<MigrationSteps>) -> bool {
    &&& stakes_kept(v0, v)
    &&& ascending(stake_ranks(v.candidate_stake))
    &&& v.storage_version == 1 ==> progress(v, next)
    &&& v.storage_version == 2 ==> next is None && all_migrated(v) && v.claimable_rewards == 0
    &&& v.storage_version == 1 || v.storage_version == 2
}

/// How a walk spends a meter: it handles no more entries than there are, all of them when it
/// reaches the end, and at least one when it does not reach the end but could afford a first
/// entry.
proof fn lemma_spend_facts(meter: WeightMeter, w: Weight, n: nat)
    ensures
        spend(meter, w, n).0 <= n,
        spend(meter, w, n).1 ==> spend(meter, w, n).0 == n,
        meter.spec_can_consume(w) && !spend(meter, w, n).1 ==> spend(meter, w, n).0 >= 1,
    decreases n,
{
    if meter.spec_can_consume(w) && n > 0 {
        lemma_spend_facts(meter.spec_consume(w), w, (n - 1) as nat);
    }
}

/// The stake stage, and what follows it.
proof fn lemma_stake_stage(v: StoreView, meter: WeightMeter, cursor: Option<(AccountId, AccountId)>)
    requires
        ascending(stake_ranks(v.candidate_stake)),
        v.storage_version == 1,
        match cursor {
            Some(c) => migrated_upto(v, pair_rank(c.0, c.1)),
            None => meter.spec_can_consume(v.weights.stake_step),
        },
    ensures
        ({
            let r = spec_migrate_stake(v, meter, cursor);
            &&& stakes_kept(v, r.0)
            &&& ascending(stake_ranks(r.0.candidate_stake))
            &&& r.2 == MigrationSteps::Noop ==> r.0.storage_version == 2 && all_migrated(r.0)
                && r.0.claimable_rewards == 0
            &&& r.2 != MigrationSteps::Noop ==> r.0.storage_version == 1 && progress(r.0, Some(r.2))
        }),
{
    let s = v.candidate_stake;
    let keys = stake_ranks(s);
    let pc = pair_cursor(cursor);
    lemma_start_exists(keys, pc);
    let p = start_of(keys, pc);
    let n = (s.len() - p) as nat;
    let sp = spend(meter, v.weights.stake_step, n);
    lemma_spend_facts(meter, v.weights.stake_step, n);
    let k = sp.0 as int;
    let b = stake_batch(v, meter, cursor);
    let s2 = b.0.candidate_stake;
    assert(stake_ranks(s2) =~= keys);
    assert forall|i: int| 0 <= i < s.len() && i < p implies is_migrated(#[trigger] s2[i]) by {
        assert(keys[i] <= pc->0);
        assert(s2[i] == s[i]);
    }
    if b.2 is None {
        assert(sp.1);
        assert(all_migrated(b.0));
        lemma_tail_autocompound(b.0, b.1, None);
    } else {
        let c2 = b.2->0;
        assert forall|i: int|
            0 <= i < s2.len() && pair_rank(s2[i].candidate, s2[i].staker) <= pair_rank(c2.0, c2.1) implies is_migrated(
            #[trigger] s2[i],
        ) by {
            assert(keys[i] == pair_rank(s2[i].candidate, s2[i].staker));
            if k > 0 {
                assert(keys[p + k - 1] == pair_rank(c2.0, c2.1));
                if i > p + k - 1 {
                    assert(keys[p + k - 1] < keys[i]);
                }
            } else {
                assert(s2[i] == s[i]);
            }
        }
    }
}

/// A run of the migration starts at version 1, from the store itself, with no cursor.
pub proof fn law_migration_run_starts(v0: StoreView)
    requires
        v0.storage_version == 1,
        ascending(stake_ranks(v0.candidate_stake)),
    ensures
        migration_run(v0, v0, None),
{
}

/// Each step of a run of the migration keeps it a run: the stakes of the first store stay in
/// place with their amounts, those up to the cursor are migrated, all of them once the stake
/// stage is over, and the rewards are reset before the version becomes 2. This holds when a
/// step that starts the stake stage (with no cursor) can afford to migrate one stake; a step
/// that cannot goes on to the next stages with no stake migrated.
pub proof fn law_migration_run_step(v0: StoreView, v: StoreView, meter: WeightMeter, next: Option<MigrationSteps>)
    requires
        migration_run(v0, v, next),
        v.storage_version == 1 && (next is None || next == Some(MigrationSteps::MigrateStake { cursor: None }))
            ==> meter.spec_can_consume(v.weights.stake_step),
    ensures
        migration_run(v0, spec_step(v, meter, next).0, spec_step(v, meter, next).2),
{
    if v.storage_version == 1 {
        let c = match next {
            Some(c) => c,
            None => MigrationSteps::MigrateStake { cursor: None },
        };
        let r = spec_run_stage(v, meter, c);
        match c {
            MigrationSteps::MigrateStake { cursor } => {
                lemma_stake_stage(v, meter, cursor);
            },
            MigrationSteps::MigrateAutocompounding { cursor } => {
                lemma_tail_autocompound(v, meter, cursor);
            },
            MigrationSteps::MigrateReleaseQueue { cursor } => {
                lemma_tail_queues(v, meter, cursor);
            },
            MigrationSteps::MigrateCandidacyBond { cursor } => {
                lemma_tail_bonds(v, meter, cursor);
            },
            MigrationSteps::MigrateCandidacyBondReleases { cursor } => {
                lemma_tail_bond_releases(v, meter, cursor);
            },
            MigrationSteps::ResetClaimableRewards => {
                lemma_tail_reset(v, meter);
            },
            MigrationSteps::ChangeStorageVersion => {
                lemma_tail_set_version(v, meter);
            },
            MigrationSteps::Noop => {},
        }
        assert(stake_ranks(r.0.candidate_stake) =~= stake_ranks(v.candidate_stake)) by {
            assert(stakes_kept(v, r.0));
        }
    }
}

/// No check fails on any element of a list when it fails on none.
proof fn lemma_no_first_failure<T>(s: Seq<T>, check: spec_fn(T) -> Option<PostUpgradeError>)
    requires
        forall|i: int| 0 <= i < s.len() ==> (#[trigger] check(s[i])) is None,
    ensures
        first_failure(s, check) is None,
    decreases s.len(),
{
    if s.len() > 0 {
        assert forall|i: int| 0 <= i < s.drop_last().len() implies (#[trigger] check(s.drop_last()[i])) is None by {
            assert(s.drop_last()[i] == s[i]);
        }
        lemma_no_first_failure(s.drop_last(), check);
        assert(check(s[s.len() - 1]) is None);
    }
}

/// A first failure is the failure of some element.
proof fn lemma_first_failure_of_element<T>(s: Seq<T>, check: spec_fn(T) -> Option<PostUpgradeError>)
    ensures
        first_failure(s, check) is Some ==> exists|i: int| 0 <= i < s.len() && first_failure(s, check) == check(s[i]),
    decreases s.len(),
{
    if s.len() > 0 {
        lemma_first_failure_of_element(s.drop_last(), check);
        if first_failure(s.drop_last(), check) is Some {
            let i = choose|i: int|
                0 <= i < s.drop_last().len() && first_failure(s.drop_last(), check) == check(s.drop_last()[i]);
            assert(s.drop_last()[i] == s[i]);
        } else {
            assert(first_failure(s, check) == check(s[s.len() - 1]));
        }
    }
}

/// None of the errors that the stake, version and reward checks report.
pub open spec fn not_a_stake_error(e: Option<PostUpgradeError>) -> bool {
    &&& e != Some(PostUpgradeError::StorageVersion)
    &&& e != Some(PostUpgradeError::StakeCount)
    &&& e != Some(PostUpgradeError::StakeChanged)
    &&& e != Some(PostUpgradeError::CheckpointNotZero)
    &&& e != Some(PostUpgradeError::RewardsNotReset)
}

/// Once a run of the migration is over, the check after the upgrade finds neither a wrong
/// version, nor a changed number of stakes, nor a changed stake, nor a stake in the old
/// layout, nor rewards left unreset, against the snapshot taken before the run.
pub proof fn law_completed_run_passes_stake_checks(prev: PreUpgradeState, v0: StoreView, v: StoreView)
    requires
        migration_run(v0, v, None),
        v.storage_version == 2,
        prev.candidate_stakes@ == v0.candidate_stake,
    ensures
        prev.post_upgrade_error(v) != Some(PostUpgradeError::StorageVersion),
        prev.post_upgrade_error(v) != Some(PostUpgradeError::StakeCount),
        prev.post_upgrade_error(v) != Some(PostUpgradeError::StakeChanged),
        prev.post_upgrade_error(v) != Some(PostUpgradeError::CheckpointNotZero),
        prev.post_upgrade_error(v) != Some(PostUpgradeError::RewardsNotReset),
{
    let s0 = v0.candidate_stake;
    let s = v.candidate_stake;
    let check = stake_check(v);
    assert forall|i: int| 0 <= i < s0.len() implies (#[trigger] check(s0[i])) is None by {
        let e = s0[i];
        assert(s[i].candidate == e.candidate && s[i].staker == e.staker);
        let j = choose|j: int| 0 <= j < s.len() && s[j].candidate == e.candidate && s[j].staker == e.staker;
        assert(stake_ranks(s)[j] == stake_ranks(s)[i]);
        if j < i {
            assert(stake_ranks(s)[j] < stake_ranks(s)[i]);
        } else if j > i {
            assert(stake_ranks(s)[i] < stake_ranks(s)[j]);
        }
        assert(stake_record(s, e.candidate, e.staker) == Some(s[i].value));
        assert(is_migrated(s[i]));
    }
    lemma_no_first_failure(s0, check);
    let rv = prev.release_views();
    lemma_first_failure_of_element(rv, release_check(v));
    if first_failure(rv, release_check(v)) is Some {
        let i = choose|i: int| 0 <= i < rv.len() && first_failure(rv, release_check(v)) == release_check(v)(rv[i]);
        assert(not_a_stake_error(release_check(v)(rv[i])));
    }
    lemma_first_failure_of_element(prev.bonds@, bond_check(v));
    if first_failure(prev.bonds@, bond_check(v)) is Some {
        let i = choose|i: int|
            0 <= i < prev.bonds@.len() && first_failure(prev.bonds@, bond_check(v)) == bond_check(v)(prev.bonds@[i]);
        assert(not_a_stake_error(bond_check(v)(prev.bonds@[i])));
    }
    lemma_first_failure_of_element(prev.bond_releases@, bond_release_check(v));
    if first_failure(prev.bond_releases@, bond_release_check(v)) is Some {
        let i = choose|i: int|
            0 <= i < prev.bond_releases@.len() && first_failure(prev.bond_releases@, bond_release_check(v))
                == bond_release_check(v)(prev.bond_releases@[i]);
        assert(not_a_stake_error(bond_release_check(v)(prev.bond_releases@[i])));
    }
    lemma_first_failure_of_element(prev.autocompound@, autocompound_check(v));
    if first_failure(prev.autocompound@, autocompound_check(v)) is Some {
        let i = choose|i: int|
            0 <= i < prev.autocompound@.len() && first_failure(prev.autocompound@, autocompound_check(v))
                == autocompound_check(v)(prev.autocompound@[i]);
        assert(not_a_stake_error(autocompound_check(v)(prev.autocompound@[i])));
    }
}

} // verus!
