//! Scenarios of the storage migration from version 1 to version 2.

use std::collections::HashMap;

use collator_staking::arith::Percent;
use collator_staking::ledger::Ledger;
use collator_staking::migration::{
    AutoCompoundEntry, BondRelease, BondReleaseEntry, LazyMigrationV1ToV2, LockedBalance,
    MigrationSteps, MigrationStore, MigrationWeights, QueueEntry, StakeEntry, StakeValue,
};
use collator_staking::migration_check::PostUpgradeError;
use collator_staking::types::{FreezeReason, ReleaseRequest};
use collator_staking::weight::{Weight, WeightMeter};

const MIN_BALANCE: u64 = 5;

fn unit() -> Weight {
    Weight { ref_time: 1, proof_size: 1 }
}

fn weights() -> MigrationWeights {
    MigrationWeights {
        stake_step: unit(),
        autocompound_step: unit(),
        release_queue_base: unit(),
        release_queue_per_request: unit(),
        candidacy_bond: unit(),
        candidacy_bond_release: unit(),
        db_write: unit(),
    }
}

fn empty_store(block_number: u64) -> MigrationStore {
    MigrationStore {
        storage_version: 1,
        block_number,
        max_staked_candidates: 16,
        weights: weights(),
        candidate_stake: Vec::new(),
        auto_compound: Vec::new(),
        auto_compound_settings: HashMap::new(),
        release_queues: Vec::new(),
        candidates: Vec::new(),
        bond_releases: Vec::new(),
        locked_balances: HashMap::new(),
        claimable_rewards: 0,
        ledger: Ledger::new(MIN_BALANCE),
    }
}

/// Runs the migration a step per block, each block allowing `limit`, until it is complete;
/// returns the number of blocks it took.
fn run_migration(store: &mut MigrationStore, limit: Weight) -> u64 {
    let mut cursor: Option<MigrationSteps> = None;
    let mut blocks = 0;
    loop {
        blocks += 1;
        let mut meter = WeightMeter::with_limit(limit);
        let next = LazyMigrationV1ToV2::step(store, cursor, &mut meter);
        // No step takes its meter past the limit.
        assert!(meter.consumed.ref_time <= limit.ref_time && meter.consumed.proof_size <= limit.proof_size);
        assert_eq!(meter.limit, limit);
        match next {
            None => return blocks,
            Some(c) => cursor = Some(c),
        }
        assert!(blocks < 100_000, "the migration does not end");
    }
}

fn locked(store: &MigrationStore, who: u64) -> LockedBalance {
    store.get_locked(who)
}

fn stake_of(store: &MigrationStore, candidate: u64, staker: u64) -> Option<StakeValue> {
    store
        .candidate_stake
        .iter()
        .find(|e| e.candidate == candidate && e.staker == staker)
        .map(|e| e.value)
}

fn queue_len(store: &MigrationStore, who: u64) -> usize {
    store.release_queues.iter().find(|q| q.staker == who).map(|q| q.requests.len()).unwrap_or(0)
}

#[test]
fn migration_of_single_element_should_work() {
    let len: u64 = 16;
    let mut store = empty_store(2);
    store.ledger.mint_into(1, 100);
    assert_eq!(store.storage_version, 1);
    store.claimable_rewards = 100;
    store.candidates.push(1);
    let bond: u64 = 10;
    store.ledger.set_freeze(FreezeReason::CandidacyBond, 1, bond);

    store.candidate_stake.push(StakeEntry {
        candidate: 1,
        staker: 1,
        value: StakeValue::Old { session: 10, stake: 50 },
    });
    store.auto_compound.push(AutoCompoundEntry { staker: 1, percentage: Percent::from_parts(100) });
    let mut requests = vec![];
    for _ in 0..len {
        requests.push(ReleaseRequest { block: 1000, amount: MIN_BALANCE });
    }
    store.release_queues.push(QueueEntry { staker: 1, requests });
    let total_release_balance = len * MIN_BALANCE + bond;
    store.ledger.set_freeze(FreezeReason::Releasing, 1, bond);
    store.bond_releases.push(BondReleaseEntry {
        candidate: 1,
        release: BondRelease { bond: 10, block: u64::MAX },
    });

    let before = LazyMigrationV1ToV2::pre_upgrade(&store);
    assert_eq!(store.claimable_rewards, 100);
    run_migration(&mut store, Weight { ref_time: 1_000, proof_size: 1_000 });

    assert_eq!(stake_of(&store, 1, 1), Some(StakeValue::Migrated { stake: 50 }));
    assert_eq!(store.auto_compound_settings.get(&1), Some(&true));
    assert_eq!(store.claimable_rewards, 0);
    assert_eq!(store.storage_version, 2);
    assert_eq!(queue_len(&store, 1), 16);
    assert_eq!(locked(&store, 1).releasing, total_release_balance);

    let old_release_lock = store.ledger.balance_frozen(FreezeReason::Releasing, 1);
    assert_eq!(old_release_lock, 0);
    assert_eq!(locked(&store, 1).candidacy_bond, bond);

    let old_candidacy_bond_lock = store.ledger.balance_frozen(FreezeReason::CandidacyBond, 1);
    assert_eq!(old_candidacy_bond_lock, 0);
    assert_eq!(locked(&store, 1).candidacy_bond, bond);

    assert_eq!(LazyMigrationV1ToV2::post_upgrade(&before, &store), Ok(()));
}

#[test]
fn migration_of_many_elements_should_work() {
    let len: u64 = 16;
    let bond: u64 = 10;
    let users: u64 = 1_000;
    let mut store = empty_store(1);
    assert_eq!(store.storage_version, 1);
    store.claimable_rewards = 100_000;

    for i in 1..=users {
        store.ledger.mint_into(i, 100_000);
        store.candidate_stake.push(StakeEntry {
            candidate: i,
            staker: i,
            value: StakeValue::Old { session: 10, stake: 50 },
        });
        store.auto_compound.push(AutoCompoundEntry { staker: i, percentage: Percent::from_parts(100) });
        let mut requests = vec![];
        for r in 0..len {
            let amount = MIN_BALANCE + r;
            requests.push(ReleaseRequest { block: u64::MAX, amount });
        }
        store.release_queues.push(QueueEntry { staker: i, requests });
        store.bond_releases.push(BondReleaseEntry {
            candidate: i,
            release: BondRelease { bond, block: u64::MAX },
        });
    }
    let total_release_balance = bond + len * MIN_BALANCE + len * (len - 1) / 2;

    let before = LazyMigrationV1ToV2::pre_upgrade(&store);
    let blocks = run_migration(&mut store, Weight { ref_time: 1_000, proof_size: 1_000 });
    assert!(blocks <= 200, "Migration should not take more than 200 blocks");

    for i in 1..=users {
        assert_eq!(stake_of(&store, i, i), Some(StakeValue::Migrated { stake: 50 }));
        assert_eq!(store.auto_compound_settings.get(&i), Some(&true));
        assert_eq!(queue_len(&store, i) as u64, len);
        assert_eq!(locked(&store, i).releasing, total_release_balance);

        let old_release_lock = store.ledger.balance_frozen(FreezeReason::Releasing, i);
        assert_eq!(old_release_lock, 0);

        let old_candidacy_bond_lock = store.ledger.balance_frozen(FreezeReason::CandidacyBond, i);
        assert_eq!(old_candidacy_bond_lock, 0);
    }
    assert_eq!(store.claimable_rewards, 0);
    assert_eq!(store.auto_compound_settings.values().filter(|v| **v).count() as u64, users);
    assert_eq!(store.storage_version, 2);
    assert_eq!(LazyMigrationV1ToV2::post_upgrade(&before, &store), Ok(()));
}

#[test]
fn step_does_nothing_on_migrated_storage() {
    let mut store = empty_store(1);
    store.storage_version = 2;
    store.claimable_rewards = 7;
    let mut meter = WeightMeter::with_limit(Weight { ref_time: 100, proof_size: 100 });
    assert_eq!(LazyMigrationV1ToV2::step(&mut store, None, &mut meter), None);
    assert_eq!(store.claimable_rewards, 7);
    assert_eq!(meter.consumed, Weight { ref_time: 0, proof_size: 0 });
}

#[test]
fn step_resumes_from_its_cursor() {
    let mut store = empty_store(1);
    for i in 1..=3 {
        store.candidate_stake.push(StakeEntry {
            candidate: i,
            staker: 10 + i,
            value: StakeValue::Old { session: 1, stake: i * 100 },
        });
    }
    // Room for two stakes only.
    let mut meter = WeightMeter::with_limit(Weight { ref_time: 2, proof_size: 2 });
    let next = LazyMigrationV1ToV2::step(&mut store, None, &mut meter);
    assert_eq!(next, Some(MigrationSteps::MigrateStake { cursor: Some((2, 12)) }));
    assert_eq!(stake_of(&store, 2, 12), Some(StakeValue::Migrated { stake: 200 }));
    assert_eq!(stake_of(&store, 3, 13), Some(StakeValue::Old { session: 1, stake: 300 }));
    assert_eq!(meter.consumed, Weight { ref_time: 2, proof_size: 2 });

    // The next block goes on from the cursor and, with room to spare, to the end.
    let mut meter = WeightMeter::with_limit(Weight { ref_time: 100, proof_size: 100 });
    let next = LazyMigrationV1ToV2::step(&mut store, next, &mut meter);
    assert_eq!(next, None);
    assert_eq!(stake_of(&store, 3, 13), Some(StakeValue::Migrated { stake: 300 }));
    assert_eq!(store.storage_version, 2);
}

#[test]
fn due_and_unfundable_releases_are_dropped() {
    let mut store = empty_store(50);
    store.ledger.mint_into(1, 30);
    store.ledger.set_freeze(FreezeReason::Releasing, 1, 30);
    store.release_queues.push(QueueEntry {
        staker: 1,
        requests: vec![
            ReleaseRequest { block: 10, amount: 5 },
            ReleaseRequest { block: 60, amount: 20 },
            ReleaseRequest { block: 70, amount: 20 },
        ],
    });
    run_migration(&mut store, Weight { ref_time: 1_000, proof_size: 1_000 });
    // The first request is due, the third cannot be frozen again once the second is.
    assert_eq!(store.release_queues.len(), 1);
    assert_eq!(store.release_queues[0].requests, vec![ReleaseRequest { block: 60, amount: 20 }]);
    assert_eq!(locked(&store, 1).releasing, 20);
    assert_eq!(store.ledger.balance_frozen(FreezeReason::Staking, 1), 20);
    assert_eq!(store.ledger.balance_frozen(FreezeReason::Releasing, 1), 0);
}

#[test]
fn post_upgrade_reports_unfinished_migration() {
    let mut store = empty_store(1);
    store.claimable_rewards = 5;
    let before = LazyMigrationV1ToV2::pre_upgrade(&store);
    assert_eq!(
        LazyMigrationV1ToV2::post_upgrade(&before, &store),
        Err(PostUpgradeError::StorageVersion)
    );
    store.storage_version = 2;
    assert_eq!(
        LazyMigrationV1ToV2::post_upgrade(&before, &store),
        Err(PostUpgradeError::RewardsNotReset)
    );
}

#[test]
fn post_upgrade_reports_changed_stake() {
    let mut store = empty_store(1);
    store.candidate_stake.push(StakeEntry {
        candidate: 1,
        staker: 2,
        value: StakeValue::Old { session: 1, stake: 40 },
    });
    let before = LazyMigrationV1ToV2::pre_upgrade(&store);
    run_migration(&mut store, Weight { ref_time: 1_000, proof_size: 1_000 });
    assert_eq!(LazyMigrationV1ToV2::post_upgrade(&before, &store), Ok(()));
    store.candidate_stake[0].value = StakeValue::Migrated { stake: 41 };
    assert_eq!(
        LazyMigrationV1ToV2::post_upgrade(&before, &store),
        Err(PostUpgradeError::StakeChanged)
    );
}
