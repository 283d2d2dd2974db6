//! Scenarios of the staking engine, run against a test runtime: twenty candidates and
//! twenty invulnerables at most, at least one eligible collator, a kick threshold of ten
//! blocks, sixteen staked candidates per staker and twenty-five stakers per candidate, a bond
//! delay of five blocks, a stake delay of two and a restake delay of ten, account 777 as the
//! update origin, an existential deposit of five, and accounts 1 to 5 endowed with 100.

use collator_staking::adapters::{IdentityCollator, StakingPotAccountId};
use collator_staking::arith::Percent;
use collator_staking::config::Config;
use collator_staking::genesis::{GenesisConfig, GenesisError};
use collator_staking::pallet::Pallet;
use collator_staking::types::{
    AccountId, CandidacyBondRelease, CandidacyBondReleaseReason, CandidateInfo, DispatchError, Error, Event, FreezeReason,
    KeyStatus, Origin, PendingRestake, ReleaseRequest, TokenError, UpdateOrigin, UserStakeInfo,
};

const ROOT: AccountId = 777;

fn root() -> Origin {
    Origin::Signed(ROOT)
}

fn signed(who: AccountId) -> Origin {
    Origin::Signed(who)
}

fn test_config() -> Config {
    Config {
        max_candidates: 20,
        min_eligible_collators: 1,
        max_invulnerables: 20,
        kick_threshold: 10,
        max_staked_candidates: 16,
        max_stakers: 25,
        bond_unlock_delay: 5,
        stake_unlock_delay: 2,
        restake_unlock_delay: 10,
        pot_id: *b"PotStake",
        extra_reward_pot_id: *b"PotExtra",
        extra_reward_receiver: Some(40),
        update_origin: UpdateOrigin::Account(ROOT),
    }
}

/// What the session keys registry says of an account: accounts 1000 to 1999 have no
/// collator id, account 42 has not registered its keys, every other account has.
fn keys(who: AccountId) -> KeyStatus {
    if (1000..2000).contains(&who) {
        KeyStatus::NoCollatorId
    } else if who == 42 {
        KeyStatus::NotRegistered
    } else {
        KeyStatus::Registered
    }
}

fn new_test_ext() -> Pallet {
    let genesis = GenesisConfig {
        invulnerables: vec![2, 1],
        candidacy_bond: 10,
        min_stake: 2,
        desired_candidates: 2,
        collator_reward_percentage: Percent::from_parts(20),
        extra_reward: 0,
    };
    let mut p = genesis.build(test_config(), 5);
    for who in 1..=5 {
        p.ledger.mint_into(who, 100);
    }
    p
}

/// Runs the blocks after the current one up to `n`: a session of ten blocks ends at each
/// tenth block (the next one starts, and the collators of the one after are chosen, which
/// kicks stale candidates), then the engine's hook runs and account 4 authors the block.
fn initialize_to_block(p: &mut Pallet, n: u64) {
    for i in p.block_number + 1..=n {
        p.set_block_number(i);
        if i % 10 == 0 {
            let ending = p.current_session;
            p.end_session(ending);
            p.start_session(ending + 1);
            let _ = p.new_session(ending + 2);
        }
        p.on_initialize();
        p.note_author(4);
    }
}

/// Locks all the free balance of each account from `from` to `to` for staking.
fn lock_for_staking(p: &mut Pallet, from: AccountId, to: AccountId) {
    for ii in from..=to {
        let balance = p.get_free_balance(ii);
        assert_eq!(p.lock(signed(ii), balance), Ok(()));
        let total = p.get_staked_balance(ii);
        assert_eq!(p.events.last(), Some(&Event::LockExtended { total }));
    }
}

fn user(p: &Pallet, who: AccountId) -> UserStakeInfo {
    p.user_stake_info(who)
}

fn pending(amount: u64, block: u64) -> Option<PendingRestake> {
    Some(PendingRestake { amount, block })
}

/// The candidates with their information, by increasing stake (ties by account).
fn sorted_candidates(p: &Pallet) -> Vec<(AccountId, CandidateInfo)> {
    let mut v = candidate_list(p);
    v.sort_by_key(|(a, info)| (info.stake, *a));
    v
}

fn fund_account(p: &mut Pallet, who: AccountId) {
    p.ledger.mint_into(who, 100);
}

fn register_candidates(p: &mut Pallet, from: AccountId, to: AccountId) {
    for ii in from..=to {
        if ii > 5 {
            fund_account(p, ii);
        }
        let bond = p.min_candidacy_bond;
        assert_eq!(p.register_as_candidate(signed(ii), bond, keys(ii)), Ok(()));
        assert_eq!(
            p.events.last(),
            Some(&Event::CandidateAdded { account_id: ii, deposit: bond })
        );
    }
}

fn candidate_count(p: &Pallet) -> usize {
    p.candidates.len()
}

fn candidate_list(p: &Pallet) -> Vec<(AccountId, CandidateInfo)> {
    p.candidates.iter().map(|c| (c.account, c.info)).collect()
}

fn balance_frozen(p: &Pallet, reason: FreezeReason, who: AccountId) -> u64 {
    p.ledger.balance_frozen(reason, who)
}

fn stake_on(p: &Pallet, candidate: AccountId, staker: AccountId) -> u64 {
    p.candidates
        .iter()
        .chain(p.retained.iter())
        .find(|c| c.account == candidate)
        .and_then(|c| c.stakes.iter().find(|s| s.staker == staker))
        .map(|s| s.info.stake)
        .unwrap_or(0)
}

fn release_queue(p: &Pallet, who: AccountId) -> Vec<ReleaseRequest> {
    p.release_queues.get(&who).cloned().unwrap_or_default()
}

fn module(e: Error) -> DispatchError {
    DispatchError::Module(e)
}

#[test]
fn identify_collator_should_work() {
    assert_eq!(IdentityCollator::convert(4), Some(4));
}

#[test]
fn staking_pot_should_work() {
    let p = new_test_ext();
    assert_eq!(StakingPotAccountId::get(&p), p.account_id());
}

#[test]
fn try_state_with_initial_setup_should_work() {
    let p = new_test_ext();
    assert_eq!(p.do_try_state(), Ok(()));
}

#[test]
fn it_should_set_invulnerables() {
    let mut p = new_test_ext();
    initialize_to_block(&mut p, 1);
    let new_set = vec![1, 4, 3, 2];
    let new_keys: Vec<KeyStatus> = new_set.iter().map(|w| keys(*w)).collect();
    assert_eq!(p.set_invulnerables(root(), new_set.clone(), new_keys.clone()), Ok(()));
    assert_eq!(
        p.events.last(),
        Some(&Event::NewInvulnerables { invulnerables: vec![1, 2, 3, 4] })
    );
    assert_eq!(p.invulnerables, vec![1, 2, 3, 4]);

    // cannot set with non-root.
    assert_eq!(
        p.set_invulnerables(signed(1), new_set, new_keys),
        Err(DispatchError::BadOrigin)
    );
}

#[test]
fn cannot_empty_invulnerables_if_not_enough_candidates() {
    let mut p = new_test_ext();
    initialize_to_block(&mut p, 1);
    assert_eq!(
        p.set_invulnerables(root(), vec![], vec![]),
        Err(module(Error::TooFewEligibleCollators))
    );
}

#[test]
fn it_should_set_invulnerables_even_with_some_invalid() {
    let mut p = new_test_ext();
    initialize_to_block(&mut p, 1);
    assert_eq!(p.invulnerables, vec![1, 2]);
    let new_with_invalid = vec![1, 4, 3, 42, 2, 1000];
    let new_keys: Vec<KeyStatus> = new_with_invalid.iter().map(|w| keys(*w)).collect();
    assert_eq!(p.set_invulnerables(root(), new_with_invalid, new_keys), Ok(()));
    assert!(p.events.contains(&Event::InvalidInvulnerableSkipped { account_id: 42 }));
    assert_eq!(
        p.events.last(),
        Some(&Event::NewInvulnerables { invulnerables: vec![1, 2, 3, 4] })
    );
    // should succeed and order them, but not include 42
    assert_eq!(p.invulnerables, vec![1, 2, 3, 4]);
}

#[test]
fn should_not_allow_to_set_invulnerables_if_already_candidates() {
    let mut p = new_test_ext();
    initialize_to_block(&mut p, 1);
    assert_eq!(candidate_count(&p), 0);
    register_candidates(&mut p, 3, 4);
    assert_eq!(balance_frozen(&p, FreezeReason::CandidacyBond, 3), 10);
    assert_eq!(balance_frozen(&p, FreezeReason::CandidacyBond, 4), 10);
    let new_set = vec![1, 2, 3];
    let new_keys: Vec<KeyStatus> = new_set.iter().map(|w| keys(*w)).collect();
    assert_eq!(
        p.set_invulnerables(root(), new_set, new_keys),
        Err(module(Error::AlreadyCandidate))
    );
}

#[test]
fn set_desired_candidates_works() {
    let mut p = new_test_ext();
    initialize_to_block(&mut p, 1);

    // given
    assert_eq!(p.desired_candidates, 2);

    // can set
    assert_eq!(p.set_desired_candidates(root(), 4), Ok(()));
    assert_eq!(p.events.last(), Some(&Event::NewDesiredCandidates { desired_candidates: 4 }));
    assert_eq!(p.desired_candidates, 4);

    // rejects bad origin
    assert_eq!(p.set_desired_candidates(signed(1), 2), Err(DispatchError::BadOrigin));
    // rejects too many
    assert_eq!(
        p.set_desired_candidates(root(), 50),
        Err(module(Error::TooManyDesiredCandidates))
    );
}

#[test]
fn add_invulnerable_works() {
    let mut p = new_test_ext();
    initialize_to_block(&mut p, 1);
    assert_eq!(p.invulnerables, vec![1, 2]);
    let new = 3;

    // function runs
    assert_eq!(p.add_invulnerable(root(), new, keys(new)), Ok(()));
    assert_eq!(p.events.last(), Some(&Event::InvulnerableAdded { account_id: new }));

    // same element cannot be added more than once
    assert_eq!(
        p.add_invulnerable(root(), new, keys(new)),
        Err(module(Error::AlreadyInvulnerable))
    );

    // new element is now part of the invulnerables list
    assert!(p.invulnerables.contains(&new));

    // cannot add with non-root
    assert_eq!(p.add_invulnerable(signed(1), new, keys(new)), Err(DispatchError::BadOrigin));

    // cannot add invulnerable without associated validator keys
    let not_validator = 42;
    assert_eq!(
        p.add_invulnerable(root(), not_validator, keys(not_validator)),
        Err(module(Error::CollatorNotRegistered))
    );
}

#[test]
fn invulnerable_limit_works() {
    let mut p = new_test_ext();
    initialize_to_block(&mut p, 1);
    assert_eq!(p.invulnerables, vec![1, 2]);

    // MaxInvulnerables: u32 = 20
    for ii in 3..=21 {
        if ii > 5 {
            fund_account(&mut p, ii);
        }
        assert_eq!(p.ledger.balance(ii), 100);
        if ii < 21 {
            assert_eq!(p.add_invulnerable(root(), ii, keys(ii)), Ok(()));
            assert_eq!(p.events.last(), Some(&Event::InvulnerableAdded { account_id: ii }));
        } else {
            assert_eq!(
                p.add_invulnerable(root(), ii, keys(ii)),
                Err(module(Error::TooManyInvulnerables))
            );
        }
    }
    let expected: Vec<u64> = (1..=20).collect();
    assert_eq!(p.invulnerables, expected);

    // Cannot set too many Invulnerables
    let too_many_invulnerables: Vec<u64> = (1..=21).collect();
    let too_many_keys: Vec<KeyStatus> = too_many_invulnerables.iter().map(|w| keys(*w)).collect();
    assert_eq!(
        p.set_invulnerables(root(), too_many_invulnerables, too_many_keys),
        Err(module(Error::TooManyInvulnerables))
    );
    assert_eq!(p.invulnerables, expected);
}

#[test]
fn remove_invulnerable_works() {
    let mut p = new_test_ext();
    initialize_to_block(&mut p, 1);
    assert_eq!(p.invulnerables, vec![1, 2]);

    assert_eq!(p.add_invulnerable(root(), 4, keys(4)), Ok(()));
    assert_eq!(p.events.last(), Some(&Event::InvulnerableAdded { account_id: 4 }));
    assert_eq!(p.add_invulnerable(root(), 3, keys(3)), Ok(()));
    assert_eq!(p.events.last(), Some(&Event::InvulnerableAdded { account_id: 3 }));

    assert_eq!(p.invulnerables, vec![1, 2, 3, 4]);

    assert_eq!(p.remove_invulnerable(root(), 2), Ok(()));
    assert_eq!(p.events.last(), Some(&Event::InvulnerableRemoved { account_id: 2 }));
    assert_eq!(p.invulnerables, vec![1, 3, 4]);

    // cannot remove invulnerable not in the list
    assert_eq!(p.remove_invulnerable(root(), 2), Err(module(Error::NotInvulnerable)));

    // cannot remove without privilege
    assert_eq!(p.remove_invulnerable(signed(1), 3), Err(DispatchError::BadOrigin));
}

#[test]
fn set_candidacy_bond_empty_candidate_list() {
    let mut p = new_test_ext();
    initialize_to_block(&mut p, 1);

    // given
    assert_eq!(p.min_candidacy_bond, 10);
    assert_eq!(candidate_count(&p), 0);

    // can decrease without candidates
    assert_eq!(p.set_min_candidacy_bond(root(), 7), Ok(()));
    assert_eq!(p.events.last(), Some(&Event::NewMinCandidacyBond { bond_amount: 7 }));
    assert_eq!(p.min_candidacy_bond, 7);
    assert_eq!(candidate_count(&p), 0);

    // rejects bad origin.
    assert_eq!(p.set_min_candidacy_bond(signed(1), 8), Err(DispatchError::BadOrigin));

    // can increase without candidates
    assert_eq!(p.set_min_candidacy_bond(root(), 20), Ok(()));
    assert_eq!(p.events.last(), Some(&Event::NewMinCandidacyBond { bond_amount: 20 }));
    assert_eq!(candidate_count(&p), 0);
    assert_eq!(p.min_candidacy_bond, 20);
}

#[test]
fn cannot_register_as_candidate_if_invulnerable() {
    let mut p = new_test_ext();
    initialize_to_block(&mut p, 1);

    // given
    assert_eq!(p.invulnerables, vec![1, 2]);

    // can't 1 because it is invulnerable.
    let bond = p.min_candidacy_bond;
    assert_eq!(
        p.register_as_candidate(signed(1), bond, keys(1)),
        Err(module(Error::AlreadyInvulnerable))
    );
}

#[test]
fn cannot_register_as_candidate_if_bond_too_low() {
    let mut p = new_test_ext();
    initialize_to_block(&mut p, 1);
    assert_eq!(
        p.register_as_candidate(signed(3), 1, keys(3)),
        Err(module(Error::InvalidCandidacyBond))
    );
}

#[test]
fn cannot_register_as_candidate_if_keys_not_registered() {
    let mut p = new_test_ext();
    initialize_to_block(&mut p, 1);

    // can't 42 because keys not registered.
    let bond = p.min_candidacy_bond;
    assert_eq!(
        p.register_as_candidate(signed(42), bond, keys(42)),
        Err(module(Error::CollatorNotRegistered))
    );
}

#[test]
fn cannot_register_dupe_candidate() {
    let mut p = new_test_ext();
    initialize_to_block(&mut p, 1);

    // can add 3 as candidate
    register_candidates(&mut p, 3, 3);
    let addition = CandidateInfo { stake: 0, stakers: 0 };
    assert_eq!(candidate_list(&p), vec![(3, addition)]);
    assert_eq!(p.last_authored_block.get(&3), Some(&11));
    assert_eq!(balance_frozen(&p, FreezeReason::CandidacyBond, 3), 10);
    assert_eq!(stake_on(&p, 3, 3), 0);

    // but no more
    let bond = p.min_candidacy_bond;
    assert_eq!(
        p.register_as_candidate(signed(3), bond, keys(3)),
        Err(module(Error::AlreadyCandidate))
    );
}

#[test]
fn cannot_register_as_candidate_if_poor() {
    let mut p = new_test_ext();
    initialize_to_block(&mut p, 1);
    assert_eq!(p.ledger.balance(3), 100);
    assert_eq!(p.ledger.balance(33), 0);

    // works
    register_candidates(&mut p, 3, 3);

    // poor
    let bond = p.min_candidacy_bond;
    assert_eq!(
        p.register_as_candidate(signed(33), bond, keys(33)),
        Err(module(Error::InsufficientFreeBalance))
    );
}

#[test]
fn register_as_candidate_works() {
    let mut p = new_test_ext();
    initialize_to_block(&mut p, 1);

    // given
    assert_eq!(p.desired_candidates, 2);
    assert_eq!(p.min_candidacy_bond, 10);
    assert_eq!(candidate_count(&p), 0);
    assert_eq!(p.invulnerables, vec![1, 2]);

    // take two endowed, non-invulnerables accounts.
    assert_eq!(p.ledger.balance(3), 100);
    assert_eq!(stake_on(&p, 3, 3), 0);
    assert_eq!(p.ledger.balance(4), 100);
    assert_eq!(stake_on(&p, 4, 4), 0);

    register_candidates(&mut p, 3, 4);

    assert_eq!(balance_frozen(&p, FreezeReason::CandidacyBond, 3), 10);
    assert_eq!(stake_on(&p, 3, 3), 0);
    assert_eq!(balance_frozen(&p, FreezeReason::CandidacyBond, 4), 10);
    assert_eq!(stake_on(&p, 4, 4), 0);

    assert_eq!(candidate_count(&p), 2);
}

#[test]
fn cannot_unregister_candidate_if_too_few() {
    let mut p = new_test_ext();
    initialize_to_block(&mut p, 1);

    assert_eq!(candidate_count(&p), 0);
    assert_eq!(p.invulnerables, vec![1, 2]);
    assert_eq!(p.remove_invulnerable(root(), 1), Ok(()));
    assert_eq!(p.events.last(), Some(&Event::InvulnerableRemoved { account_id: 1 }));
    assert_eq!(p.remove_invulnerable(root(), 2), Err(module(Error::TooFewEligibleCollators)));

    // reset desired candidates:
    p.desired_candidates = 1;
    register_candidates(&mut p, 4, 4);

    // now we can remove `2`
    assert_eq!(p.remove_invulnerable(root(), 2), Ok(()));
    assert_eq!(p.events.last(), Some(&Event::InvulnerableRemoved { account_id: 2 }));

    // can not remove too few
    assert_eq!(p.leave_intent(signed(4)), Err(module(Error::TooFewEligibleCollators)));
}

#[test]
fn lock() {
    let mut p = new_test_ext();
    initialize_to_block(&mut p, 1);

    assert_eq!(p.ledger.balance(5), 100);
    assert_eq!(balance_frozen(&p, FreezeReason::Staking, 5), 0);
    assert_eq!(p.lock(signed(5), 60), Ok(()));
    assert_eq!(p.events.last(), Some(&Event::LockExtended { total: 60 }));
    assert_eq!(p.ledger.balance(5), 100);
    assert_eq!(balance_frozen(&p, FreezeReason::Staking, 5), 60);

    // we cannot lock over the balance
    assert_eq!(p.get_free_balance(5), 40);
    assert_eq!(p.lock(signed(5), 50), Err(module(Error::InsufficientFreeBalance)));
}

#[test]
fn lock_with_invalid_origin_should_fail() {
    let mut p = new_test_ext();
    initialize_to_block(&mut p, 1);
    assert_eq!(p.ledger.balance(5), 100);
    assert_eq!(balance_frozen(&p, FreezeReason::Staking, 5), 0);
    assert_eq!(p.lock(Origin::Root, 60), Err(DispatchError::BadOrigin));
}

#[test]
fn unlock_with_invalid_origin_should_fail() {
    let mut p = new_test_ext();
    initialize_to_block(&mut p, 1);

    assert_eq!(p.ledger.balance(5), 100);
    assert_eq!(balance_frozen(&p, FreezeReason::Staking, 5), 0);
    assert_eq!(p.lock(signed(5), 60), Ok(()));
    assert_eq!(p.events.last(), Some(&Event::LockExtended { total: 60 }));
    assert_eq!(p.ledger.balance(5), 100);
    assert_eq!(balance_frozen(&p, FreezeReason::Staking, 5), 60);
    assert_eq!(p.get_free_balance(5), 40);

    // Invalid Origin
    assert_eq!(p.unlock(Origin::Root, Some(10)), Err(DispatchError::BadOrigin));
}

#[test]
fn too_many_release_requests() {
    let mut p = new_test_ext();
    initialize_to_block(&mut p, 1);

    // Preconditions
    assert_eq!(p.config.max_staked_candidates, 16);

    // Lock tokens for account 5
    let free = p.get_free_balance(5);
    assert_eq!(p.lock(signed(5), free), Ok(()));
    assert_eq!(balance_frozen(&p, FreezeReason::Staking, 5), 100);

    // Try to create release requests up to the maximum allowed
    for i in 1..=16 {
        assert_eq!(p.unlock(signed(5), Some(1)), Ok(()));
        let expected_queue =
            (1..=i).map(|_| ReleaseRequest { block: 3, amount: 1 }).collect::<Vec<_>>();
        assert_eq!(p.release_queues.get(&5), Some(&expected_queue));
    }

    // Attempting one more release request should raise an error
    assert_eq!(p.unlock(signed(5), Some(1)), Err(module(Error::TooManyReleaseRequests)));

    // Ensure no additional request was added
    assert_eq!(p.release_queues.get(&5).map(|q| q.len()), Some(16));
}

#[test]
fn set_collator_reward_percentage() {
    let mut p = new_test_ext();
    initialize_to_block(&mut p, 1);

    assert_eq!(p.collator_reward_percentage, Percent::from_parts(20));

    // Invalid origin
    assert_eq!(
        p.set_collator_reward_percentage(signed(5), Percent::from_parts(50)),
        Err(DispatchError::BadOrigin)
    );
    assert_eq!(p.set_collator_reward_percentage(root(), Percent::from_parts(50)), Ok(()));
    assert_eq!(
        p.events.last(),
        Some(&Event::CollatorRewardPercentageSet { percentage: Percent::from_parts(50) })
    );
    assert_eq!(p.collator_reward_percentage, Percent::from_parts(50));
}

#[test]
fn set_extra_reward() {
    let mut p = new_test_ext();
    initialize_to_block(&mut p, 1);

    assert_eq!(p.extra_reward, 0);

    // Invalid origin
    assert_eq!(p.set_extra_reward(signed(5), 10), Err(DispatchError::BadOrigin));

    // Set the reward
    assert_eq!(p.set_extra_reward(root(), 10), Ok(()));
    assert_eq!(p.events.last(), Some(&Event::ExtraRewardSet { amount: 10 }));
    assert_eq!(p.extra_reward, 10);

    // Cannot set to zero
    assert_eq!(p.set_extra_reward(root(), 0), Err(module(Error::InvalidExtraReward)));

    // Revert the changes
    assert_eq!(p.stop_extra_reward(root()), Ok(()));
    assert_eq!(
        p.events.last(),
        Some(&Event::ExtraRewardRemoved { amount_left: 0, receiver: Some(40) })
    );
    assert_eq!(p.extra_reward, 0);
}

#[test]
fn set_minimum_stake() {
    let mut p = new_test_ext();
    initialize_to_block(&mut p, 1);

    assert_eq!(p.min_stake, 2);

    // Invalid origin
    assert_eq!(p.set_minimum_stake(signed(5), 5), Err(DispatchError::BadOrigin));

    // Set the reward over CandidacyBond
    assert_eq!(p.set_minimum_stake(root(), 1000), Err(module(Error::InvalidMinStake)));

    // Zero is a valid value
    assert_eq!(p.set_minimum_stake(root(), 0), Ok(()));
    assert_eq!(p.events.last(), Some(&Event::NewMinStake { min_stake: 0 }));
    assert_eq!(p.min_stake, 0);

    // Maximum is CandidacyBond
    assert_eq!(p.min_candidacy_bond, 10);
    assert_eq!(p.set_minimum_stake(root(), 10), Ok(()));
    assert_eq!(p.events.last(), Some(&Event::NewMinStake { min_stake: 10 }));
    assert_eq!(p.min_stake, 10);
}

#[test]
fn top_up_extra_rewards() {
    let mut p = new_test_ext();
    initialize_to_block(&mut p, 1);

    let pot = p.extra_reward_account_id();
    assert_eq!(p.ledger.balance(pot), 0);

    // Cannot fund with an amount equal to zero.
    assert_eq!(p.top_up_extra_rewards(signed(1), 0), Err(module(Error::InvalidFundingAmount)));

    // Cannot fund if total balance less than ED.
    assert_eq!(
        p.top_up_extra_rewards(signed(1), 1),
        Err(DispatchError::Token(TokenError::BelowMinimum))
    );

    // Now we can top it up.
    assert_eq!(p.top_up_extra_rewards(signed(1), 10), Ok(()));
    assert_eq!(p.events.last(), Some(&Event::ExtraRewardPotFunded { pot, amount: 10 }));
    assert_eq!(p.ledger.balance(pot), 10);
}

#[test]
fn top_up_extra_rewards_with_wrong_origin_should_not_work() {
    let mut p = new_test_ext();
    initialize_to_block(&mut p, 1);
    let pot = p.extra_reward_account_id();
    assert_eq!(p.ledger.balance(pot), 0);

    // Invalid Origin
    assert_eq!(p.top_up_extra_rewards(Origin::Root, 10), Err(DispatchError::BadOrigin));
}

#[test]
fn update_candidacy_bond_with_invalid_origin_should_fail() {
    let mut p = new_test_ext();
    initialize_to_block(&mut p, 1);

    register_candidates(&mut p, 3, 3);
    assert_eq!(balance_frozen(&p, FreezeReason::CandidacyBond, 3), 10);

    // Invalid Origin
    assert_eq!(p.update_candidacy_bond(Origin::Root, 5), Err(DispatchError::BadOrigin));
}

#[test]
fn basic_setup_works() {
    let mut p = new_test_ext();
    initialize_to_block(&mut p, 1);

    assert_eq!(p.config.max_invulnerables, 20);
    assert_eq!(p.config.max_candidates, 20);
    assert_eq!(p.config.min_eligible_collators, 1);
    assert_eq!(p.config.kick_threshold, 10);
    assert_eq!(p.config.max_staked_candidates, 16);
    assert_eq!(p.config.bond_unlock_delay, 5);
    assert_eq!(p.config.stake_unlock_delay, 2);
    assert_eq!(p.config.max_stakers, 25);

    assert_eq!(p.desired_candidates, 2);
    assert_eq!(p.min_candidacy_bond, 10);
    assert_eq!(p.min_stake, 2);
    assert_eq!(candidate_count(&p), 0);
    assert_eq!(p.collator_reward_percentage, Percent::from_parts(20));
    // The minimum balance should not have been minted
    assert_eq!(p.ledger.balance(p.account_id()), 0);
    // genesis should sort input
    assert_eq!(p.invulnerables, vec![1, 2]);
    assert_eq!(p.do_try_state(), Ok(()));
}

#[test]
fn fees_edgecases() {
    let mut p = new_test_ext();
    initialize_to_block(&mut p, 1);

    let pot = p.account_id();
    p.ledger.mint_into(pot, p.ledger.existential_deposit);

    // Nothing panics, no reward when no ED in balance
    p.note_author(4);
    // 4 is the default author.
    assert_eq!(p.ledger.balance(4), 100);
    register_candidates(&mut p, 4, 4);
    // triggers `note_author`
    p.note_author(4);

    let collator = CandidateInfo { stake: 0, stakers: 0 };

    assert_eq!(candidate_list(&p), vec![(4, collator)]);
    assert_eq!(p.last_authored_block.get(&4), Some(&1));
    // Nothing received
    assert_eq!(balance_frozen(&p, FreezeReason::CandidacyBond, 4), 10);
    // all fee stays
    assert_eq!(p.ledger.balance(pot), 5);
}

#[test]
fn claim_with_empty_list() {
    let mut p = new_test_ext();
    initialize_to_block(&mut p, 1);

    assert_eq!(p.events, vec![]);
    assert_eq!(p.release_queues.get(&5), None);
    assert_eq!(p.claim(signed(5)), Ok(()));
    assert_eq!(p.events, vec![]);
    assert_eq!(p.release_queues.get(&5), None);
}

#[test]
fn it_should_not_allow_duplicated_invulnerables() {
    let mut p = new_test_ext();
    initialize_to_block(&mut p, 1);
    assert_eq!(p.invulnerables, vec![1, 2]);
    let new_with_duplicated: Vec<AccountId> = vec![1, 1, 2, 4, 3, 2];
    let k = new_with_duplicated.iter().map(|a| keys(*a)).collect();
    assert_eq!(
        p.set_invulnerables(root(), new_with_duplicated, k),
        Err(module(Error::DuplicatedInvulnerables))
    );
    assert_eq!(p.invulnerables, vec![1, 2]);
}

#[test]
fn it_should_not_allow_too_many_invalid_invulnerables() {
    let mut p = new_test_ext();
    initialize_to_block(&mut p, 1);
    assert_eq!(p.invulnerables, vec![1, 2]);
    let new_with_many_invalid: Vec<AccountId> = vec![1000, 1001, 1002, 1003, 1004, 1005, 1006];
    let k = new_with_many_invalid.iter().map(|a| keys(*a)).collect();
    let events = p.events.len();
    assert_eq!(
        p.set_invulnerables(root(), new_with_many_invalid, k),
        Err(module(Error::TooFewEligibleCollators))
    );
    assert_eq!(p.invulnerables, vec![1, 2]);
    assert_eq!(p.events.len(), events);
}

#[test]
fn cannot_set_desired_candidates_if_under_min_collator_limit() {
    let mut p = new_test_ext();
    initialize_to_block(&mut p, 1);
    assert_eq!(p.desired_candidates, 2);
    assert_eq!(p.config.min_eligible_collators, 1);
    register_candidates(&mut p, 3, 3);
    assert_eq!(p.set_invulnerables(root(), vec![], vec![]), Ok(()));
    assert_eq!(
        p.set_desired_candidates(root(), 0),
        Err(module(Error::TooFewEligibleCollators))
    );
}

#[test]
fn candidate_to_invulnerable_should_fail() {
    let mut p = new_test_ext();
    initialize_to_block(&mut p, 1);
    assert_eq!(p.desired_candidates, 2);
    assert_eq!(p.min_candidacy_bond, 10);
    assert_eq!(candidate_count(&p), 0);
    assert_eq!(p.invulnerables, vec![1, 2]);
    assert_eq!(p.ledger.balance(3), 100);
    assert_eq!(p.ledger.balance(4), 100);
    register_candidates(&mut p, 3, 4);
    assert_eq!(stake_on(&p, 3, 3), 0);
    assert_eq!(balance_frozen(&p, FreezeReason::CandidacyBond, 3), 10);
    assert_eq!(stake_on(&p, 4, 4), 0);
    assert_eq!(balance_frozen(&p, FreezeReason::CandidacyBond, 4), 10);
    lock_for_staking(&mut p, 3, 5);
    assert_eq!(p.stake(signed(5), 3, 10), Ok(()));
    assert_eq!(p.stake(signed(3), 3, 10), Ok(()));
    assert_eq!(p.stake(signed(4), 4, 10), Ok(()));
    assert_eq!(
        p.add_invulnerable(root(), 3, keys(3)),
        Err(module(Error::AlreadyCandidate))
    );
}

#[test]
fn set_candidacy_bond_with_one_candidate() {
    let mut p = new_test_ext();
    initialize_to_block(&mut p, 1);
    assert_eq!(p.min_candidacy_bond, 10);
    assert_eq!(candidate_count(&p), 0);
    let candidate_3 = CandidateInfo { stake: 0, stakers: 0 };
    register_candidates(&mut p, 3, 3);
    assert_eq!(sorted_candidates(&p), vec![(3, candidate_3)]);
    assert_eq!(stake_on(&p, 3, 3), 0);

    // can decrease with one candidate
    assert_eq!(p.set_min_candidacy_bond(root(), 7), Ok(()));
    assert_eq!(p.events.last(), Some(&Event::NewMinCandidacyBond { bond_amount: 7 }));
    assert_eq!(p.min_candidacy_bond, 7);
    initialize_to_block(&mut p, 10);
    assert_eq!(sorted_candidates(&p), vec![(3, candidate_3)]);

    // can increase up to initial deposit
    assert_eq!(p.set_min_candidacy_bond(root(), 10), Ok(()));
    assert_eq!(p.events.last(), Some(&Event::NewMinCandidacyBond { bond_amount: 10 }));
    assert_eq!(p.min_candidacy_bond, 10);
    initialize_to_block(&mut p, 20);
    assert_eq!(sorted_candidates(&p), vec![(3, candidate_3)]);

    // can increase past initial deposit, kicking candidates under the new value
    assert_eq!(p.set_min_candidacy_bond(root(), 20), Ok(()));
    assert_eq!(p.events.last(), Some(&Event::NewMinCandidacyBond { bond_amount: 20 }));
    assert_eq!(p.min_candidacy_bond, 20);
    initialize_to_block(&mut p, 30);
    assert_eq!(sorted_candidates(&p), vec![]);
}

#[test]
fn set_candidacy_bond_with_many_candidates_same_deposit() {
    let mut p = new_test_ext();
    initialize_to_block(&mut p, 1);
    assert_eq!(p.min_candidacy_bond, 10);
    assert_eq!(candidate_count(&p), 0);
    let candidate_3 = CandidateInfo { stake: 0, stakers: 0 };
    let candidate_4 = CandidateInfo { stake: 0, stakers: 0 };
    let candidate_5 = CandidateInfo { stake: 0, stakers: 0 };
    register_candidates(&mut p, 3, 5);
    assert_eq!(sorted_candidates(&p), vec![(3, candidate_3), (4, candidate_4), (5, candidate_5)]);

    // can decrease with multiple candidates
    assert_eq!(p.set_min_candidacy_bond(root(), 2), Ok(()));
    assert_eq!(p.events.last(), Some(&Event::NewMinCandidacyBond { bond_amount: 2 }));
    assert_eq!(p.min_candidacy_bond, 2);
    p.kick_stale_candidates();
    assert_eq!(sorted_candidates(&p), vec![(3, candidate_3), (4, candidate_4), (5, candidate_5)]);

    // can increase up to initial deposit
    assert_eq!(p.set_min_candidacy_bond(root(), 10), Ok(()));
    assert_eq!(p.events.last(), Some(&Event::NewMinCandidacyBond { bond_amount: 10 }));
    assert_eq!(p.min_candidacy_bond, 10);
    p.kick_stale_candidates();
    assert_eq!(sorted_candidates(&p), vec![(3, candidate_3), (4, candidate_4), (5, candidate_5)]);

    // can increase past initial deposit
    assert_eq!(p.set_min_candidacy_bond(root(), 20), Ok(()));
    assert_eq!(p.events.last(), Some(&Event::NewMinCandidacyBond { bond_amount: 20 }));
    assert_eq!(p.min_candidacy_bond, 20);
    assert_eq!(p.update_candidacy_bond(signed(5), 20), Ok(()));
    assert_eq!(
        p.events.last(),
        Some(&Event::CandidacyBondUpdated { candidate: 5, new_bond: 20 })
    );
    assert_eq!(p.kick_stale_candidates(), 1);
    assert_eq!(sorted_candidates(&p), vec![(5, candidate_5)]);
    assert!(p.events.contains(&Event::CandidateRemoved { account_id: 3 }));
    assert!(p.events.contains(&Event::CandidateRemoved { account_id: 4 }));
}

#[test]
fn cannot_register_candidate_if_too_many() {
    let mut p = new_test_ext();
    initialize_to_block(&mut p, 1);
    assert_eq!(p.config.max_candidates, 20);
    for acc in 3..=22 {
        if acc > 5 {
            fund_account(&mut p, acc);
        }
        let bond = if acc > 3 { 20 } else { 10 };
        assert_eq!(p.register_as_candidate(signed(acc), bond, keys(acc)), Ok(()));
    }
    assert_eq!(candidate_count(&p), 20);
    fund_account(&mut p, 23);
    assert_eq!(p.register_as_candidate(signed(23), 11, keys(23)), Ok(()));
    assert!(p.get_candidate(23).is_ok());
    // Account 3 had only 10 as candidacy bond, not 20 like the rest.
    assert!(p.get_candidate(3).is_err());
    // No candidate has a bond below 11 any more.
    fund_account(&mut p, 24);
    assert_eq!(
        p.register_as_candidate(signed(24), 11, keys(24)),
        Err(module(Error::TooManyCandidates))
    );
}

#[test]
fn register_as_candidate_counts_old_stake_when_rejoining() {
    let mut p = new_test_ext();
    initialize_to_block(&mut p, 1);
    assert_eq!(p.desired_candidates, 2);
    assert_eq!(p.min_candidacy_bond, 10);
    assert_eq!(candidate_count(&p), 0);
    assert_eq!(p.invulnerables, vec![1, 2]);

    // register the first time
    assert_eq!(p.ledger.balance(3), 100);
    assert_eq!(stake_on(&p, 3, 3), 0);
    register_candidates(&mut p, 3, 3);
    assert_eq!(balance_frozen(&p, FreezeReason::CandidacyBond, 3), 10);
    assert_eq!(stake_on(&p, 3, 3), 0);
    assert_eq!(candidate_count(&p), 1);
    assert_eq!(p.get_candidate(3), Ok(CandidateInfo { stake: 0, stakers: 0 }));

    // another user adds stake
    fund_account(&mut p, 4);
    assert_eq!(p.lock(signed(4), 60), Ok(()));
    assert_eq!(p.events.last(), Some(&Event::LockExtended { total: 60 }));
    assert_eq!(p.stake(signed(4), 3, 60), Ok(()));
    assert_eq!(stake_on(&p, 3, 4), 60);
    assert_eq!(p.get_candidate(3), Ok(CandidateInfo { stake: 60, stakers: 1 }));

    // the candidate leaves
    assert_eq!(p.leave_intent(signed(3)), Ok(()));
    assert_eq!(p.retained[0].info, CandidateInfo { stake: 60, stakers: 1 });
    // the stake remains the same
    assert_eq!(stake_on(&p, 3, 4), 60);
    assert_eq!(candidate_count(&p), 0);

    // and finally rejoins and the stake should remain
    let bond = p.min_candidacy_bond;
    assert_eq!(p.register_as_candidate(signed(3), bond, keys(3)), Ok(()));
    assert_eq!(stake_on(&p, 3, 4), 60);
    assert_eq!(candidate_count(&p), 1);
    assert_eq!(p.get_candidate(3), Ok(CandidateInfo { stake: 60, stakers: 1 }));
    assert!(p.retained.is_empty());
}

#[test]
fn register_leave_register_leave_again() {
    let mut p = new_test_ext();
    initialize_to_block(&mut p, 1);
    assert_eq!(p.ledger.balance(3), 100);
    assert_eq!(stake_on(&p, 3, 3), 0);
    register_candidates(&mut p, 3, 3);
    assert_eq!(balance_frozen(&p, FreezeReason::CandidacyBond, 3), 10);
    assert_eq!(candidate_count(&p), 1);
    assert_eq!(p.get_candidate(3), Ok(CandidateInfo { stake: 0, stakers: 0 }));
    assert_eq!(p.get_bond(3), 10);
    assert_eq!(p.bond_releases.get(&3), None);

    // First leave
    assert_eq!(p.leave_intent(signed(3)), Ok(()));
    assert_eq!(p.get_releasing_balance(3), 10);
    assert_eq!(p.get_bond(3), 0);
    assert_eq!(p.bond_releases.get(&3), Some(&CandidacyBondRelease { bond: 10, block: 6, reason: CandidacyBondReleaseReason::Left }));

    // Re-register
    let bond = p.min_candidacy_bond;
    assert_eq!(p.register_as_candidate(signed(3), bond, keys(3)), Ok(()));
    assert_eq!(p.get_releasing_balance(3), 10);
    assert_eq!(p.get_bond(3), 10);
    assert_eq!(p.bond_releases.get(&3), Some(&CandidacyBondRelease { bond: 10, block: 6, reason: CandidacyBondReleaseReason::Left }));

    // Second leave. The bond should accumulate.
    assert_eq!(p.leave_intent(signed(3)), Ok(()));
    assert_eq!(p.get_releasing_balance(3), 20);
    assert_eq!(p.get_bond(3), 0);
    assert_eq!(p.bond_releases.get(&3), Some(&CandidacyBondRelease { bond: 20, block: 6, reason: CandidacyBondReleaseReason::Left }));
}

#[test]
fn leave_intent() {
    let mut p = new_test_ext();
    initialize_to_block(&mut p, 1);
    register_candidates(&mut p, 3, 3);
    assert_eq!(balance_frozen(&p, FreezeReason::CandidacyBond, 3), 10);
    assert_eq!(stake_on(&p, 3, 3), 0);
    register_candidates(&mut p, 5, 5);
    assert_eq!(balance_frozen(&p, FreezeReason::CandidacyBond, 5), 10);
    assert_eq!(stake_on(&p, 5, 5), 0);

    // cannot leave if not candidate.
    assert_eq!(p.leave_intent(signed(4)), Err(module(Error::NotCandidate)));

    assert_eq!(release_queue(&p, 3), vec![]);
    assert_eq!(balance_frozen(&p, FreezeReason::CandidacyBond, 3), 10);
    assert_eq!(p.bond_releases.get(&3), None);
    assert_eq!(p.leave_intent(signed(3)), Ok(()));
    assert_eq!(p.bond_releases.get(&3), Some(&CandidacyBondRelease { bond: 10, block: 6, reason: CandidacyBondReleaseReason::Left }));
    assert_eq!(balance_frozen(&p, FreezeReason::CandidacyBond, 3), 0);
    assert_eq!(balance_frozen(&p, FreezeReason::Releasing, 3), 10);
    assert_eq!(stake_on(&p, 3, 3), 0);
    assert_eq!(p.last_authored_block.get(&3), None);
    assert_eq!(p.retained[0].info, CandidateInfo { stake: 0, stakers: 0 });
    assert_eq!(p.events.last(), Some(&Event::CandidateRemoved { account_id: 3 }));
}

#[test]
fn leave_with_release_queue_full_should_work() {
    let mut p = new_test_ext();
    initialize_to_block(&mut p, 1);
    register_candidates(&mut p, 3, 3);
    assert_eq!(release_queue(&p, 3), vec![]);
    let release_queue_max_len = p.config.max_staked_candidates;
    let lock = (release_queue_max_len * 2) as u64;
    assert_eq!(p.lock(signed(3), lock), Ok(()));
    assert_eq!(p.events.last(), Some(&Event::LockExtended { total: lock }));
    for _ in 0..release_queue_max_len {
        assert_eq!(p.unlock(signed(3), Some(2)), Ok(()));
    }
    assert_eq!(release_queue(&p, 3).len() as u32, release_queue_max_len);
    assert_eq!(p.leave_intent(signed(3)), Ok(()));
}

#[test]
fn cannot_stake_if_not_candidate() {
    let mut p = new_test_ext();
    initialize_to_block(&mut p, 1);
    lock_for_staking(&mut p, 4, 4);
    // invulnerable
    assert_eq!(p.stake(signed(4), 1, 1), Err(module(Error::NotCandidate)));
    // not registered as candidate
    assert_eq!(p.stake(signed(4), 5, 15), Err(module(Error::NotCandidate)));
}

#[test]
fn cannot_stake_if_recently_unstaked() {
    let mut p = new_test_ext();
    initialize_to_block(&mut p, 1);
    register_candidates(&mut p, 3, 3);
    assert_eq!(p.lock(signed(3), 20), Ok(()));
    assert_eq!(p.events.last(), Some(&Event::LockExtended { total: 20 }));
    assert_eq!(p.stake(signed(3), 3, 20), Ok(()));
    assert_eq!(user(&p, 3), UserStakeInfo { count: 1, stake: 20, last_unstake: None });
    assert_eq!(p.unstake_from(signed(3), 3), Ok(()));
    assert_eq!(user(&p, 3), UserStakeInfo { count: 0, stake: 0, last_unstake: pending(20, 11) });
    assert_eq!(p.stake(signed(3), 3, 20), Err(module(Error::InsufficientLockedBalance)));

    // In the future we can stake again
    initialize_to_block(&mut p, 12);
    assert_eq!(p.stake(signed(3), 3, 20), Ok(()));
    assert_eq!(user(&p, 3), UserStakeInfo { count: 1, stake: 20, last_unstake: None });
}

#[test]
fn cannot_stake_if_under_minstake() {
    let mut p = new_test_ext();
    initialize_to_block(&mut p, 1);
    register_candidates(&mut p, 3, 3);
    lock_for_staking(&mut p, 4, 4);
    assert_eq!(p.stake(signed(4), 3, 1), Err(module(Error::InsufficientStake)));
    assert_eq!(p.stake(signed(4), 3, 2), Ok(()));
    assert_eq!(balance_frozen(&p, FreezeReason::Staking, 4), 100);
    assert_eq!(stake_on(&p, 3, 4), 2);

    // After adding MinStake it should work
    assert_eq!(p.stake(signed(4), 3, 1), Ok(()));
    assert_eq!(balance_frozen(&p, FreezeReason::Staking, 4), 100);
    assert_eq!(stake_on(&p, 3, 4), 3);
}

#[test]
fn stake() {
    let mut p = new_test_ext();
    initialize_to_block(&mut p, 1);
    register_candidates(&mut p, 3, 3);
    assert_eq!(balance_frozen(&p, FreezeReason::CandidacyBond, 3), 10);
    assert_eq!(balance_frozen(&p, FreezeReason::Staking, 3), 0);
    lock_for_staking(&mut p, 3, 3);
    assert_eq!(balance_frozen(&p, FreezeReason::CandidacyBond, 3), 10);
    assert_eq!(balance_frozen(&p, FreezeReason::Staking, 3), 90);
    assert_eq!(stake_on(&p, 3, 3), 0);
    assert_eq!(user(&p, 3), UserStakeInfo { count: 0, stake: 0, last_unstake: None });
    assert_eq!(p.candidates[0].info.stake, 0);

    assert_eq!(balance_frozen(&p, FreezeReason::Staking, 4), 0);
    assert_eq!(user(&p, 4), UserStakeInfo { count: 0, stake: 0, last_unstake: None });
    lock_for_staking(&mut p, 4, 4);
    assert_eq!(p.stake(signed(4), 3, 20), Ok(()));
    assert_eq!(balance_frozen(&p, FreezeReason::Staking, 4), 100);
    assert!(p.events.contains(&Event::StakeAdded { staker: 4, candidate: 3, amount: 20 }));
    assert_eq!(stake_on(&p, 3, 4), 20);
    assert_eq!(stake_on(&p, 3, 3), 0);
    assert_eq!(p.candidates[0].info.stake, 20);
    assert_eq!(user(&p, 4), UserStakeInfo { count: 1, stake: 20, last_unstake: None });
}

#[test]
fn cannot_stake_too_many_staked_candidates() {
    let mut p = new_test_ext();
    initialize_to_block(&mut p, 1);
    assert_eq!(p.config.max_staked_candidates, 16);
    register_candidates(&mut p, 3, 19);
    lock_for_staking(&mut p, 1, 1);
    for i in 3..=18 {
        assert_eq!(p.stake(signed(1), i, 2), Ok(()));
    }
    assert_eq!(user(&p, 1), UserStakeInfo { count: 16, stake: 32, last_unstake: None });
    assert_eq!(p.stake(signed(1), 19, 2), Err(module(Error::TooManyStakedCandidates)));
}

#[test]
fn cannot_stake_too_many_stakers() {
    let mut p = new_test_ext();
    initialize_to_block(&mut p, 1);
    assert_eq!(p.config.max_stakers, 25);
    register_candidates(&mut p, 3, 3);
    for i in 4..=28 {
        fund_account(&mut p, i);
        lock_for_staking(&mut p, i, i);
        assert_eq!(p.stake(signed(i), 3, 2), Ok(()));
    }
    assert_eq!(candidate_list(&p)[0].1.stakers, 25);
    fund_account(&mut p, 29);
    lock_for_staking(&mut p, 29, 29);
    assert_eq!(p.stake(signed(29), 3, 2), Err(module(Error::TooManyStakers)));
}

#[test]
fn cannot_stake_invulnerable() {
    let mut p = new_test_ext();
    initialize_to_block(&mut p, 1);
    lock_for_staking(&mut p, 3, 3);
    assert_eq!(p.stake(signed(3), 1, 2), Err(module(Error::NotCandidate)));
}

#[test]
fn lock_stake_unstake_unlock_and_stake_again() {
    let mut p = new_test_ext();
    initialize_to_block(&mut p, 1);
    assert_eq!(p.lock(signed(5), 30), Ok(()));
    assert_eq!(p.get_staked_balance(5), 30);
    assert_eq!(p.events.last(), Some(&Event::LockExtended { total: 30 }));
    register_candidates(&mut p, 3, 3);

    assert_eq!(p.stake(signed(5), 3, 20), Ok(()));
    assert_eq!(sorted_candidates(&p), vec![(3, CandidateInfo { stake: 20, stakers: 1 })]);
    assert_eq!(p.get_staked_balance(5), 30);
    assert_eq!(user(&p, 5), UserStakeInfo { count: 1, stake: 20, last_unstake: None });

    assert_eq!(p.unstake_from(signed(5), 3), Ok(()));
    assert_eq!(sorted_candidates(&p), vec![(3, CandidateInfo { stake: 0, stakers: 0 })]);
    assert_eq!(p.get_staked_balance(5), 30);
    assert_eq!(user(&p, 5), UserStakeInfo { count: 0, stake: 0, last_unstake: pending(20, 11) });

    // Now we have a penalty of 20, and we staked 30. This implies we can now stake up to 10
    assert_eq!(p.stake(signed(5), 3, 11), Err(module(Error::InsufficientLockedBalance)));
    assert_eq!(p.stake(signed(5), 3, 10), Ok(()));
    assert_eq!(user(&p, 5), UserStakeInfo { count: 1, stake: 10, last_unstake: pending(20, 11) });

    // Unstake and unlock all balance
    assert_eq!(p.unstake_from(signed(5), 3), Ok(()));
    assert_eq!(user(&p, 5), UserStakeInfo { count: 0, stake: 0, last_unstake: pending(30, 11) });
    assert_eq!(p.unlock(signed(5), None), Ok(()));
    assert_eq!(p.get_staked_balance(5), 0);
    assert_eq!(user(&p, 5), UserStakeInfo { count: 0, stake: 0, last_unstake: None });

    // Lock and stake again after unlocking
    assert_eq!(p.lock(signed(5), 10), Ok(()));
    assert_eq!(p.get_staked_balance(5), 10);
    assert_eq!(p.events.last(), Some(&Event::LockExtended { total: 10 }));
    assert_eq!(p.stake(signed(5), 3, 10), Ok(()));
    assert_eq!(sorted_candidates(&p), vec![(3, CandidateInfo { stake: 10, stakers: 1 })]);
    assert_eq!(p.get_staked_balance(5), 10);
    assert_eq!(user(&p, 5), UserStakeInfo { count: 1, stake: 10, last_unstake: None });
}

#[test]
fn stake_in_one_then_unstake_in_another_and_fail_to_restake_in_original() {
    let mut p = new_test_ext();
    initialize_to_block(&mut p, 1);
    register_candidates(&mut p, 3, 4);
    assert_eq!(p.lock(signed(5), 30), Ok(()));
    assert_eq!(p.events.last(), Some(&Event::LockExtended { total: 30 }));
    assert_eq!(user(&p, 5), UserStakeInfo { count: 0, stake: 0, last_unstake: None });
    assert_eq!(p.stake(signed(5), 3, 20), Ok(()));
    assert_eq!(p.stake(signed(5), 4, 10), Ok(()));
    assert_eq!(
        sorted_candidates(&p),
        vec![(4, CandidateInfo { stake: 10, stakers: 1 }), (3, CandidateInfo { stake: 20, stakers: 1 })]
    );
    assert_eq!(p.unstake_from(signed(5), 4), Ok(()));
    assert_eq!(user(&p, 5), UserStakeInfo { count: 1, stake: 20, last_unstake: pending(10, 11) });
    let before = candidate_list(&p);
    assert_eq!(p.stake(signed(5), 3, 10), Err(module(Error::InsufficientLockedBalance)));
    assert_eq!(candidate_list(&p), before);
    assert_eq!(user(&p, 5), UserStakeInfo { count: 1, stake: 20, last_unstake: pending(10, 11) });
}

#[test]
fn stake_zero_amount_fails() {
    let mut p = new_test_ext();
    initialize_to_block(&mut p, 1);
    register_candidates(&mut p, 3, 3);
    assert_eq!(p.stake(signed(5), 3, 0), Err(module(Error::InsufficientStake)));
}

#[test]
fn unstake_from_nonexistent_candidate() {
    let mut p = new_test_ext();
    initialize_to_block(&mut p, 1);
    register_candidates(&mut p, 3, 4);
    lock_for_staking(&mut p, 5, 5);
    assert_eq!(p.stake(signed(5), 3, 30), Ok(()));
    assert_eq!(p.unstake_from(signed(5), 42), Err(module(Error::NotCandidate)));
    assert_eq!(p.unstake_from(signed(5), 4), Err(module(Error::NothingToUnstake)));
}

#[test]
fn stake_more_than_locked_balance_fails() {
    let mut p = new_test_ext();
    initialize_to_block(&mut p, 1);
    register_candidates(&mut p, 3, 4);
    lock_for_staking(&mut p, 5, 5);
    assert_eq!(p.stake(signed(5), 3, 110), Err(module(Error::InsufficientLockedBalance)));
}

#[test]
fn restaking_after_full_unstake() {
    let mut p = new_test_ext();
    initialize_to_block(&mut p, 1);
    register_candidates(&mut p, 3, 3);
    lock_for_staking(&mut p, 5, 5);
    assert_eq!(p.stake(signed(5), 3, 30), Ok(()));
    assert_eq!(p.unstake_from(signed(5), 3), Ok(()));
    assert_eq!(user(&p, 5), UserStakeInfo { count: 0, stake: 0, last_unstake: pending(30, 11) });
    assert_eq!(p.stake(signed(5), 3, 20), Ok(()));
    assert_eq!(sorted_candidates(&p), vec![(3, CandidateInfo { stake: 20, stakers: 1 })]);
    assert_eq!(user(&p, 5), UserStakeInfo { count: 1, stake: 20, last_unstake: pending(30, 11) });
}

#[test]
fn unstake_from_candidate() {
    let mut p = new_test_ext();
    initialize_to_block(&mut p, 1);
    register_candidates(&mut p, 3, 4);
    lock_for_staking(&mut p, 5, 5);
    assert_eq!(user(&p, 5), UserStakeInfo { count: 0, stake: 0, last_unstake: None });
    assert_eq!(p.stake(signed(5), 3, 20), Ok(()));
    assert_eq!(p.stake(signed(5), 4, 10), Ok(()));
    assert_eq!(
        sorted_candidates(&p),
        vec![(4, CandidateInfo { stake: 10, stakers: 1 }), (3, CandidateInfo { stake: 20, stakers: 1 })]
    );
    assert_eq!(balance_frozen(&p, FreezeReason::Staking, 5), 100);
    assert_eq!(user(&p, 5), UserStakeInfo { count: 2, stake: 30, last_unstake: None });
    assert_eq!(p.unstake_from(signed(5), 3), Ok(()));
    assert_eq!(p.events.last(), Some(&Event::StakeRemoved { staker: 5, candidate: 3, amount: 20 }));
    assert_eq!(
        sorted_candidates(&p),
        vec![(3, CandidateInfo { stake: 0, stakers: 0 }), (4, CandidateInfo { stake: 10, stakers: 1 })]
    );
    assert_eq!(user(&p, 5), UserStakeInfo { count: 1, stake: 10, last_unstake: pending(20, 11) });
    assert_eq!(stake_on(&p, 3, 5), 0);
    assert_eq!(stake_on(&p, 4, 5), 10);
    assert_eq!(balance_frozen(&p, FreezeReason::Staking, 5), 100);
    assert_eq!(release_queue(&p, 5), vec![]);
}

#[test]
fn unstake_self() {
    let mut p = new_test_ext();
    initialize_to_block(&mut p, 1);
    assert_eq!(user(&p, 3), UserStakeInfo { count: 0, stake: 0, last_unstake: None });
    assert_eq!(p.ledger.balance(3), 100);
    assert_eq!(p.min_candidacy_bond, 10);
    register_candidates(&mut p, 3, 4);
    assert_eq!(balance_frozen(&p, FreezeReason::CandidacyBond, 3), 10);
    lock_for_staking(&mut p, 3, 3);
    assert_eq!(user(&p, 3), UserStakeInfo { count: 0, stake: 0, last_unstake: None });
    assert_eq!(p.stake(signed(3), 3, 20), Ok(()));
    assert_eq!(balance_frozen(&p, FreezeReason::Staking, 3), 90);
    assert_eq!(user(&p, 3), UserStakeInfo { count: 1, stake: 20, last_unstake: None });
    assert_eq!(p.stake(signed(3), 4, 10), Ok(()));
    assert_eq!(balance_frozen(&p, FreezeReason::Staking, 3), 90);
    assert_eq!(user(&p, 3), UserStakeInfo { count: 2, stake: 30, last_unstake: None });
    assert_eq!(
        sorted_candidates(&p),
        vec![(4, CandidateInfo { stake: 10, stakers: 1 }), (3, CandidateInfo { stake: 20, stakers: 1 })]
    );
    assert_eq!(p.unstake_from(signed(3), 3), Ok(()));
    assert_eq!(p.events.last(), Some(&Event::StakeRemoved { staker: 3, candidate: 3, amount: 20 }));
    assert_eq!(
        sorted_candidates(&p),
        vec![(3, CandidateInfo { stake: 0, stakers: 0 }), (4, CandidateInfo { stake: 10, stakers: 1 })]
    );
    assert_eq!(user(&p, 3), UserStakeInfo { count: 1, stake: 10, last_unstake: pending(20, 11) });
    assert_eq!(stake_on(&p, 3, 3), 0);
    assert_eq!(stake_on(&p, 4, 3), 10);
    assert_eq!(balance_frozen(&p, FreezeReason::Staking, 3), 90);
    assert_eq!(balance_frozen(&p, FreezeReason::CandidacyBond, 3), 10);
    assert_eq!(release_queue(&p, 3), vec![]);
    assert_eq!(p.unstake_from(signed(3), 4), Ok(()));
    assert_eq!(release_queue(&p, 3), vec![]);
}

#[test]
fn unstake_from_ex_candidate() {
    let mut p = new_test_ext();
    initialize_to_block(&mut p, 1);
    register_candidates(&mut p, 3, 4);
    assert_eq!(user(&p, 5), UserStakeInfo { count: 0, stake: 0, last_unstake: None });
    lock_for_staking(&mut p, 5, 5);
    assert_eq!(p.stake(signed(5), 3, 20), Ok(()));
    assert_eq!(p.stake(signed(5), 4, 10), Ok(()));
    assert_eq!(
        sorted_candidates(&p),
        vec![(4, CandidateInfo { stake: 10, stakers: 1 }), (3, CandidateInfo { stake: 20, stakers: 1 })]
    );
    assert_eq!(stake_on(&p, 3, 5), 20);
    assert_eq!(stake_on(&p, 4, 5), 10);
    assert_eq!(user(&p, 5), UserStakeInfo { count: 2, stake: 30, last_unstake: None });
    assert_eq!(p.leave_intent(signed(3)), Ok(()));
    assert_eq!(sorted_candidates(&p), vec![(4, CandidateInfo { stake: 10, stakers: 1 })]);
    // the stake should be the same.
    assert_eq!(user(&p, 5), UserStakeInfo { count: 2, stake: 30, last_unstake: None });
    assert_eq!(balance_frozen(&p, FreezeReason::Staking, 5), 100);
    assert_eq!(p.unstake_from(signed(5), 3), Ok(()));
    // Unstaking from a former candidate can be staked again at once.
    assert_eq!(user(&p, 5), UserStakeInfo { count: 1, stake: 10, last_unstake: None });
}

#[test]
fn unstakes_accumulates_amount() {
    let mut p = new_test_ext();
    initialize_to_block(&mut p, 1);
    register_candidates(&mut p, 3, 3);
    lock_for_staking(&mut p, 5, 5);
    assert_eq!(user(&p, 5), UserStakeInfo { count: 0, stake: 0, last_unstake: None });
    assert_eq!(p.stake(signed(5), 3, 20), Ok(()));
    assert_eq!(user(&p, 5), UserStakeInfo { count: 1, stake: 20, last_unstake: None });
    assert_eq!(p.unstake_from(signed(5), 3), Ok(()));
    assert_eq!(user(&p, 5), UserStakeInfo { count: 0, stake: 0, last_unstake: pending(20, 11) });
    initialize_to_block(&mut p, 2);
    assert_eq!(p.stake(signed(5), 3, 20), Ok(()));
    assert_eq!(user(&p, 5), UserStakeInfo { count: 1, stake: 20, last_unstake: pending(20, 11) });
    assert_eq!(p.unstake_from(signed(5), 3), Ok(()));
    assert_eq!(user(&p, 5), UserStakeInfo { count: 0, stake: 0, last_unstake: pending(40, 12) });
}

#[test]
fn unstake_all() {
    let mut p = new_test_ext();
    initialize_to_block(&mut p, 1);
    register_candidates(&mut p, 3, 4);
    lock_for_staking(&mut p, 5, 5);
    assert_eq!(balance_frozen(&p, FreezeReason::Staking, 5), 100);
    assert_eq!(user(&p, 5), UserStakeInfo { count: 0, stake: 0, last_unstake: None });
    assert_eq!(p.stake(signed(5), 3, 20), Ok(()));
    assert_eq!(p.stake(signed(5), 4, 10), Ok(()));
    assert_eq!(
        sorted_candidates(&p),
        vec![(4, CandidateInfo { stake: 10, stakers: 1 }), (3, CandidateInfo { stake: 20, stakers: 1 })]
    );
    assert_eq!(user(&p, 5), UserStakeInfo { count: 2, stake: 30, last_unstake: None });
    assert_eq!(p.leave_intent(signed(3)), Ok(()));
    assert_eq!(sorted_candidates(&p), vec![(4, CandidateInfo { stake: 10, stakers: 1 })]);
    // the stake should be untouched.
    assert_eq!(user(&p, 5), UserStakeInfo { count: 2, stake: 30, last_unstake: None });
    assert_eq!(balance_frozen(&p, FreezeReason::Staking, 5), 100);
    assert_eq!(p.unstake_all(signed(5)), Ok(()));
    assert!(p.events.contains(&Event::StakeRemoved { staker: 5, candidate: 3, amount: 20 }));
    assert!(p.events.contains(&Event::StakeRemoved { staker: 5, candidate: 4, amount: 10 }));
    assert_eq!(release_queue(&p, 5), vec![]);
    assert_eq!(stake_on(&p, 3, 5), 0);
    assert_eq!(stake_on(&p, 4, 5), 0);
    // Candidate 3 left, so 20 immediately restakable.
    assert_eq!(user(&p, 5), UserStakeInfo { count: 0, stake: 0, last_unstake: pending(10, 11) });
    assert_eq!(balance_frozen(&p, FreezeReason::Staking, 5), 100);
    assert_eq!(sorted_candidates(&p), vec![(4, CandidateInfo { stake: 0, stakers: 0 })]);
}

#[test]
fn lock_zero_should_fail() {
    let mut p = new_test_ext();
    initialize_to_block(&mut p, 1);
    assert_eq!(p.lock(signed(5), 0), Err(module(Error::InvalidFundingAmount)));
}

#[test]
fn unlock() {
    let mut p = new_test_ext();
    initialize_to_block(&mut p, 1);
    assert_eq!(p.ledger.balance(5), 100);
    assert_eq!(balance_frozen(&p, FreezeReason::Staking, 5), 0);
    assert_eq!(p.lock(signed(5), 60), Ok(()));
    assert_eq!(p.events.last(), Some(&Event::LockExtended { total: 60 }));
    assert_eq!(p.ledger.balance(5), 100);
    assert_eq!(balance_frozen(&p, FreezeReason::Staking, 5), 60);
    assert_eq!(p.get_free_balance(5), 40);
    // we cannot unlock more funds than what we currently have
    assert_eq!(p.unlock(signed(5), Some(100)), Err(module(Error::CannotUnlock)));
    register_candidates(&mut p, 4, 4);
    assert_eq!(p.stake(signed(5), 4, 50), Ok(()));
    // we now only have 10 locked but not staked
    assert_eq!(p.unlock(signed(5), Some(20)), Err(module(Error::CannotUnlock)));
    assert_eq!(p.unlock(signed(5), None), Ok(()));
    assert_eq!(balance_frozen(&p, FreezeReason::Staking, 5), 50);
    assert_eq!(balance_frozen(&p, FreezeReason::Releasing, 5), 10);
}

#[test]
fn claim() {
    let mut p = new_test_ext();
    initialize_to_block(&mut p, 1);
    lock_for_staking(&mut p, 5, 5);
    assert_eq!(balance_frozen(&p, FreezeReason::Staking, 5), 100);
    assert_eq!(p.unlock(signed(5), Some(20)), Ok(()));
    assert_eq!(balance_frozen(&p, FreezeReason::Staking, 5), 80);
    assert_eq!(balance_frozen(&p, FreezeReason::Releasing, 5), 20);
    // No changes until delay passes
    assert_eq!(release_queue(&p, 5), vec![ReleaseRequest { block: 3, amount: 20 }]);
    assert_eq!(p.claim(signed(5)), Ok(()));
    assert_eq!(release_queue(&p, 5), vec![ReleaseRequest { block: 3, amount: 20 }]);
    initialize_to_block(&mut p, 3);
    assert_eq!(p.claim(signed(5)), Ok(()));
    assert_eq!(release_queue(&p, 5), vec![]);
    assert_eq!(p.events.last(), Some(&Event::StakeClaimed { staker: 5, amount: 20 }));
}

#[test]
fn lock_stake_unstake_unlock() {
    let mut p = new_test_ext();
    initialize_to_block(&mut p, 1);
    register_candidates(&mut p, 4, 4);
    assert_eq!(balance_frozen(&p, FreezeReason::Staking, 5), 0);
    assert_eq!(p.lock(signed(5), 20), Ok(()));
    assert_eq!(p.events.last(), Some(&Event::LockExtended { total: 20 }));
    assert_eq!(balance_frozen(&p, FreezeReason::Staking, 5), 20);
    assert_eq!(user(&p, 5), UserStakeInfo { count: 0, stake: 0, last_unstake: None });
    assert_eq!(p.stake(signed(5), 4, 20), Ok(()));
    assert_eq!(balance_frozen(&p, FreezeReason::Staking, 5), 20);
    assert_eq!(user(&p, 5), UserStakeInfo { count: 1, stake: 20, last_unstake: None });
    assert_eq!(p.unstake_from(signed(5), 4), Ok(()));
    assert_eq!(balance_frozen(&p, FreezeReason::Staking, 5), 20);
    assert_eq!(balance_frozen(&p, FreezeReason::Releasing, 5), 0);
    assert_eq!(user(&p, 5), UserStakeInfo { count: 0, stake: 0, last_unstake: pending(20, 11) });
    assert_eq!(p.unlock(signed(5), Some(10)), Ok(()));
    assert_eq!(balance_frozen(&p, FreezeReason::Staking, 5), 10);
    assert_eq!(balance_frozen(&p, FreezeReason::Releasing, 5), 10);
    assert_eq!(user(&p, 5), UserStakeInfo { count: 0, stake: 0, last_unstake: pending(10, 11) });
    assert_eq!(p.unlock(signed(5), Some(10)), Ok(()));
    assert_eq!(balance_frozen(&p, FreezeReason::Staking, 5), 0);
    assert_eq!(balance_frozen(&p, FreezeReason::Releasing, 5), 20);
    assert_eq!(user(&p, 5), UserStakeInfo { count: 0, stake: 0, last_unstake: None });
}

#[test]
fn update_candidacy_bond() {
    let mut p = new_test_ext();
    initialize_to_block(&mut p, 1);
    register_candidates(&mut p, 3, 3);
    assert_eq!(balance_frozen(&p, FreezeReason::CandidacyBond, 3), 10);
    // Cannot set it below the minimum candidacy bond.
    assert_eq!(p.update_candidacy_bond(signed(3), 5), Err(module(Error::InvalidCandidacyBond)));
    // Cannot set it if not candidate.
    assert_eq!(p.update_candidacy_bond(signed(4), 15), Err(module(Error::NotCandidate)));
    // Cannot set it not enough free balance.
    let too_much = p.ledger.balance(3) + 10;
    assert_eq!(
        p.update_candidacy_bond(signed(3), too_much),
        Err(module(Error::InsufficientFreeBalance))
    );
    assert_eq!(p.update_candidacy_bond(signed(3), 20), Ok(()));
    assert_eq!(
        p.events.last(),
        Some(&Event::CandidacyBondUpdated { candidate: 3, new_bond: 20 })
    );
    assert_eq!(balance_frozen(&p, FreezeReason::CandidacyBond, 3), 20);
}

/// A test chain around the engine: the collators the session handlers use, and those
/// queued for the next session.
struct Chain {
    p: Pallet,
    handler: Vec<AccountId>,
    queued: Vec<AccountId>,
    session_change_block: u64,
}

impl Chain {
    fn new() -> Chain {
        let p = new_test_ext();
        let genesis = p.invulnerables.clone();
        Chain { p, handler: genesis.clone(), queued: genesis, session_change_block: 0 }
    }

    /// Like `initialize_to_block`, keeping track of the session handlers' collators: at each
    /// session change they take the queued ones, and the newly chosen ones are queued.
    fn initialize_to_block(&mut self, n: u64) {
        for i in self.p.block_number + 1..=n {
            self.p.set_block_number(i);
            if i % 10 == 0 {
                let ending = self.p.current_session;
                self.p.end_session(ending);
                self.p.start_session(ending + 1);
                self.handler = self.queued.clone();
                self.queued = self.p.new_session(ending + 2).unwrap();
                self.session_change_block = i;
            }
            self.p.on_initialize();
            self.p.note_author(4);
        }
    }
}

#[test]
fn candidate_list_works() {
    let mut p = new_test_ext();
    initialize_to_block(&mut p, 1);
    assert_eq!(p.desired_candidates, 2);
    assert_eq!(p.min_candidacy_bond, 10);
    assert_eq!(candidate_count(&p), 0);
    assert_eq!(p.invulnerables, vec![1, 2]);
    assert_eq!(p.ledger.balance(3), 100);
    assert_eq!(stake_on(&p, 3, 3), 0);
    assert_eq!(p.ledger.balance(4), 100);
    assert_eq!(stake_on(&p, 4, 4), 0);
    assert_eq!(p.ledger.balance(5), 100);
    assert_eq!(stake_on(&p, 5, 5), 0);
    register_candidates(&mut p, 3, 5);
    lock_for_staking(&mut p, 3, 5);
    assert_eq!(p.stake(signed(5), 5, 20), Ok(()));
    assert_eq!(p.stake(signed(3), 3, 30), Ok(()));
    assert_eq!(p.stake(signed(4), 4, 25), Ok(()));
    assert_eq!(p.stake(signed(5), 5, 30), Ok(()));
    let candidate_3 = CandidateInfo { stake: 30, stakers: 1 };
    let candidate_4 = CandidateInfo { stake: 25, stakers: 1 };
    let candidate_5 = CandidateInfo { stake: 50, stakers: 1 };
    assert_eq!(sorted_candidates(&p), vec![(4, candidate_4), (3, candidate_3), (5, candidate_5)]);
    // A repeated stake raises the staker's total too.
    assert_eq!(user(&p, 5), UserStakeInfo { count: 1, stake: 50, last_unstake: None });
}

#[test]
fn session_management_single_candidate() {
    let mut c = Chain::new();
    c.initialize_to_block(1);
    assert_eq!(c.session_change_block, 0);
    assert_eq!(c.handler, vec![1, 2]);
    c.initialize_to_block(4);
    assert_eq!(c.session_change_block, 0);
    assert_eq!(c.handler, vec![1, 2]);
    register_candidates(&mut c.p, 3, 3);
    // session won't see this.
    assert_eq!(c.handler, vec![1, 2]);
    // but we have a new candidate.
    assert_eq!(candidate_count(&c.p), 1);
    c.initialize_to_block(10);
    assert_eq!(c.session_change_block, 10);
    // queued ones are changed, and now we have 3.
    assert_eq!(c.queued.len(), 3);
    // session handlers cannot see this yet.
    assert_eq!(c.handler, vec![1, 2]);
    c.initialize_to_block(20);
    assert_eq!(c.session_change_block, 20);
    assert_eq!(c.handler, vec![1, 2, 3]);
}

#[test]
fn session_management_max_candidates() {
    let mut c = Chain::new();
    c.initialize_to_block(1);
    assert_eq!(c.handler, vec![1, 2]);
    c.initialize_to_block(4);
    assert_eq!(c.handler, vec![1, 2]);
    register_candidates(&mut c.p, 3, 5);
    lock_for_staking(&mut c.p, 3, 4);
    assert_eq!(c.p.stake(signed(4), 4, 50), Ok(()));
    assert_eq!(c.p.stake(signed(3), 3, 60), Ok(()));
    assert_eq!(c.handler, vec![1, 2]);
    assert_eq!(candidate_count(&c.p), 3);
    c.initialize_to_block(10);
    assert_eq!(c.session_change_block, 10);
    assert_eq!(c.queued.len(), 4);
    assert_eq!(c.handler, vec![1, 2]);
    c.initialize_to_block(20);
    assert_eq!(c.session_change_block, 20);
    assert_eq!(c.handler, vec![1, 2, 3, 4]);
}

#[test]
fn session_management_increase_bid_with_list_update() {
    let mut c = Chain::new();
    c.initialize_to_block(1);
    assert_eq!(c.handler, vec![1, 2]);
    c.initialize_to_block(4);
    assert_eq!(c.handler, vec![1, 2]);
    register_candidates(&mut c.p, 3, 5);
    lock_for_staking(&mut c.p, 3, 5);
    assert_eq!(c.p.stake(signed(5), 5, 60), Ok(()));
    assert_eq!(c.p.stake(signed(3), 3, 50), Ok(()));
    assert_eq!(c.handler, vec![1, 2]);
    assert_eq!(candidate_count(&c.p), 3);
    c.initialize_to_block(10);
    assert_eq!(c.session_change_block, 10);
    assert_eq!(c.queued.len(), 4);
    assert_eq!(c.handler, vec![1, 2]);
    c.initialize_to_block(20);
    assert_eq!(c.session_change_block, 20);
    assert_eq!(c.handler, vec![1, 2, 5, 3]);
}

#[test]
fn session_management_candidate_list_eager_sort() {
    let mut c = Chain::new();
    c.initialize_to_block(1);
    assert_eq!(c.handler, vec![1, 2]);
    c.initialize_to_block(4);
    assert_eq!(c.handler, vec![1, 2]);
    register_candidates(&mut c.p, 3, 5);
    lock_for_staking(&mut c.p, 5, 5);
    assert_eq!(c.p.stake(signed(5), 5, 60), Ok(()));
    assert_eq!(c.handler, vec![1, 2]);
    assert_eq!(candidate_count(&c.p), 3);
    c.initialize_to_block(10);
    assert_eq!(c.session_change_block, 10);
    assert_eq!(c.queued.len(), 4);
    assert_eq!(c.handler, vec![1, 2]);
    c.initialize_to_block(20);
    assert_eq!(c.session_change_block, 20);
    assert_eq!(c.handler, vec![1, 2, 5, 3]);
}

#[test]
fn session_management_reciprocal_outbidding() {
    let mut c = Chain::new();
    c.initialize_to_block(1);
    assert_eq!(c.handler, vec![1, 2]);
    c.initialize_to_block(4);
    assert_eq!(c.handler, vec![1, 2]);
    register_candidates(&mut c.p, 3, 5);
    lock_for_staking(&mut c.p, 3, 5);
    assert_eq!(c.p.stake(signed(5), 5, 60), Ok(()));
    c.initialize_to_block(5);
    assert_eq!(c.p.stake(signed(4), 4, 80), Ok(()));
    assert_eq!(c.p.stake(signed(3), 3, 70), Ok(()));
    assert_eq!(c.handler, vec![1, 2]);
    assert_eq!(candidate_count(&c.p), 3);
    c.initialize_to_block(10);
    assert_eq!(c.session_change_block, 10);
    assert_eq!(c.queued.len(), 4);
    assert_eq!(c.handler, vec![1, 2]);
    c.initialize_to_block(20);
    assert_eq!(c.session_change_block, 20);
    assert_eq!(c.handler, vec![1, 2, 4, 3]);
}

#[test]
fn session_management_decrease_bid_after_auction() {
    let mut c = Chain::new();
    c.initialize_to_block(1);
    assert_eq!(c.handler, vec![1, 2]);
    c.initialize_to_block(4);
    assert_eq!(c.handler, vec![1, 2]);
    register_candidates(&mut c.p, 3, 5);
    lock_for_staking(&mut c.p, 3, 5);
    assert_eq!(c.p.stake(signed(5), 5, 60), Ok(()));
    c.initialize_to_block(5);
    assert_eq!(c.p.stake(signed(4), 4, 80), Ok(()));
    assert_eq!(c.p.stake(signed(3), 3, 70), Ok(()));
    c.initialize_to_block(6);
    assert_eq!(c.p.unstake_from(signed(5), 5), Ok(()));
    assert_eq!(c.handler, vec![1, 2]);
    assert_eq!(candidate_count(&c.p), 3);
    c.initialize_to_block(10);
    assert_eq!(c.session_change_block, 10);
    assert_eq!(c.queued.len(), 4);
    assert_eq!(c.handler, vec![1, 2]);
    c.initialize_to_block(20);
    assert_eq!(c.session_change_block, 20);
    assert_eq!(c.handler, vec![1, 2, 4, 3]);
}

#[test]
fn kick_mechanism() {
    let mut c = Chain::new();
    c.initialize_to_block(1);
    let bond = c.p.min_candidacy_bond;
    assert_eq!(c.p.register_as_candidate(signed(3), bond, keys(3)), Ok(()));
    assert_eq!(c.p.register_as_candidate(signed(4), bond, keys(4)), Ok(()));
    c.initialize_to_block(10);
    assert_eq!(candidate_count(&c.p), 2);
    c.initialize_to_block(30);
    assert_eq!(c.session_change_block, 30);
    // 4 authored this block, gets to stay 3 was kicked
    assert_eq!(candidate_count(&c.p), 1);
    // 3 will be kicked after 1 session delay
    assert_eq!(c.handler, vec![1, 2, 3, 4]);
    assert_eq!(sorted_candidates(&c.p), vec![(4, CandidateInfo { stake: 0, stakers: 0 })]);
    assert_eq!(c.p.last_authored_block.get(&4), Some(&30));
    c.initialize_to_block(40);
    // 3 gets kicked after 1 session delay
    assert_eq!(c.handler, vec![1, 2, 4]);
    // kicked collator gets funds back after a delay
    assert_eq!(balance_frozen(&c.p, FreezeReason::CandidacyBond, 3), 0);
    assert_eq!(balance_frozen(&c.p, FreezeReason::Releasing, 3), 10);
    assert_eq!(c.p.bond_releases.get(&3), Some(&CandidacyBondRelease { bond: 10, block: 35, reason: CandidacyBondReleaseReason::Idle }));
    // and claims it once due
    assert_eq!(c.p.claim(signed(3)), Ok(()));
    assert_eq!(balance_frozen(&c.p, FreezeReason::Releasing, 3), 0);
    assert_eq!(c.p.bond_releases.get(&3), None);
}

#[test]
fn should_not_kick_mechanism_too_few() {
    let mut c = Chain::new();
    c.initialize_to_block(1);
    assert_eq!(candidate_count(&c.p), 0);
    assert_eq!(c.p.invulnerables, vec![1, 2]);
    assert_eq!(c.p.remove_invulnerable(root(), 1), Ok(()));
    let bond = c.p.min_candidacy_bond;
    assert_eq!(c.p.register_as_candidate(signed(3), bond, keys(3)), Ok(()));
    assert_eq!(c.p.register_as_candidate(signed(5), bond, keys(5)), Ok(()));
    assert_eq!(c.p.remove_invulnerable(root(), 2), Ok(()));
    c.initialize_to_block(20);
    assert_eq!(candidate_count(&c.p), 2);
    c.initialize_to_block(30);
    assert_eq!(c.session_change_block, 30);
    // Both are stale; the kick goes through the list in order: 3 is kicked, and 5 stays
    // because of too few collators.
    assert_eq!(candidate_count(&c.p), 1);
    assert_eq!(c.handler, vec![3, 5]);
    let collator = CandidateInfo { stake: 0, stakers: 0 };
    assert_eq!(sorted_candidates(&c.p), vec![(5, collator)]);
    assert_eq!(c.p.last_authored_block.get(&4), Some(&30));
    c.initialize_to_block(40);
    assert_eq!(c.handler, vec![5]);
    // kicked collator gets funds back after a delay
    assert_eq!(balance_frozen(&c.p, FreezeReason::Releasing, 3), 10);
    assert_eq!(c.p.bond_releases.get(&3), Some(&CandidacyBondRelease { bond: 10, block: 35, reason: CandidacyBondReleaseReason::Idle }));
}

#[test]
fn register_as_candidate_does_not_reuse_old_bond_if_wrong_reason() {
    let mut p = new_test_ext();
    initialize_to_block(&mut p, 1);
    assert_eq!(p.desired_candidates, 2);
    assert_eq!(p.min_candidacy_bond, 10);
    assert_eq!(candidate_count(&p), 0);
    assert_eq!(p.invulnerables, vec![1, 2]);
    assert_eq!(p.ledger.balance(3), 100);
    assert_eq!(stake_on(&p, 3, 3), 0);
    register_candidates(&mut p, 3, 3);
    assert_eq!(balance_frozen(&p, FreezeReason::CandidacyBond, 3), 10);
    assert_eq!(stake_on(&p, 3, 3), 0);
    assert_eq!(candidate_count(&p), 1);
    assert_eq!(p.get_candidate(3), Ok(CandidateInfo { stake: 0, stakers: 0 }));
    assert_eq!(p.get_bond(3), 10);

    // the candidate removes itself
    assert_eq!(p.leave_intent(signed(3)), Ok(()));
    assert_eq!(p.get_releasing_balance(3), 10);
    assert_eq!(p.get_bond(3), 0);

    // and finally rejoins
    let bond = p.min_candidacy_bond;
    assert_eq!(p.register_as_candidate(signed(3), bond, keys(3)), Ok(()));
    // the old locked candidacy bond should remain
    assert_eq!(p.get_releasing_balance(3), 10);
    assert_eq!(p.get_bond(3), 10);
}

#[test]
fn stake_many_at_once() {
    let mut p = new_test_ext();
    initialize_to_block(&mut p, 1);
    register_candidates(&mut p, 3, 4);
    lock_for_staking(&mut p, 3, 3);
    assert_eq!(balance_frozen(&p, FreezeReason::Staking, 3), 90);
    assert_eq!(stake_on(&p, 3, 3), 0);
    assert_eq!(stake_on(&p, 3, 4), 0);
    assert_eq!(user(&p, 3), UserStakeInfo { count: 0, stake: 0, last_unstake: None });
    assert_eq!(p.stake(signed(3), 3, 20), Ok(()));
    assert_eq!(p.stake(signed(3), 4, 20), Ok(()));
    assert!(p.events.contains(&Event::StakeAdded { staker: 3, candidate: 4, amount: 20 }));
    assert!(p.events.contains(&Event::StakeAdded { staker: 3, candidate: 3, amount: 20 }));
    assert_eq!(stake_on(&p, 4, 3), 20);
    assert_eq!(stake_on(&p, 3, 3), 20);
    assert_eq!(user(&p, 3), UserStakeInfo { count: 2, stake: 40, last_unstake: None });
}

#[test]
fn stake_and_reassign_position() {
    let mut p = new_test_ext();
    initialize_to_block(&mut p, 1);
    register_candidates(&mut p, 3, 4);
    assert_eq!(p.get_staked_balance(5), 0);
    assert_eq!(p.get_free_balance(5), 100);
    assert_eq!(p.lock(signed(5), 60), Ok(()));
    assert_eq!(p.events.last(), Some(&Event::LockExtended { total: 60 }));
    assert_eq!(p.get_staked_balance(5), 60);
    assert_eq!(p.get_free_balance(5), 40);
    assert_eq!(
        sorted_candidates(&p),
        vec![(3, CandidateInfo { stake: 0, stakers: 0 }), (4, CandidateInfo { stake: 0, stakers: 0 })]
    );
    assert_eq!(p.stake(signed(5), 3, 12), Ok(()));
    assert_eq!(
        sorted_candidates(&p),
        vec![(4, CandidateInfo { stake: 0, stakers: 0 }), (3, CandidateInfo { stake: 12, stakers: 1 })]
    );
    assert_eq!(p.stake(signed(5), 4, 15), Ok(()));
    assert_eq!(
        sorted_candidates(&p),
        vec![(3, CandidateInfo { stake: 12, stakers: 1 }), (4, CandidateInfo { stake: 15, stakers: 1 })]
    );
    register_candidates(&mut p, 5, 5);
    assert_eq!(
        sorted_candidates(&p),
        vec![
            (5, CandidateInfo { stake: 0, stakers: 0 }),
            (3, CandidateInfo { stake: 12, stakers: 1 }),
            (4, CandidateInfo { stake: 15, stakers: 1 }),
        ]
    );
    assert_eq!(p.stake(signed(5), 5, 13), Ok(()));
    assert_eq!(
        sorted_candidates(&p),
        vec![
            (3, CandidateInfo { stake: 12, stakers: 1 }),
            (5, CandidateInfo { stake: 13, stakers: 1 }),
            (4, CandidateInfo { stake: 15, stakers: 1 }),
        ]
    );
    assert_eq!(p.stake(signed(5), 5, 7), Ok(()));
    assert_eq!(
        sorted_candidates(&p),
        vec![
            (3, CandidateInfo { stake: 12, stakers: 1 }),
            (4, CandidateInfo { stake: 15, stakers: 1 }),
            (5, CandidateInfo { stake: 20, stakers: 1 }),
        ]
    );
}

/// Builds the engine from a genesis configuration, panicking on a configuration that the
/// build refuses, as the runtime's genesis does.
fn build_or_panic(genesis: GenesisConfig) -> Pallet {
    match genesis.check(&test_config()) {
        Ok(()) => genesis.build(test_config(), 5),
        Err(GenesisError::MinStakeAboveCandidacyBond) => panic!("min_stake is higher than candidacy_bond"),
        Err(GenesisError::DuplicateInvulnerables) => panic!("duplicate invulnerables in genesis."),
        Err(GenesisError::TooManyInvulnerables) => {
            panic!("genesis invulnerables are more than T::MaxInvulnerables")
        },
        Err(GenesisError::TooManyDesiredCandidates) => {
            panic!("genesis desired_candidates are more than T::MaxCandidates")
        },
    }
}

#[test]
#[should_panic = "duplicate invulnerables in genesis."]
fn cannot_set_genesis_value_twice() {
    let invulnerables = vec![1, 1];
    let genesis = GenesisConfig {
        desired_candidates: 2,
        candidacy_bond: 10,
        min_stake: 1,
        invulnerables,
        collator_reward_percentage: Percent::from_parts(20),
        extra_reward: 0,
    };
    build_or_panic(genesis);
}

#[test]
#[should_panic = "genesis desired_candidates are more than T::MaxCandidates"]
fn cannot_set_invalid_max_candidates_in_genesis() {
    let genesis = GenesisConfig {
        desired_candidates: 50,
        candidacy_bond: 10,
        min_stake: 2,
        invulnerables: vec![1, 2],
        collator_reward_percentage: Percent::from_parts(20),
        extra_reward: 0,
    };
    build_or_panic(genesis);
}

#[test]
#[should_panic = "genesis invulnerables are more than T::MaxInvulnerables"]
fn cannot_set_too_many_invulnerables_at_genesis() {
    let genesis = GenesisConfig {
        desired_candidates: 5,
        candidacy_bond: 10,
        min_stake: 2,
        invulnerables: vec![1, 2, 3, 4, 5, 6, 7, 8, 9, 10, 11, 12, 13, 14, 15, 16, 17, 18, 19, 20, 21],
        collator_reward_percentage: Percent::from_parts(20),
        extra_reward: 0,
    };
    build_or_panic(genesis);
}

#[test]
fn stop_extra_reward() {
    let mut p = new_test_ext();
    initialize_to_block(&mut p, 1);
    let pot = p.extra_reward_account_id();
    fund_account(&mut p, pot);
    assert_eq!(p.extra_reward, 0);
    // Cannot stop if already zero
    assert_eq!(p.stop_extra_reward(root()), Err(module(Error::ExtraRewardAlreadyDisabled)));
    // Now we can stop it
    assert_eq!(p.set_extra_reward(root(), 2), Ok(()));
    assert_eq!(p.stop_extra_reward(root()), Ok(()));
    assert_eq!(
        p.events.last(),
        Some(&Event::ExtraRewardRemoved { amount_left: 100, receiver: Some(40) })
    );
    assert_eq!(p.extra_reward, 0);
}

#[test]
fn stop_extra_reward_with_wrong_origin_should_not_work() {
    let mut p = new_test_ext();
    initialize_to_block(&mut p, 1);
    let pot = p.extra_reward_account_id();
    fund_account(&mut p, pot);
    assert_eq!(p.extra_reward, 0);
    assert_eq!(p.stop_extra_reward(root()), Err(module(Error::ExtraRewardAlreadyDisabled)));
    assert_eq!(p.set_extra_reward(root(), 2), Ok(()));
    // Invalid Origin
    assert_eq!(p.stop_extra_reward(signed(3)), Err(DispatchError::BadOrigin));
}

#[test]
fn should_not_reward_invulnerables() {
    let mut p = new_test_ext();
    assert_eq!(p.add_invulnerable(root(), 4, keys(4)), Ok(()));
    assert_eq!(p.extra_reward, 0);
    assert_eq!(p.total_blocks.get(&0).copied().unwrap_or((0, 0)), (0, 0));
    assert_eq!(p.current_session, 0);
    let pot = p.account_id();
    for block in 1..=9 {
        initialize_to_block(&mut p, block);
        assert_eq!(p.current_session, 0);
        assert_eq!(p.total_blocks.get(&0).copied(), Some((block as u32, 0)));
        // Transfer the existential deposit first
        p.ledger.mint_into(pot, 5);
        // Assume we collected one unit in fees per block
        assert_eq!(p.ledger.transfer(1, pot, 1, true), Ok(()));
    }
    assert!(p.produced_blocks.iter().all(|b| b.author != 4));
    initialize_to_block(&mut p, 10);
    assert_eq!(p.current_session, 1);
    assert_eq!(p.total_blocks.get(&1).copied(), Some((1, 0)));
    // No StakingRewardReceived should have been emitted if only an invulnerable produces
    // blocks.
    assert!(!p.events.iter().any(|e| matches!(e, Event::StakingRewardReceived { .. })));
}

#[test]
fn register_as_candidate_reuses_old_bond_if_replaced() {
    let mut p = new_test_ext();
    initialize_to_block(&mut p, 1);
    assert_eq!(p.desired_candidates, 2);
    assert_eq!(p.min_candidacy_bond, 10);
    assert_eq!(candidate_count(&p), 0);
    assert_eq!(p.invulnerables, vec![1, 2]);
    assert_eq!(p.ledger.balance(3), 100);
    assert_eq!(stake_on(&p, 3, 3), 0);
    register_candidates(&mut p, 3, 3);
    assert_eq!(balance_frozen(&p, FreezeReason::CandidacyBond, 3), 10);
    assert_eq!(stake_on(&p, 3, 3), 0);
    assert_eq!(candidate_count(&p), 1);
    assert_eq!(p.get_candidate(3), Ok(CandidateInfo { stake: 0, stakers: 0 }));
    assert_eq!(p.get_bond(3), 10);

    // the candidate is replaced (artificially)
    assert_eq!(p.leave_intent(signed(3)), Ok(()));
    if let Some(release) = p.bond_releases.get_mut(&3) {
        release.reason = CandidacyBondReleaseReason::Replaced;
    }
    assert_eq!(p.get_releasing_balance(3), 10);
    assert_eq!(p.get_bond(3), 0);

    // and finally rejoins using the old candidacy bond
    let bond = p.min_candidacy_bond;
    assert_eq!(p.register_as_candidate(signed(3), bond, keys(3)), Ok(()));
    assert_eq!(p.get_releasing_balance(3), 0);
    assert_eq!(p.get_bond(3), 10);
}

#[test]
fn replaced_candidate_takes_its_bond_back_when_rejoining() {
    let mut p = new_test_ext();
    initialize_to_block(&mut p, 1);
    for acc in 3..=22 {
        if acc > 5 {
            fund_account(&mut p, acc);
        }
        let bond = if acc > 3 { 20 } else { 10 };
        assert_eq!(p.register_as_candidate(signed(acc), bond, keys(acc)), Ok(()));
    }
    fund_account(&mut p, 23);
    assert_eq!(p.register_as_candidate(signed(23), 11, keys(23)), Ok(()));
    assert_eq!(
        p.bond_releases.get(&3),
        Some(&CandidacyBondRelease { bond: 10, block: 6, reason: CandidacyBondReleaseReason::Replaced })
    );
    assert_eq!(p.get_releasing_balance(3), 10);
    // Room is made again, and 3 comes back: its old bond is no longer being released.
    assert_eq!(p.leave_intent(signed(23)), Ok(()));
    assert_eq!(p.register_as_candidate(signed(3), 10, keys(3)), Ok(()));
    assert_eq!(p.get_releasing_balance(3), 0);
    assert_eq!(p.bond_releases.get(&3), None);
    assert_eq!(p.get_bond(3), 10);
}
