//! Properties of the engine that span several operations.

use vstd::prelude::*;

use crate::arith::{spec_perbill_from_rational, BILLION};
use crate::collators::ranked;
use crate::ledger::Ledger;
use crate::rewards::{sat_mul, staker_reward};
use crate::migration::{
    account_cursor, autocompound_batch, bond_release_batch, candidacy_bond_batch, pair_cursor,
    queue_ranks, ranks, release_queue_batch, spec_migrate_autocompounding,
    spec_migrate_candidacy_bond, spec_migrate_candidacy_bond_releases, spec_migrate_release_queue,
    spec_migrate_stake, spec_reset_rewards, spec_set_storage_version, spec_step, spend_queues,
    stake_batch, stake_ranks, start_of, ascending, after_cursor, MigrationSteps, MigrationWeights,
    QueueView, StoreView,
};
use crate::pallet::{
    cand_index, in_stakes, lemma_cand_index, lemma_stake_index, stake_in, stake_index, CandidateRecord,
    Pallet, StakeRecord,
};
use crate::migration_check::exact_sum;
use crate::types::{AccountId, Balance, BlockNumber, FreezeReason, Origin, ReleaseRequest, SessionIndex};
use crate::weight::{Weight, WeightMeter};
use crate::migration::spend;

verus! {

/// Unstaking right after a first stake undoes it: when `staker`, whose record agrees with its
/// stakes, had no stake on `candidate`, stakes a non-zero `amount` on it (without the
/// candidate's or the staker's total saturating) and then unstakes from it, every candidate
/// ends up with the account, totals and stakes it had before, and the staker with the total
/// stake and the number of staked candidates it had before.
pub proof fn law_stake_then_unstake_restores_candidates(
    s: Pallet,
    s1: Pallet,
    s2: Pallet,
    staker: AccountId,
    candidate: AccountId,
    amount: Balance,
)
    requires
        s.wf(),
        s1.wf(),
        s.staked(s1, staker, candidate, amount),
        s1.stake_removed(s2, candidate, staker),
        amount > 0,
        !in_stakes(s.cand(candidate).stakes@, staker),
        s.cand(candidate).info.stake + amount <= u64::MAX,
        s.user_stake_of(staker).stake + amount <= u64::MAX,
        s.user_stake_of(staker).count < u32::MAX,
        staker_books(s, staker),
    ensures
        s2.candidates@.len() == s.candidates@.len(),
        forall|k: int|
            0 <= k < s.candidates@.len() ==> {
                &&& (#[trigger] s2.candidates@[k]).account == s.candidates@[k].account
                &&& s2.candidates@[k].info == s.candidates@[k].info
                &&& s2.candidates@[k].stakes@ == s.candidates@[k].stakes@
            },
        s2.user_stake_of(staker).stake == s.user_stake_of(staker).stake,
        s2.user_stake_of(staker).count == s.user_stake_of(staker).count,
{
    let ci = cand_index(s.candidates@, candidate);
    let rec = s.candidates@[ci];
    lemma_cand_index(s1.candidates@, ci);
    assert(cand_index(s1.candidates@, candidate) == ci);
    assert(s1.is_candidate(candidate));
    let pushed = s1.candidates@[ci].stakes@;
    assert(stake_index(rec.stakes@, staker) == -1);
    assert(pushed == rec.stakes@.push(pushed.last()));
    assert(pushed.last().staker == staker);
    lemma_stake_index(pushed, pushed.len() - 1);
    assert(stake_in(pushed, staker).stake == amount);
    assert(s1.stake_of(candidate, staker).stake == amount);
    assert(s2.candidates@[ci].stakes@ =~= rec.stakes@);
    lemma_stake_count_nonneg(s.candidates@, staker);
    lemma_stake_count_nonneg(s.retained@, staker);
    lemma_stake_sum_nonneg(s.candidates@, staker);
    lemma_stake_sum_nonneg(s.retained@, staker);
    assert(s1.user_stake@.contains_key(staker));
    assert(s2.user_stake_of(staker) == crate::staking::user_after_unstake(
        s1.user_stake_of(staker),
        amount,
        s1.block_number,
        s1.config.restake_unlock_delay,
        true,
    ));
}

/// Locking funds and then unlocking the same amount leaves the staking freeze as it was
/// (when the lock did not saturate it), moves the amount to the releasing freeze, and queues
/// it for release after the stake delay.
pub proof fn law_lock_then_unlock(s: Pallet, s1: Pallet, s2: Pallet, who: AccountId, amount: Balance)
    requires
        s.lock_extended(s1, who, amount),
        s1.unlocked(s2, who, amount),
        s.ledger.account(who).staking + amount <= u64::MAX,
    ensures
        s2.ledger.account(who).staking == s.ledger.account(who).staking,
        s2.ledger.account(who).releasing == s.ledger.account(who).releasing.saturating_add(amount),
        s2.release_queue_of(who) == s.release_queue_of(who).push(
            crate::types::ReleaseRequest {
                block: (s.block_number + s.config.stake_unlock_delay) as u64,
                amount,
            },
        ),
{
}

/// A transfer that keeps the sender alive moves funds without creating or destroying any:
/// the balances of sender and receiver add up to what they did before. One that may reap
/// the sender never adds up to more.
pub proof fn law_transfer_keeps_total(l: Ledger, after: Ledger, from: AccountId, to: AccountId, amount: Balance, keep_alive: bool)
    requires
        l.transferred(after, from, to, amount, keep_alive),
        from != to,
    ensures
        keep_alive ==> after.account(from).balance + after.account(to).balance == l.account(from).balance
            + l.account(to).balance,
        after.account(from).balance + after.account(to).balance <= l.account(from).balance + l.account(
            to,
        ).balance,
{
}

/// Claiming leaves no due request: every request that stays in the queue waits for a block
/// after the current one, and those requests are the waiting ones of the queue, in order.
pub proof fn law_claim_leaves_pending(s: Pallet, s2: Pallet, who: AccountId)
    requires
        s.claimed(s2, who),
    ensures
        forall|k: int|
            0 <= k < s2.release_queue_of(who).len() ==> #[trigger] s2.release_queue_of(who)[k].block
                > s.block_number,
        s2.release_queue_of(who) == s.release_queue_of(who).filter(crate::release::waiting(s.block_number)),
{
    s.release_queue_of(who).filter_lemma(crate::release::waiting(s.block_number));
}

/// A migration step does nothing unless the storage is at version 1, so the migration never
/// runs on storage that was already migrated.
pub proof fn law_step_needs_version_one(v: StoreView, meter: WeightMeter, cursor: Option<MigrationSteps>)
    requires
        v.storage_version != 1,
    ensures
        spec_step(v, meter, cursor) == (v, meter, None::<MigrationSteps>),
{
}

/// A step that reports the migration complete leaves the storage at version 2 (unless it
/// was handed the cursor of a completed migration, which it just passes through).
#[verifier::rlimit(50)]
#[verifier::spinoff_prover]
pub proof fn law_completed_migration_is_at_version_two(
    v: StoreView,
    meter: WeightMeter,
    cursor: Option<MigrationSteps>,
)
    requires
        v.storage_version == 1,
        cursor != Some(MigrationSteps::Noop),
        spec_step(v, meter, cursor).2 is None,
    ensures
        spec_step(v, meter, cursor).0.storage_version == 2,
{
}

/// Migrating stakes changes their layout only: every stake keeps its candidate, staker and
/// amount, in the same place.
pub proof fn law_stake_migration_keeps_stakes(
    v: StoreView,
    meter: WeightMeter,
    cursor: Option<(AccountId, AccountId)>,
)
    ensures
        stake_batch(v, meter, cursor).0.candidate_stake.len() == v.candidate_stake.len(),
        forall|i: int|
            0 <= i < v.candidate_stake.len() ==> {
                let e = #[trigger] stake_batch(v, meter, cursor).0.candidate_stake[i];
                &&& e.candidate == v.candidate_stake[i].candidate
                &&& e.staker == v.candidate_stake[i].staker
                &&& e.value.amount() == v.candidate_stake[i].value.amount()
            },
{
}

/// A walk that consumes its weight only when the meter allows it never takes the meter
/// past its limit, and leaves the limit as it is.
pub proof fn law_spend_within_limit(meter: WeightMeter, w: Weight, n: nat)
    requires
        meter.consumed.all_lte(meter.limit),
    ensures
        spend(meter, w, n).2.consumed.all_lte(meter.limit),
        spend(meter, w, n).2.limit == meter.limit,
    decreases n,
{
    if meter.spec_can_consume(w) && n > 0 {
        law_spend_within_limit(meter.spec_consume(w), w, (n - 1) as nat);
    }
}

/// The sum of a list of stakes.
pub open spec fn stake_total(stakes: Seq<Balance>) -> int
    decreases stakes.len(),
{
    if stakes.len() == 0 {
        0
    } else {
        stake_total(stakes.drop_last()) + stakes.last()
    }
}

/// The sum of the shares, in parts per billion, of a list of stakes out of `total`.
pub open spec fn share_total(stakes: Seq<Balance>, total: Balance) -> int
    decreases stakes.len(),
{
    if stakes.len() == 0 {
        0
    } else {
        share_total(stakes.drop_last(), total) + spec_perbill_from_rational(stakes.last() as int, total as int)
    }
}

/// The sum of the rewards of a list of stakes out of `total`, from `pool`.
pub open spec fn reward_total(stakes: Seq<Balance>, total: Balance, pool: Balance) -> int
    decreases stakes.len(),
{
    if stakes.len() == 0 {
        0
    } else {
        reward_total(stakes.drop_last(), total, pool) + staker_reward(stakes.last(), total, pool)
    }
}

/// Shares rounded down add up to at most the exact fraction of the stakes.
proof fn lemma_share_total(stakes: Seq<Balance>, total: Balance)
    requires
        total > 0,
        stake_total(stakes) <= total,
    ensures
        0 <= stake_total(stakes),
        total * share_total(stakes, total) <= (BILLION as int) * stake_total(stakes),
    decreases stakes.len(),
{
    if stakes.len() > 0 {
        let rest = stakes.drop_last();
        let x = stakes.last() as int;
        lemma_share_total(rest, total);
        let t = total as int;
        let b = BILLION as int;
        assert(x <= t);
        let p = spec_perbill_from_rational(x, t);
        assert(p == b * x / t);
        assert(t * (b * x / t) <= b * x) by (nonlinear_arith)
            requires
                t > 0,
                b * x >= 0,
        ;
        assert(t * share_total(stakes, total) == t * share_total(rest, total) + t * p) by (nonlinear_arith)
            requires
                share_total(stakes, total) == share_total(rest, total) + p,
        ;
    }
}

/// Rewards rounded down add up to at most the pool's share of the shares.
proof fn lemma_reward_total(stakes: Seq<Balance>, total: Balance, pool: Balance)
    ensures
        (BILLION as int) * reward_total(stakes, total, pool) <= (pool as int) * share_total(stakes, total),
    decreases stakes.len(),
{
    if stakes.len() > 0 {
        let rest = stakes.drop_last();
        lemma_reward_total(rest, total, pool);
        let b = BILLION as int;
        let p = spec_perbill_from_rational(stakes.last() as int, total as int);
        let y = pool as int;
        assert(p >= 0) by (nonlinear_arith)
            requires
                p == (if total == 0 || stakes.last() > total { b } else { b * stakes.last() / (total as int) }),
                b > 0,
        ;
        assert(b * (y * p / b) <= y * p) by (nonlinear_arith)
            requires
                b > 0,
                y * p >= 0,
        ;
        assert(b * reward_total(stakes, total, pool) == b * reward_total(rest, total, pool) + b * (y * p / b))
            by (nonlinear_arith)
            requires
                reward_total(stakes, total, pool) == reward_total(rest, total, pool) + y * p / b,
        ;
        assert(y * share_total(stakes, total) == y * share_total(rest, total) + y * p) by (nonlinear_arith)
            requires
                share_total(stakes, total) == share_total(rest, total) + p,
        ;
    }
}

/// Rewards are shared out of existing funds: the rewards of stakers whose stakes add up to
/// at most the candidate's total stake never add up to more than the pool they come from.
pub proof fn law_staker_rewards_within_pool(stakes: Seq<Balance>, total: Balance, pool: Balance)
    requires
        total > 0,
        stake_total(stakes) <= total,
    ensures
        reward_total(stakes, total, pool) <= pool,
{
    lemma_share_total(stakes, total);
    lemma_reward_total(stakes, total, pool);
    let b = BILLION as int;
    let t = total as int;
    let st = stake_total(stakes);
    let sh = share_total(stakes, total);
    let rt = reward_total(stakes, total, pool);
    let y = pool as int;
    assert(sh <= b) by (nonlinear_arith)
        requires
            t > 0,
            t * sh <= b * st,
            st <= t,
            b > 0,
            st >= 0,
    ;
    assert(rt <= y) by (nonlinear_arith)
        requires
            b * rt <= y * sh,
            sh <= b,
            b > 0,
            y >= 0,
    ;
}

/// The collators of a session are the invulnerables followed by the best-backed candidates:
/// there are never more of them than the invulnerables plus the desired candidates, and no
/// candidate left out has more stake than one chosen.
pub proof fn law_collators_are_best_backed(s: Pallet, p: Seq<int>)
    requires
        ranked(s.candidates@, p),
    ensures
        s.assembled(p).len() <= s.invulnerables@.len() + s.desired_candidates,
        s.assembled(p).subrange(0, s.invulnerables@.len() as int) == s.invulnerables@,
        forall|a: int, b: int|
            0 <= a < s.assembled(p).len() - s.invulnerables@.len() <= b < p.len() ==> s.candidates@[p[a]].info.stake
                >= s.candidates@[p[b]].info.stake,
{
    let inv = s.invulnerables@;
    assert(s.assembled(p).subrange(0, inv.len() as int) =~= inv);
    assert forall|a: int, b: int|
        0 <= a < s.assembled(p).len() - inv.len() <= b < p.len() implies s.candidates@[p[a]].info.stake
            >= s.candidates@[p[b]].info.stake by {
        assert(a < b);
        assert(s.candidates@[p[a]].info.stake > s.candidates@[p[b]].info.stake || s.candidates@[p[a]].info.stake
            == s.candidates@[p[b]].info.stake);
    }
}

/// The sum of the stakes of a list of stake records.
pub open spec fn staked_total(s: Seq<StakeRecord>) -> int
    decreases s.len(),
{
    if s.len() == 0 {
        0
    } else {
        staked_total(s.drop_last()) + s.last().info.stake
    }
}

/// Each stake is part of the sum of the stakes.
proof fn lemma_staked_total_element(s: Seq<StakeRecord>, j: int)
    requires
        0 <= j < s.len(),
    ensures
        0 <= s[j].info.stake <= staked_total(s),
        staked_total(s) >= 0,
    decreases s.len(),
{
    lemma_staked_total_nonneg(s.drop_last());
    if j < s.len() - 1 {
        lemma_staked_total_element(s.drop_last(), j);
    }
}

/// The sum of stakes is not negative.
proof fn lemma_staked_total_nonneg(s: Seq<StakeRecord>)
    ensures
        staked_total(s) >= 0,
    decreases s.len(),
{
    if s.len() > 0 {
        lemma_staked_total_nonneg(s.drop_last());
    }
}

/// Replacing a stake changes the sum by the difference.
proof fn lemma_staked_total_update(s: Seq<StakeRecord>, j: int, e: StakeRecord)
    requires
        0 <= j < s.len(),
    ensures
        staked_total(s.update(j, e)) == staked_total(s) - s[j].info.stake + e.info.stake,
    decreases s.len(),
{
    if j == s.len() - 1 {
        assert(s.update(j, e).drop_last() =~= s.drop_last());
    } else {
        assert(s.update(j, e).drop_last() =~= s.drop_last().update(j, e));
        lemma_staked_total_update(s.drop_last(), j, e);
    }
}

/// Adding a stake adds it to the sum.
proof fn lemma_staked_total_push(s: Seq<StakeRecord>, e: StakeRecord)
    ensures
        staked_total(s.push(e)) == staked_total(s) + e.info.stake,
{
    assert(s.push(e).drop_last() =~= s);
}

/// Taking a stake out takes it off the sum.
proof fn lemma_staked_total_remove(s: Seq<StakeRecord>, j: int)
    requires
        0 <= j < s.len(),
    ensures
        staked_total(s.remove(j)) == staked_total(s) - s[j].info.stake,
    decreases s.len(),
{
    if j == s.len() - 1 {
        assert(s.remove(j) =~= s.drop_last());
    } else {
        assert(s.remove(j).drop_last() =~= s.drop_last().remove(j));
        assert(s.remove(j).last() == s.last());
        lemma_staked_total_remove(s.drop_last(), j);
    }
}

/// Staking keeps a candidate's total stake equal to the sum of the stakes placed on it (as
/// long as the total does not saturate).
pub proof fn law_stake_keeps_candidate_total(
    s: Pallet,
    s1: Pallet,
    staker: AccountId,
    candidate: AccountId,
    amount: Balance,
)
    requires
        s.wf(),
        s1.wf(),
        s.staked(s1, staker, candidate, amount),
        s.cand(candidate).info.stake == staked_total(s.cand(candidate).stakes@),
        s.cand(candidate).info.stake + amount <= u64::MAX,
    ensures
        s1.cand(candidate).info.stake == staked_total(s1.cand(candidate).stakes@),
{
    let ci = cand_index(s.candidates@, candidate);
    let rec = s.candidates@[ci];
    lemma_cand_index(s1.candidates@, ci);
    let j = stake_index(rec.stakes@, staker);
    let prev = stake_in(rec.stakes@, staker);
    let first = prev.stake == 0;
    let entry = StakeRecord {
        staker,
        info: crate::types::CandidateStakeInfo {
            session: if first { s.current_session } else { prev.session },
            stake: prev.stake.saturating_add(amount),
        },
    };
    if j >= 0 {
        assert(in_stakes(rec.stakes@, staker));
        lemma_staked_total_element(rec.stakes@, j);
        assert(prev == rec.stakes@[j].info);
        lemma_staked_total_update(rec.stakes@, j, entry);
    } else {
        assert(!in_stakes(rec.stakes@, staker));
        lemma_staked_total_push(rec.stakes@, entry);
    }
}

/// Unstaking keeps a candidate's total stake equal to the sum of the stakes placed on it.
pub proof fn law_unstake_keeps_candidate_total(s1: Pallet, s2: Pallet, staker: AccountId, candidate: AccountId)
    requires
        s1.wf(),
        s2.wf(),
        s1.is_candidate(candidate),
        s1.stake_removed(s2, candidate, staker),
        s1.cand(candidate).info.stake == staked_total(s1.cand(candidate).stakes@),
    ensures
        s2.cand(candidate).info.stake == staked_total(s2.cand(candidate).stakes@),
{
    let ci = cand_index(s1.candidates@, candidate);
    let rec = s1.candidates@[ci];
    let w = choose|i: int| 0 <= i < s1.candidates@.len() && #[trigger] s1.candidates@[i].account == candidate;
    lemma_cand_index(s1.candidates@, w);
    if in_stakes(rec.stakes@, staker) {
        let j = stake_index(rec.stakes@, staker);
        let k = choose|k: int| 0 <= k < rec.stakes@.len() && #[trigger] rec.stakes@[k].staker == staker;
        assert(s1.record_wf(rec));
        lemma_stake_index(rec.stakes@, k);
        lemma_cand_index(s2.candidates@, ci);
        lemma_staked_total_element(rec.stakes@, j);
        lemma_staked_total_remove(rec.stakes@, j);
    }
}

/// Invulnerables receive no staking rewards: rewarding one as a collator is always skipped.
pub proof fn law_invulnerables_get_no_rewards(s: Pallet, who: AccountId, blocks: u32, session: SessionIndex)
    requires
        s.wf(),
        s.invulnerables@.contains(who),
    ensures
        s.rewards_skipped(who, blocks, session),
{
    if s.is_candidate(who) {
        let i = choose|i: int| 0 <= i < s.candidates@.len() && #[trigger] s.candidates@[i].account == who;
        assert(!s.invulnerables@.contains(s.candidates@[i].account));
    }
}

/// A collator's rewards come out of the session's rewards: the rewards of its blocks never
/// exceed those of the session, its own share never exceeds them, and what is left for its
/// stakers is the rest.
pub proof fn law_collator_rewards_within_session(s: Pallet, who: AccountId, blocks: u32, session: SessionIndex)
    requires
        !s.rewards_skipped(who, blocks, session),
    ensures
        s.collator_share(blocks, session) <= s.rewards_all(blocks, session) <= s.rewards_of(session),
{
    let total = s.rewards_of(session) as int;
    let rewardable = s.total_blocks_of(session).1 as int;
    let b = blocks as int;
    let m = sat_mul(s.rewards_of(session), blocks as u64) as int;
    assert(m <= total * b) by (nonlinear_arith)
        requires
            m == (if total * b > u64::MAX { u64::MAX as int } else { total * b }),
    ;
    assert(m / rewardable <= total) by (nonlinear_arith)
        requires
            0 <= m <= total * b,
            0 < rewardable,
            0 <= b <= rewardable,
            0 <= total,
    ;
    let all = s.rewards_all(blocks, session) as int;
    let pts = s.collator_reward_percentage.points();
    crate::arith::lemma_mul_div_le(all, pts, 100);
}

/// The stakes of `w` on the candidate records `recs`, summed.
pub open spec fn stake_sum(recs: Seq<CandidateRecord>, w: AccountId) -> int
    decreases recs.len(),
{
    if recs.len() == 0 {
        0
    } else {
        stake_sum(recs.drop_last(), w) + stake_in(recs.last().stakes@, w).stake
    }
}

/// The stakes of `w` on all candidates and former candidates, summed.
pub open spec fn staker_total(p: Pallet, w: AccountId) -> int {
    stake_sum(p.candidates@, w) + stake_sum(p.retained@, w)
}

/// Replacing one record changes the sum by the change of that record's stake.
proof fn lemma_stake_sum_update(recs: Seq<CandidateRecord>, i: int, r: CandidateRecord, w: AccountId)
    requires
        0 <= i < recs.len(),
    ensures
        stake_sum(recs.update(i, r), w) == stake_sum(recs, w) - stake_in(recs[i].stakes@, w).stake
            + stake_in(r.stakes@, w).stake,
    decreases recs.len(),
{
    let u = recs.update(i, r);
    if i == recs.len() - 1 {
        assert(u.drop_last() =~= recs.drop_last());
    } else {
        assert(u.drop_last() =~= recs.drop_last().update(i, r));
        lemma_stake_sum_update(recs.drop_last(), i, r, w);
    }
}

/// A staker's stake on one record is part of the sum.
proof fn lemma_stake_sum_element(recs: Seq<CandidateRecord>, i: int, w: AccountId)
    requires
        0 <= i < recs.len(),
    ensures
        stake_in(recs[i].stakes@, w).stake <= stake_sum(recs, w),
    decreases recs.len(),
{
    lemma_stake_sum_nonneg(recs.drop_last(), w);
    if i < recs.len() - 1 {
        lemma_stake_sum_element(recs.drop_last(), i, w);
    }
}

/// A sum of stakes is never negative.
proof fn lemma_stake_sum_nonneg(recs: Seq<CandidateRecord>, w: AccountId)
    ensures
        stake_sum(recs, w) >= 0,
    decreases recs.len(),
{
    if recs.len() > 0 {
        lemma_stake_sum_nonneg(recs.drop_last(), w);
    }
}

/// The number of records of `recs` on which `w` has a stake that is not zero.
pub open spec fn stake_count(recs: Seq<CandidateRecord>, w: AccountId) -> int
    decreases recs.len(),
{
    if recs.len() == 0 {
        0
    } else {
        stake_count(recs.drop_last(), w) + if stake_in(recs.last().stakes@, w).stake > 0 { 1int } else { 0int }
    }
}

/// The number of candidates and former candidates on which `w` has a stake that is not zero.
pub open spec fn staker_count(p: Pallet, w: AccountId) -> int {
    stake_count(p.candidates@, w) + stake_count(p.retained@, w)
}

/// The record of staker `w` agrees with its stakes: it counts the candidates and former
/// candidates it has a stake on, and its stake is the sum of those stakes.
pub open spec fn staker_books(p: Pallet, w: AccountId) -> bool {
    &&& p.user_stake_of(w).stake == staker_total(p, w)
    &&& p.user_stake_of(w).count == staker_count(p, w)
}

/// Replacing one record changes the count by the change of that record's contribution.
proof fn lemma_stake_count_update(recs: Seq<CandidateRecord>, i: int, r: CandidateRecord, w: AccountId)
    requires
        0 <= i < recs.len(),
    ensures
        stake_count(recs.update(i, r), w) == stake_count(recs, w) - (if stake_in(
            recs[i].stakes@,
            w,
        ).stake > 0 {
            1int
        } else {
            0int
        }) + (if stake_in(r.stakes@, w).stake > 0 {
            1int
        } else {
            0int
        }),
    decreases recs.len(),
{
    let u = recs.update(i, r);
    if i == recs.len() - 1 {
        assert(u.drop_last() =~= recs.drop_last());
    } else {
        assert(u.drop_last() =~= recs.drop_last().update(i, r));
        lemma_stake_count_update(recs.drop_last(), i, r, w);
    }
}

/// A count is never negative, and a record with a stake counts.
proof fn lemma_stake_count_element(recs: Seq<CandidateRecord>, i: int, w: AccountId)
    requires
        0 <= i < recs.len(),
    ensures
        stake_in(recs[i].stakes@, w).stake > 0 ==> stake_count(recs, w) >= 1,
    decreases recs.len(),
{
    lemma_stake_count_nonneg(recs.drop_last(), w);
    if i < recs.len() - 1 {
        lemma_stake_count_element(recs.drop_last(), i, w);
    }
}

/// A count is never negative, and when it is zero the stakes sum to zero.
proof fn lemma_stake_count_nonneg(recs: Seq<CandidateRecord>, w: AccountId)
    ensures
        stake_count(recs, w) >= 0,
        stake_count(recs, w) == 0 ==> stake_sum(recs, w) == 0,
    decreases recs.len(),
{
    if recs.len() > 0 {
        lemma_stake_count_nonneg(recs.drop_last(), w);
        lemma_stake_sum_nonneg(recs.drop_last(), w);
    }
}

/// The position of a staker's stake in the record of `candidate` after a stake of `amount`
/// has the staker's stake grown by `amount`.
proof fn lemma_staked_entry(s: Pallet, s2: Pallet, staker: AccountId, candidate: AccountId, amount: Balance)
    requires
        s.wf(),
        s2.wf(),
        s.staked(s2, staker, candidate, amount),
    ensures
        stake_in(s2.candidates@[cand_index(s.candidates@, candidate)].stakes@, staker).stake == stake_in(
            s.candidates@[cand_index(s.candidates@, candidate)].stakes@,
            staker,
        ).stake.saturating_add(amount),
        s2.candidates@ == s.candidates@.update(
            cand_index(s.candidates@, candidate),
            s2.candidates@[cand_index(s.candidates@, candidate)],
        ),
{
    let ci = cand_index(s.candidates@, candidate);
    let rec = s.candidates@[ci];
    let new_rec = s2.candidates@[ci];
    let j = stake_index(rec.stakes@, staker);
    assert(s2.candidates@ =~= s.candidates@.update(ci, new_rec));
    assert(s2.record_wf(s2.candidates@[ci]));
    if j >= 0 {
        assert(in_stakes(rec.stakes@, staker));
        let k = choose|k: int| 0 <= k < rec.stakes@.len() && #[trigger] rec.stakes@[k].staker == staker;
        assert(0 <= j < rec.stakes@.len());
        lemma_stake_index(new_rec.stakes@, j);
    } else {
        lemma_stake_index(new_rec.stakes@, rec.stakes@.len() as int);
    }
}

/// Staking keeps a staker's books: when its record counts the candidates it has a stake on
/// and its stake is the sum of those stakes, this still holds after `do_stake`, whatever its
/// result; and a staker never has more staked than it has locked.
pub proof fn law_stake_keeps_staker_books(
    s: Pallet,
    s2: Pallet,
    staker: AccountId,
    candidate: AccountId,
    amount: Balance,
)
    requires
        s.wf(),
        s2.wf(),
        s.stake_error(staker, candidate, amount) is Some ==> s2 == s,
        s.stake_error(staker, candidate, amount) is None ==> s.staked(s2, staker, candidate, amount),
        staker_books(s, staker),
        s.user_stake_of(staker).stake <= s.frozen_of(FreezeReason::Staking, staker),
    ensures
        staker_books(s2, staker),
        s2.user_stake_of(staker).stake <= s2.frozen_of(FreezeReason::Staking, staker),
{
    if s.stake_error(staker, candidate, amount) is None {
        let ci = cand_index(s.candidates@, candidate);
        let rec = s.candidates@[ci];
        let new_rec = s2.candidates@[ci];
        lemma_staked_entry(s, s2, staker, candidate, amount);
        lemma_stake_sum_element(s.candidates@, ci, staker);
        lemma_stake_sum_nonneg(s.retained@, staker);
        lemma_stake_sum_update(s.candidates@, ci, new_rec, staker);
        lemma_stake_count_update(s.candidates@, ci, new_rec, staker);
        assert(s2.user_stake@.contains_key(staker));
    }
}

/// Unstaking keeps a staker's books: when its record counts the candidates it has a stake on
/// and its stake is the sum of those stakes, this still holds after it unstakes from
/// `candidate` (a stake entry that is there is not zero, as staking never makes one).
pub proof fn law_unstake_keeps_staker_books(s: Pallet, s2: Pallet, staker: AccountId, candidate: AccountId)
    requires
        s.wf(),
        s.stake_removed(s2, candidate, staker),
        staker_books(s, staker),
        s.has_stake_entry(candidate, staker) ==> s.stake_of(candidate, staker).stake > 0,
    ensures
        staker_books(s2, staker),
        s2.user_stake_of(staker).stake == s.user_stake_of(staker).stake - s.stake_of(candidate, staker).stake,
{
    let amount = s.stake_of(candidate, staker).stake;
    if s.has_stake_entry(candidate, staker) {
        let u = s.user_stake_of(staker);
        if s.is_candidate(candidate) {
            let ci = cand_index(s.candidates@, candidate);
            let w = choose|i: int| 0 <= i < s.candidates@.len() && #[trigger] s.candidates@[i].account == candidate;
            lemma_cand_index(s.candidates@, w);
            let rec = s.candidates@[ci];
            assert(s.record_wf(rec));
            let j = stake_index(rec.stakes@, staker);
            let k = choose|k: int| 0 <= k < rec.stakes@.len() && #[trigger] rec.stakes@[k].staker == staker;
            lemma_stake_index(rec.stakes@, k);
            crate::staking::lemma_remove_stake_distinct(rec.stakes@, j);
            let new_rec = s2.candidates@[ci];
            assert(s2.candidates@ =~= s.candidates@.update(ci, new_rec));
            lemma_stake_sum_update(s.candidates@, ci, new_rec, staker);
            lemma_stake_count_update(s.candidates@, ci, new_rec, staker);
            lemma_stake_sum_element(s.candidates@, ci, staker);
            lemma_stake_count_element(s.candidates@, ci, staker);
            lemma_stake_sum_nonneg(s.retained@, staker);
            lemma_stake_count_nonneg(s.retained@, staker);
            lemma_stake_count_nonneg(s2.candidates@, staker);
        } else {
            let ri = cand_index(s.retained@, candidate);
            let w = choose|i: int| 0 <= i < s.retained@.len() && #[trigger] s.retained@[i].account == candidate;
            lemma_cand_index(s.retained@, w);
            let rec = s.retained@[ri];
            assert(s.record_wf(rec));
            let j = stake_index(rec.stakes@, staker);
            let k = choose|k: int| 0 <= k < rec.stakes@.len() && #[trigger] rec.stakes@[k].staker == staker;
            lemma_stake_index(rec.stakes@, k);
            crate::staking::lemma_remove_stake_distinct(rec.stakes@, j);
            let new_rec = s2.retained@[ri];
            assert(s2.retained@ =~= s.retained@.update(ri, new_rec));
            lemma_stake_sum_update(s.retained@, ri, new_rec, staker);
            lemma_stake_count_update(s.retained@, ri, new_rec, staker);
            lemma_stake_sum_element(s.retained@, ri, staker);
            lemma_stake_count_element(s.retained@, ri, staker);
            lemma_stake_sum_nonneg(s.candidates@, staker);
            lemma_stake_count_nonneg(s.candidates@, staker);
            lemma_stake_count_nonneg(s2.retained@, staker);
        }
        lemma_stake_count_nonneg(s2.candidates@, staker);
        lemma_stake_count_nonneg(s2.retained@, staker);
        let u2 = crate::staking::user_after_unstake(
            u,
            amount,
            s.block_number,
            s.config.restake_unlock_delay,
            s.is_candidate(candidate),
        );
        assert(s2.user_stake_of(staker) == u2);
    }
}

/// Adding an invulnerable never makes an account occur twice: when no invulnerable is listed
/// twice before `add_invulnerable` succeeds, none is after it, so the sorted list stays
/// strictly increasing.
pub proof fn law_add_invulnerable_keeps_no_duplicates(s: Pallet, s2: Pallet, who: AccountId)
    requires
        s.invulnerable_added(s2, who),
        s.invulnerables@.no_duplicates(),
    ensures
        s2.invulnerables@.no_duplicates(),
        forall|i: int, j: int|
            0 <= i < j < s2.invulnerables@.len() ==> #[trigger] s2.invulnerables@[i] < #[trigger] s2.invulnerables@[j],
{
    broadcast use vstd::multiset::group_multiset_axioms;
    broadcast use vstd::seq_lib::group_to_multiset_ensures;

    let a = s.invulnerables@;
    let b = s2.invulnerables@;
    a.lemma_multiset_has_no_duplicates();
    assert forall|x: AccountId| b.to_multiset().contains(x) implies b.to_multiset().count(x) == 1 by {
        if x == who {
            assert(a.to_multiset().count(x) == 0);
        } else {
            assert(a.to_multiset().contains(x));
        }
    }
    b.lemma_multiset_has_no_duplicates_conv();
    assert forall|i: int, j: int| 0 <= i < j < b.len() implies #[trigger] b[i] < #[trigger] b[j] by {
        assert(b[i] <= b[j]);
        assert(b[i] != b[j]);
    }
}

/// The meter `m` has the limit `limit` and has consumed no more than it.
pub open spec fn within_limit(m: WeightMeter, limit: Weight) -> bool {
    m.consumed.all_lte(limit) && m.limit == limit
}

/// Every release queue of `v` holds at most the largest number of requests, and that number
/// is at least one.
pub open spec fn queues_bounded(v: StoreView) -> bool {
    &&& v.max_staked_candidates >= 1
    &&& forall|i: int| 0 <= i < v.release_queues.len() ==> (#[trigger] v.release_queues[i]).requests.len()
        <= v.max_staked_candidates
}

/// A walk over ascending keys has a place to resume from.
pub proof fn lemma_start_exists(keys: Seq<int>, cursor: Option<int>)
    requires
        ascending(keys),
    ensures
        after_cursor(keys, cursor, start_of(keys, cursor)),
    decreases keys.len(),
{
    match cursor {
        None => {
            assert(after_cursor(keys, cursor, 0));
        },
        Some(c) => {
            if keys.len() == 0 {
                assert(after_cursor(keys, cursor, 0));
            } else if keys.last() <= c {
                assert forall|i: int| 0 <= i < keys.len() implies keys[i] <= c by {
                    if i < keys.len() - 1 {
                        assert(keys[i] < keys[keys.len() - 1]);
                    }
                }
                assert(after_cursor(keys, cursor, keys.len() as int));
            } else {
                let d = keys.drop_last();
                assert(ascending(d));
                lemma_start_exists(d, cursor);
                let q = start_of(d, cursor);
                assert forall|i: int| 0 <= i < q implies keys[i] <= c by {
                    assert(keys[i] == d[i]);
                }
                assert forall|i: int| q <= i < keys.len() implies keys[i] > c by {
                    if i < d.len() {
                        assert(keys[i] == d[i]);
                    }
                }
                assert(after_cursor(keys, cursor, q));
            }
        },
    }
}

/// Migrating a longer release queue weighs at least as much.
proof fn lemma_queue_weight_monotone(w: MigrationWeights, n1: u64, n2: u64)
    requires
        n1 <= n2,
    ensures
        w.spec_release_queue(n1).all_lte(w.spec_release_queue(n2)),
{
    let a = w.release_queue_per_request.ref_time as int;
    let b = w.release_queue_per_request.proof_size as int;
    assert(a * n1 <= a * n2) by (nonlinear_arith)
        requires
            0 <= a,
            n1 <= n2,
            0 <= n1,
    ;
    assert(b * n1 <= b * n2) by (nonlinear_arith)
        requires
            0 <= b,
            n1 <= n2,
            0 <= n1,
    ;
}

/// The walk over release queues never takes the meter past its limit when no queue weighs
/// more than the weight it checks for.
proof fn lemma_spend_queues_within(meter: WeightMeter, w: MigrationWeights, required: Weight, es: Seq<QueueView>)
    requires
        meter.consumed.all_lte(meter.limit),
        w.spec_release_queue(1).all_lte(required),
        forall|i: int| 0 <= i < es.len() ==> w.spec_release_queue((#[trigger] es[i]).requests.len() as u64).all_lte(required),
    ensures
        within_limit(spend_queues(meter, w, required, es).2, meter.limit),
    decreases es.len(),
{
    if meter.spec_can_consume(required) && es.len() > 0 {
        let next = meter.spec_consume(w.spec_release_queue(es[0].requests.len() as u64));
        assert forall|i: int| 0 <= i < es.drop_first().len() implies w.spec_release_queue(
            (#[trigger] es.drop_first()[i]).requests.len() as u64,
        ).all_lte(required) by {
            assert(es.drop_first()[i] == es[i + 1]);
        }
        lemma_spend_queues_within(next, w, required, es.drop_first());
    }
}

/// Setting the storage version stays within the meter's limit.
proof fn lemma_set_version_within(v: StoreView, meter: WeightMeter)
    requires
        meter.consumed.all_lte(meter.limit),
    ensures
        within_limit(spec_set_storage_version(v, meter).1, meter.limit),
{
}

/// Resetting the rewards, and what follows, stays within the meter's limit.
proof fn lemma_reset_within(v: StoreView, meter: WeightMeter)
    requires
        meter.consumed.all_lte(meter.limit),
    ensures
        within_limit(spec_reset_rewards(v, meter).1, meter.limit),
{
    if meter.spec_can_consume(v.weights.db_write) {
        lemma_set_version_within(
            StoreView { claimable_rewards: 0, ..v },
            meter.spec_consume(v.weights.db_write),
        );
    }
}

/// Migrating bond releases, and what follows, stays within the meter's limit.
proof fn lemma_bond_releases_within(v: StoreView, meter: WeightMeter, cursor: Option<AccountId>)
    requires
        meter.consumed.all_lte(meter.limit),
    ensures
        within_limit(spec_migrate_candidacy_bond_releases(v, meter, cursor).1, meter.limit),
{
    let s = v.bond_releases;
    let p = start_of(ranks(s), account_cursor(cursor));
    law_spend_within_limit(meter, v.weights.candidacy_bond_release, (s.len() - p) as nat);
    let b = bond_release_batch(v, meter, cursor);
    lemma_reset_within(b.0, b.1);
}

/// Migrating candidacy bonds, and what follows, stays within the meter's limit.
proof fn lemma_bonds_within(v: StoreView, meter: WeightMeter, cursor: Option<AccountId>)
    requires
        meter.consumed.all_lte(meter.limit),
    ensures
        within_limit(spec_migrate_candidacy_bond(v, meter, cursor).1, meter.limit),
{
    let s = v.candidates;
    let p = start_of(ranks(s), account_cursor(cursor));
    law_spend_within_limit(meter, v.weights.candidacy_bond, (s.len() - p) as nat);
    let b = candidacy_bond_batch(v, meter, cursor);
    lemma_bond_releases_within(b.0, b.1, None);
}

/// Migrating release queues, and what follows, stays within the meter's limit.
proof fn lemma_queues_within(v: StoreView, meter: WeightMeter, cursor: Option<AccountId>)
    requires
        meter.consumed.all_lte(meter.limit),
        queues_bounded(v),
        ascending(queue_ranks(v.release_queues)),
    ensures
        within_limit(spec_migrate_release_queue(v, meter, cursor).1, meter.limit),
{
    let s = v.release_queues;
    let p = start_of(queue_ranks(s), account_cursor(cursor));
    lemma_start_exists(queue_ranks(s), account_cursor(cursor));
    let max = v.max_staked_candidates as u64;
    let required = v.weights.spec_release_queue(max);
    let es = s.subrange(p, s.len() as int);
    lemma_queue_weight_monotone(v.weights, 1, max);
    assert forall|i: int| 0 <= i < es.len() implies v.weights.spec_release_queue(
        (#[trigger] es[i]).requests.len() as u64,
    ).all_lte(required) by {
        assert(es[i] == s[p + i]);
        assert(s[p + i].requests.len() <= v.max_staked_candidates);
        lemma_queue_weight_monotone(v.weights, es[i].requests.len() as u64, max);
    }
    lemma_spend_queues_within(meter, v.weights, required, es);
    let b = release_queue_batch(v, meter, cursor);
    lemma_bonds_within(b.0, b.1, None);
}

/// Migrating auto-compounding preferences, and what follows, stays within the meter's limit.
proof fn lemma_autocompound_within(v: StoreView, meter: WeightMeter, cursor: Option<AccountId>)
    requires
        meter.consumed.all_lte(meter.limit),
        queues_bounded(v),
        ascending(queue_ranks(v.release_queues)),
    ensures
        within_limit(spec_migrate_autocompounding(v, meter, cursor).1, meter.limit),
{
    let s = v.auto_compound;
    let p = start_of(ranks(s), account_cursor(cursor));
    law_spend_within_limit(meter, v.weights.autocompound_step, (s.len() - p) as nat);
    let b = autocompound_batch(v, meter, cursor);
    assert(b.0.release_queues == v.release_queues);
    lemma_queues_within(b.0, b.1, None);
}

/// Migrating stakes, and what follows, stays within the meter's limit.
proof fn lemma_stakes_within(v: StoreView, meter: WeightMeter, cursor: Option<(AccountId, AccountId)>)
    requires
        meter.consumed.all_lte(meter.limit),
        queues_bounded(v),
        ascending(queue_ranks(v.release_queues)),
    ensures
        within_limit(spec_migrate_stake(v, meter, cursor).1, meter.limit),
{
    let s = v.candidate_stake;
    let p = start_of(stake_ranks(s), pair_cursor(cursor));
    law_spend_within_limit(meter, v.weights.stake_step, (s.len() - p) as nat);
    let b = stake_batch(v, meter, cursor);
    assert(b.0.release_queues == v.release_queues);
    lemma_autocompound_within(b.0, b.1, None);
}

/// A migration step never takes its weight meter past its limit, nor changes the limit: when
/// the meter starts within its limit, it ends within it. This holds when every release
/// queue is no longer than the largest number of staked candidates, at least one.
pub proof fn law_step_within_meter(v: StoreView, meter: WeightMeter, cursor: Option<MigrationSteps>)
    requires
        v.wf(),
        meter.consumed.all_lte(meter.limit),
        queues_bounded(v),
    ensures
        spec_step(v, meter, cursor).1.consumed.all_lte(meter.limit),
        spec_step(v, meter, cursor).1.limit == meter.limit,
{
    if v.storage_version == 1 {
        let c = match cursor {
            Some(c) => c,
            None => MigrationSteps::MigrateStake { cursor: None },
        };
        match c {
            MigrationSteps::MigrateStake { cursor } => lemma_stakes_within(v, meter, cursor),
            MigrationSteps::MigrateAutocompounding { cursor } => lemma_autocompound_within(v, meter, cursor),
            MigrationSteps::MigrateReleaseQueue { cursor } => lemma_queues_within(v, meter, cursor),
            MigrationSteps::MigrateCandidacyBond { cursor } => lemma_bonds_within(v, meter, cursor),
            MigrationSteps::MigrateCandidacyBondReleases { cursor } => lemma_bond_releases_within(v, meter, cursor),
            MigrationSteps::ResetClaimableRewards => lemma_reset_within(v, meter),
            MigrationSteps::ChangeStorageVersion => lemma_set_version_within(v, meter),
            MigrationSteps::Noop => {},
        }
    }
}

/// Re-investing rewards keeps the books: when a staker's compounded share goes into its
/// stake on a collator, the collator's total stays the sum of the stakes placed on it, and
/// the staker's accounted stake stays the sum of its stakes (as long as nothing saturates).
pub proof fn law_compounding_keeps_totals(
    s: Pallet,
    s2: Pallet,
    staker: AccountId,
    collator: AccountId,
    reward: Balance,
)
    requires
        s.wf(),
        s2.wf(),
        s.is_candidate(collator),
        in_stakes(s.cand(collator).stakes@, staker),
        s.compounded(s2, staker, collator, reward),
        s.cand(collator).info.stake == staked_total(s.cand(collator).stakes@),
        s.user_stake_of(staker).stake == staker_total(s, staker),
        s.cand(collator).info.stake + reward <= u64::MAX,
        s.user_stake_of(staker).stake + reward <= u64::MAX,
    ensures
        s2.cand(collator).info.stake == staked_total(s2.cand(collator).stakes@),
        s2.user_stake_of(staker).stake == staker_total(s2, staker),
{
    let share = (reward * s.auto_compound_of(staker).points() / 100) as u64;
    if share != 0 {
        let ci = cand_index(s.candidates@, collator);
        let w = choose|i: int| 0 <= i < s.candidates@.len() && #[trigger] s.candidates@[i].account == collator;
        lemma_cand_index(s.candidates@, w);
        lemma_cand_index(s2.candidates@, ci);
        let rec = s.candidates@[ci];
        assert(s.record_wf(rec));
        let j = stake_index(rec.stakes@, staker);
        let k = choose|k: int| 0 <= k < rec.stakes@.len() && #[trigger] rec.stakes@[k].staker == staker;
        lemma_stake_index(rec.stakes@, k);
        crate::arith::lemma_mul_div_le(reward as int, s.auto_compound_of(staker).points(), 100);
        lemma_staked_total_element(rec.stakes@, j);
        let new_rec = s2.candidates@[ci];
        let e = rec.stakes@[j];
        let entry = StakeRecord {
            staker,
            info: crate::types::CandidateStakeInfo { session: e.info.session, stake: e.info.stake.saturating_add(share) },
        };
        lemma_staked_total_update(rec.stakes@, j, entry);
        assert(s2.record_wf(new_rec));
        lemma_stake_index(new_rec.stakes@, j);
        assert(s2.candidates@ =~= s.candidates@.update(ci, new_rec));
        lemma_stake_sum_update(s.candidates@, ci, new_rec, staker);
        assert(s2.user_stake@.contains_key(staker));
    }
}

/// What `w` can still stake: its locked funds less what it has staked and less what waits
/// out the restake delay.
pub open spec fn stakeable(p: Pallet, w: AccountId) -> Balance {
    p.frozen_of(FreezeReason::Staking, w).saturating_sub(p.user_stake_of(w).stake).saturating_sub(
        p.restake_pending(w),
    )
}

/// Unstaking from a candidate gives nothing to stake again at once: the amount taken out
/// waits out the restake delay, so what the staker can stake is the same as before (when the
/// delay is not zero, the staker's record agrees with its stakes, a stake entry that is there
/// is not zero, and the waiting amount does not saturate).
pub proof fn law_unstaked_funds_wait(s: Pallet, s2: Pallet, candidate: AccountId, w: AccountId)
    requires
        s.wf(),
        s.is_candidate(candidate),
        s.stake_removed(s2, candidate, w),
        s.config.restake_unlock_delay > 0,
        staker_books(s, w),
        s.has_stake_entry(candidate, w) ==> s.stake_of(candidate, w).stake > 0,
        s.restake_pending(w) + s.stake_of(candidate, w).stake <= u64::MAX,
    ensures
        s2.restake_pending(w) == s.restake_pending(w) + s.stake_of(candidate, w).stake,
        stakeable(s2, w) == stakeable(s, w),
{
    if s.has_stake_entry(candidate, w) {
        law_unstake_keeps_staker_books(s, s2, w, candidate);
        assert(s2.user_stake@.contains_key(w));
        assert(s2.ledger == s.ledger);
    }
}

/// A candidate record agrees with its stakes: it counts one staker per stake, its total is
/// their sum, and no stake is zero.
pub open spec fn candidate_books(rec: CandidateRecord) -> bool {
    &&& rec.info.stakers == rec.stakes@.len()
    &&& rec.info.stake == staked_total(rec.stakes@)
    &&& forall|i: int| 0 <= i < rec.stakes@.len() ==> #[trigger] rec.stakes@[i].info.stake > 0
}

/// Staking keeps a candidate's books: when its record counts one staker per stake, its total
/// is their sum and no stake is zero, this still holds after `do_stake`, whatever its result
/// (as long as the candidate's total does not saturate).
pub proof fn law_stake_keeps_candidate_books(
    s: Pallet,
    s2: Pallet,
    staker: AccountId,
    candidate: AccountId,
    amount: Balance,
)
    requires
        s.wf(),
        s2.wf(),
        s.stake_error(staker, candidate, amount) is Some ==> s2 == s,
        s.stake_error(staker, candidate, amount) is None ==> s.staked(s2, staker, candidate, amount),
        s.is_candidate(candidate),
        candidate_books(s.cand(candidate)),
        s.cand(candidate).info.stake + amount <= u64::MAX,
    ensures
        s2.is_candidate(candidate),
        candidate_books(s2.cand(candidate)),
{
    if s.stake_error(staker, candidate, amount) is None {
        law_stake_keeps_candidate_total(s, s2, staker, candidate, amount);
        let ci = cand_index(s.candidates@, candidate);
        let w = choose|i: int| 0 <= i < s.candidates@.len() && #[trigger] s.candidates@[i].account == candidate;
        lemma_cand_index(s.candidates@, w);
        lemma_cand_index(s2.candidates@, ci);
        let rec = s.candidates@[ci];
        let new_rec = s2.candidates@[ci];
        let j = stake_index(rec.stakes@, staker);
        if in_stakes(rec.stakes@, staker) {
            let k = choose|k: int| 0 <= k < rec.stakes@.len() && #[trigger] rec.stakes@[k].staker == staker;
            assert(s.record_wf(rec));
            lemma_stake_index(rec.stakes@, k);
            assert forall|i: int| 0 <= i < new_rec.stakes@.len() implies #[trigger] new_rec.stakes@[i].info.stake
                > 0 by {
                if i != j {
                    assert(new_rec.stakes@[i] == rec.stakes@[i]);
                }
            }
        } else {
            assert forall|i: int| 0 <= i < new_rec.stakes@.len() implies #[trigger] new_rec.stakes@[i].info.stake
                > 0 by {
                if i < rec.stakes@.len() {
                    assert(new_rec.stakes@[i] == rec.stakes@[i]);
                }
            }
        }
    }
}

/// Unstaking keeps a candidate's books: when its record counts one staker per stake, its
/// total is their sum and no stake is zero, this still holds after a staker unstakes from it.
pub proof fn law_unstake_keeps_candidate_books(s: Pallet, s2: Pallet, staker: AccountId, candidate: AccountId)
    requires
        s.wf(),
        s2.wf(),
        s.is_candidate(candidate),
        s.stake_removed(s2, candidate, staker),
        candidate_books(s.cand(candidate)),
    ensures
        s2.is_candidate(candidate),
        candidate_books(s2.cand(candidate)),
{
    law_unstake_keeps_candidate_total(s, s2, staker, candidate);
    let ci = cand_index(s.candidates@, candidate);
    let w = choose|i: int| 0 <= i < s.candidates@.len() && #[trigger] s.candidates@[i].account == candidate;
    lemma_cand_index(s.candidates@, w);
    lemma_cand_index(s2.candidates@, ci);
    let rec = s.candidates@[ci];
    let new_rec = s2.candidates@[ci];
    if in_stakes(rec.stakes@, staker) {
        let j = stake_index(rec.stakes@, staker);
        let k = choose|k: int| 0 <= k < rec.stakes@.len() && #[trigger] rec.stakes@[k].staker == staker;
        assert(s.record_wf(rec));
        lemma_stake_index(rec.stakes@, k);
        assert(rec.stakes@[j].info.stake > 0);
        assert forall|i: int| 0 <= i < new_rec.stakes@.len() implies #[trigger] new_rec.stakes@[i].info.stake
            > 0 by {
            let i2 = if i < j { i } else { i + 1 };
            assert(new_rec.stakes@[i] == rec.stakes@[i2]);
        }
    }
}

/// The rewards of a collator's blocks are its part of the session's rewards, in proportion
/// to the blocks it authored out of the rewardable blocks of the session, rounded down: with
/// `R` the session's rewards, `b` its blocks and `n` the rewardable blocks, they are the
/// largest amount `x` with `x * n <= R * b` (when `R * b` does not overflow a balance). The
/// collator's own share is its percentage of them, rounded down.
pub proof fn law_collator_rewards_proportional(s: Pallet, who: AccountId, blocks: u32, session: SessionIndex)
    requires
        !s.rewards_skipped(who, blocks, session),
        s.rewards_of(session) * blocks <= u64::MAX,
    ensures
        s.rewards_all(blocks, session) * s.total_blocks_of(session).1 <= s.rewards_of(session) * blocks,
        s.rewards_of(session) * blocks < (s.rewards_all(blocks, session) + 1) * s.total_blocks_of(session).1,
        s.collator_share(blocks, session) * 100 <= s.rewards_all(blocks, session)
            * s.collator_reward_percentage.points(),
        s.rewards_all(blocks, session) * s.collator_reward_percentage.points() < (s.collator_share(
            blocks,
            session,
        ) + 1) * 100,
{
    let total = s.rewards_of(session) as int;
    let n = s.total_blocks_of(session).1 as int;
    let b = blocks as int;
    let m = total * b;
    assert(sat_mul(s.rewards_of(session), blocks as u64) as int == m);
    let all = s.rewards_all(blocks, session) as int;
    assert(all == m / n);
    assert(all * n <= m && m < (all + 1) * n) by (nonlinear_arith)
        requires
            0 < n,
            0 <= m,
            all == m / n,
    ;
    let pts = s.collator_reward_percentage.points();
    crate::arith::lemma_mul_div_le(all, pts, 100);
    let sh = s.collator_share(blocks, session) as int;
    assert(sh == all * pts / 100);
    assert(sh * 100 <= all * pts && all * pts < (sh + 1) * 100) by (nonlinear_arith)
        requires
            0 <= all,
            0 <= pts,
            sh == all * pts / 100,
    ;
}

/// Staking more on a candidate keeps the session recorded when the staker first staked on
/// it, and grows its stake by the amount; a first stake records the current session.
pub proof fn law_stake_keeps_first_session(
    s: Pallet,
    s2: Pallet,
    staker: AccountId,
    candidate: AccountId,
    amount: Balance,
)
    requires
        s.wf(),
        s2.wf(),
        s.is_candidate(candidate),
        s.staked(s2, staker, candidate, amount),
        stake_in(s.cand(candidate).stakes@, staker).stake + amount <= u64::MAX,
    ensures
        s2.is_candidate(candidate),
        stake_in(s2.cand(candidate).stakes@, staker).stake == stake_in(s.cand(candidate).stakes@, staker).stake
            + amount,
        stake_in(s.cand(candidate).stakes@, staker).stake > 0 ==> stake_in(s2.cand(candidate).stakes@, staker).session
            == stake_in(s.cand(candidate).stakes@, staker).session,
        stake_in(s.cand(candidate).stakes@, staker).stake == 0 ==> stake_in(s2.cand(candidate).stakes@, staker).session
            == s.current_session,
{
    let ci = cand_index(s.candidates@, candidate);
    let w = choose|i: int| 0 <= i < s.candidates@.len() && #[trigger] s.candidates@[i].account == candidate;
    lemma_cand_index(s.candidates@, w);
    lemma_cand_index(s2.candidates@, ci);
    let rec = s.candidates@[ci];
    let new_rec = s2.candidates@[ci];
    let j = stake_index(rec.stakes@, staker);
    assert(s2.record_wf(new_rec));
    if in_stakes(rec.stakes@, staker) {
        let k = choose|k: int| 0 <= k < rec.stakes@.len() && #[trigger] rec.stakes@[k].staker == staker;
        assert(s.record_wf(rec));
        lemma_stake_index(rec.stakes@, k);
        lemma_stake_index(new_rec.stakes@, j);
    } else {
        lemma_stake_index(new_rec.stakes@, rec.stakes@.len() as int);
    }
}

/// The free balance an account can lock is its balance less its staking, releasing and
/// candidacy-bond freezes (nothing when they cover it): funds being released or bonded
/// cannot be locked again. Locking succeeds exactly when a signed account asks for a
/// non-zero amount that fits in that free balance.
pub proof fn law_free_balance_excludes_freezes(s: Pallet, who: AccountId, amount: Balance)
    ensures
        ({
            let a = s.ledger.account(who);
            let frozen = a.staking + a.releasing + a.bond;
            &&& frozen <= a.balance ==> s.spec_free_balance(who) == a.balance - frozen
            &&& frozen >= a.balance ==> s.spec_free_balance(who) == 0
            &&& s.lock_error(Origin::Signed(who), amount) is None <==> (amount > 0 && amount + frozen
                <= a.balance)
        }),
{
}

/// Claiming releases from the releasing freeze exactly what leaves the queue and the bond
/// release: the releasing freeze goes down by the amounts of the requests that leave the
/// queue plus the bond released (as long as the releasing freeze covers them and the sums
/// do not overflow a balance).
pub proof fn law_claim_releases_what_leaves(s: Pallet, s2: Pallet, who: AccountId)
    requires
        s.claimed(s2, who),
        exact_sum(s.release_queue_of(who)) + (if s.bond_release_of(who) is Some {
            s.bond_release_of(who)->0.bond as int
        } else {
            0
        }) <= s.frozen_of(FreezeReason::Releasing, who),
    ensures
        s.frozen_of(FreezeReason::Releasing, who) - s2.frozen_of(FreezeReason::Releasing, who) == exact_sum(
            s.release_queue_of(who),
        ) - exact_sum(s2.release_queue_of(who)) + (if s.bond_release_of(who) is Some {
            s.bond_release_of(who)->0.bond as int
        } else {
            0
        }) - (if s2.bond_release_of(who) is Some {
            s2.bond_release_of(who)->0.bond as int
        } else {
            0
        }),
{
    let q = s.release_queue_of(who);
    let now = s.block_number;
    lemma_split_due(q, now);
    lemma_exact_sum_nonneg(q.filter(crate::release::waiting(now)));
    lemma_exact_sum_nonneg(q.filter(crate::release::due(now)));
    lemma_sat_sum_exact(q.filter(crate::release::due(now)));
    if s.bond_due(who) {
        assert(s2.bond_release_of(who) is None);
    } else {
        assert(s2.bond_releases@ == s.bond_releases@);
    }
}

/// The amounts of a queue split between the due and the waiting requests.
proof fn lemma_split_due(q: Seq<ReleaseRequest>, now: BlockNumber)
    ensures
        exact_sum(q) == exact_sum(q.filter(crate::release::due(now))) + exact_sum(
            q.filter(crate::release::waiting(now)),
        ),
    decreases q.len(),
{
    if q.len() > 0 {
        let d = q.drop_last();
        lemma_split_due(d, now);
        assert(d.push(q.last()) =~= q);
        d.lemma_filter_push(q.last(), crate::release::due(now));
        d.lemma_filter_push(q.last(), crate::release::waiting(now));
        let fd = d.filter(crate::release::due(now));
        let fw = d.filter(crate::release::waiting(now));
        assert(fd.push(q.last()).drop_last() =~= fd);
        assert(fw.push(q.last()).drop_last() =~= fw);
    }
}

/// A sum of amounts is never negative.
proof fn lemma_exact_sum_nonneg(q: Seq<ReleaseRequest>)
    ensures
        exact_sum(q) >= 0,
    decreases q.len(),
{
    if q.len() > 0 {
        lemma_exact_sum_nonneg(q.drop_last());
    }
}

/// A saturating sum is the exact sum when that fits in a balance.
proof fn lemma_sat_sum_exact(q: Seq<ReleaseRequest>)
    ensures
        exact_sum(q) <= u64::MAX ==> crate::release::sat_sum(q) == exact_sum(q),
    decreases q.len(),
{
    if q.len() > 0 {
        lemma_sat_sum_exact(q.drop_last());
        lemma_exact_sum_nonneg(q.drop_last());
    }
}

} // verus!
