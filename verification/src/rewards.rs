//! Rewards: what collators and their stakers receive for the blocks of a session.

use vstd::prelude::*;

use crate::arith::{spec_perbill_from_rational, Perbill, BILLION};
use crate::ledger::spec_transfer_result;
use crate::pallet::{
    cand_index, lemma_cand_index, lemma_stake_index, stake_index, Pallet, StakeRecord,
};
use crate::staking::lemma_record_update_wf;
use crate::types::{
    AccountId, Balance, CandidateInfo, CandidateStakeInfo, DispatchError, Event, FreezeReason,
    SessionIndex, UserStakeInfo,
};

verus! {

broadcast use vstd::std_specs::hash::group_hash_axioms;

/// `x * y`, saturating at the largest balance.
pub open spec fn sat_mul(x: u64, y: u64) -> u64 {
    if x * y > u64::MAX { u64::MAX } else { (x * y) as u64 }
}

/// `x * y`, saturating at the largest balance.
pub fn saturating_mul(x: u64, y: u64) -> (r: u64)
    ensures
        r == sat_mul(x, y),
{
    match x.checked_mul(y) {
        Some(v) => v,
        None => u64::MAX,
    }
}

/// The reward of a staker with `stake` out of a candidate's `total` stake, from the `pool`
/// left for stakers: the pool times the fraction `stake / total` in parts per billion, both
/// rounded down.
pub open spec fn staker_reward(stake: Balance, total: Balance, pool: Balance) -> int {
    pool * spec_perbill_from_rational(stake as int, total as int) / (BILLION as int)
}

/// The number of stakes placed before `session`.
pub open spec fn eligible_count(s: Seq<StakeRecord>, session: SessionIndex) -> nat
    decreases s.len(),
{
    if s.len() == 0 {
        0
    } else {
        eligible_count(s.drop_last(), session) + if s.last().info.session < session { 1nat } else { 0nat }
    }
}

/// The number of stakes among the first `n` of `stakes` whose reward was paid, `trace[k]`
/// being the state before the stake at position `k` was rewarded.
pub open spec fn paid_count(
    trace: Seq<Pallet>,
    stakes: Seq<StakeRecord>,
    total: Balance,
    pool: Balance,
    session: SessionIndex,
    n: nat,
) -> nat
    decreases n,
{
    if n == 0 {
        0
    } else {
        let k = n - 1;
        let e = stakes[k];
        let paid = e.info.session < session && trace[k].reward_succeeds(
            e.staker,
            staker_reward(e.info.stake, total, pool) as u64,
        );
        paid_count(trace, stakes, total, pool, session, (n - 1) as nat) + if paid { 1nat } else { 0nat }
    }
}

/// The count of paid rewards over a front of the trace depends only on that front.
pub proof fn lemma_paid_count_prefix(
    t1: Seq<Pallet>,
    t2: Seq<Pallet>,
    stakes: Seq<StakeRecord>,
    total: Balance,
    pool: Balance,
    session: SessionIndex,
    n: nat,
)
    requires
        n <= t1.len(),
        n <= t2.len(),
        forall|k: int| 0 <= k < n ==> t1[k] == t2[k],
    ensures
        paid_count(t1, stakes, total, pool, session, n) == paid_count(t2, stakes, total, pool, session, n),
    decreases n,
{
    if n > 0 {
        lemma_paid_count_prefix(t1, t2, stakes, total, pool, session, (n - 1) as nat);
    }
}

impl Pallet {
    /// Whether paying a reward of `amount` to `who` from the reward pot succeeds.
    pub open spec fn reward_succeeds(self, who: AccountId, amount: Balance) -> bool {
        amount == 0 || spec_transfer_result(self.ledger, self.spec_account_id() as u64, who, amount, true) is Ok
    }

    /// `after` is this state once a reward of `amount` was paid to `who` from the reward pot,
    /// keeping the pot alive: the transfer and a `StakingRewardReceived` event; nothing when
    /// the amount is zero or the transfer fails.
    pub open spec fn reward_paid(self, after: Self, who: AccountId, amount: Balance, session: SessionIndex) -> bool {
        let pot = self.spec_account_id() as u64;
        if amount == 0 || !self.reward_succeeds(who, amount) {
            after == self
        } else {
            &&& self.ledger.transferred(after.ledger, pot, who, amount, true)
            &&& after.events@ == self.events@.push(
                Event::StakingRewardReceived { staker: who, amount, session },
            )
            &&& after == (Pallet { ledger: after.ledger, events: after.events, ..self })
        }
    }

    /// `after` is this state once `staker` re-invested its auto-compound share of `reward`
    /// in its stake on `collator`: its staking freeze is extended by the share, and the share
    /// is added to its stake on the collator, to the collator's total and to the staker's
    /// total stake, with a `StakeAdded` event; nothing when the share is zero.
    pub open spec fn compounded(self, after: Self, staker: AccountId, collator: AccountId, reward: Balance) -> bool {
        let share = (reward * self.auto_compound_of(staker).points() / 100) as u64;
        let ci = cand_index(self.candidates@, collator);
        let rec = self.candidates@[ci];
        let j = stake_index(rec.stakes@, staker);
        let e = rec.stakes@[j];
        let us = self.user_stake_of(staker);
        let a = self.ledger.account(staker);
        if share == 0 {
            after == self
        } else {
            &&& after.candidates@ == self.candidates@.update(ci, after.candidates@[ci])
            &&& after.candidates@[ci].account == collator
            &&& after.candidates@[ci].info == (CandidateInfo {
                stake: rec.info.stake.saturating_add(share),
                stakers: rec.info.stakers,
            })
            &&& after.candidates@[ci].stakes@ == rec.stakes@.update(
                j,
                StakeRecord {
                    staker,
                    info: CandidateStakeInfo { session: e.info.session, stake: e.info.stake.saturating_add(share) },
                },
            )
            &&& after.user_stake@ == self.user_stake@.insert(
                staker,
                UserStakeInfo { stake: us.stake.saturating_add(share), ..us },
            )
            &&& after.ledger.account(staker) == a.with_freeze(
                FreezeReason::Staking,
                a.staking.saturating_add(share),
            )
            &&& after.ledger.same_except(self.ledger, set![staker])
            &&& after.events@ == self.events@.push(Event::StakeAdded { staker, candidate: collator, amount: share })
            &&& after == (Pallet {
                candidates: after.candidates,
                user_stake: after.user_stake,
                ledger: after.ledger,
                events: after.events,
                ..self
            })
        }
    }

    /// `after` is this state once the staker of `entry` got its reward for `session` out of
    /// `pool`, with `total` the candidate's stake: nothing for a stake placed during or after
    /// the session; otherwise the reward is paid and, when paid, the auto-compound share is
    /// re-invested.
    pub open spec fn staker_rewarded(
        self,
        after: Self,
        collator: AccountId,
        entry: StakeRecord,
        total: Balance,
        pool: Balance,
        session: SessionIndex,
    ) -> bool {
        let amount = staker_reward(entry.info.stake, total, pool) as u64;
        if entry.info.session >= session || !self.reward_succeeds(entry.staker, amount) {
            after == self
        } else {
            exists|mid: Pallet|
                #[trigger] self.reward_paid(mid, entry.staker, amount, session) && mid.compounded(
                    after,
                    entry.staker,
                    collator,
                    amount,
                )
        }
    }

    /// Pays a reward of `reward` to `who` from the reward pot, keeping the pot alive.
    pub fn do_reward_single(&mut self, who: AccountId, reward: Balance, session: SessionIndex) -> (r: Result<
        (),
        DispatchError,
    >)
        requires
            old(self).wf(),
        ensures
            final(self).wf(),
            r is Ok <==> old(self).reward_succeeds(who, reward),
            r is Err ==> r->Err_0 == DispatchError::Token(
                spec_transfer_result(old(self).ledger, old(self).spec_account_id() as u64, who, reward, true)->Err_0,
            ),
            old(self).reward_paid(*final(self), who, reward, session),
    {
        if reward != 0 {
            let pot = self.account_id();
            match self.ledger.transfer(pot, who, reward, true) {
                Err(e) => {
                    return Err(DispatchError::Token(e));
                },
                Ok(()) => {},
            }
            self.deposit_event(Event::StakingRewardReceived { staker: who, amount: reward, session });
        }
        Ok(())
    }

    /// Rewards the stake at position `i` of candidate `ci` for `session`: the staker gets its
    /// share of `pool` in proportion to its stake out of `total`, and re-invests its
    /// auto-compound share of it. Returns whether the stake counts as rewarded and whether the
    /// reward was paid.
    fn reward_staker(
        &mut self,
        ci: usize,
        i: usize,
        total: Balance,
        pool: Balance,
        session: SessionIndex,
    ) -> (r: (bool, bool))
        requires
            old(self).wf(),
            ci < old(self).candidates@.len(),
            i < old(self).candidates@[ci as int].stakes@.len(),
        ensures
            final(self).wf(),
            ({
                let collator = old(self).candidates@[ci as int].account;
                let entry = old(self).candidates@[ci as int].stakes@[i as int];
                let amount = staker_reward(entry.info.stake, total, pool) as u64;
                &&& old(self).staker_rewarded(*final(self), collator, entry, total, pool, session)
                &&& r.0 == (entry.info.session < session)
                &&& r.1 == (r.0 && old(self).reward_succeeds(entry.staker, amount))
            }),
            final(self).candidates@.len() == old(self).candidates@.len(),
            forall|k: int|
                0 <= k < old(self).candidates@.len() ==> (#[trigger] final(self).candidates@[k]).account
                    == old(self).candidates@[k].account,
            forall|k: int|
                0 <= k < old(self).candidates@.len() && k != ci ==> #[trigger] final(self).candidates@[k]
                    == old(self).candidates@[k],
            final(self).candidates@[ci as int].stakes@.len() == old(self).candidates@[ci as int].stakes@.len(),
            forall|j: int|
                0 <= j < old(self).candidates@[ci as int].stakes@.len() && j != i
                    ==> #[trigger] final(self).candidates@[ci as int].stakes@[j]
                    == old(self).candidates@[ci as int].stakes@[j],
    {
        let collator = self.candidates[ci].account;
        let entry = self.candidates[ci].stakes[i];
        if entry.info.session >= session {
            return (false, false);
        }
        let amount = Perbill::from_rational(entry.info.stake, total).mul_floor(pool);
        proof {
            crate::arith::lemma_perbill_from_rational_bounds(entry.info.stake as int, total as int);
            crate::arith::lemma_mul_div_le(
                pool as int,
                spec_perbill_from_rational(entry.info.stake as int, total as int),
                BILLION as int,
            );
        }
        let ghost before = *self;
        match self.do_reward_single(entry.staker, amount, session) {
            Err(_) => {
                return (true, false);
            },
            Ok(()) => {},
        }
        let ghost mid = *self;
        let percent = match self.auto_compound.get(&entry.staker) {
            Some(p) => *p,
            None => crate::arith::Percent::zero(),
        };
        let share = percent.mul_floor(amount);
        proof {
            lemma_cand_index(self.candidates@, ci as int);
            lemma_stake_index(self.candidates@[ci as int].stakes@, i as int);
        }
        if share != 0 {
            let staked = self.get_staked_balance(entry.staker);
            self.ledger.set_freeze(FreezeReason::Staking, entry.staker, staked.saturating_add(share));
            let us = self.user_stake_info(entry.staker);
            self.user_stake.insert(entry.staker, UserStakeInfo { stake: us.stake.saturating_add(share), ..us });
            let ghost old_cands = self.candidates@;
            let mut rec = self.candidates.remove(ci);
            let e = rec.stakes[i];
            rec.stakes.set(
                i,
                StakeRecord {
                    staker: e.staker,
                    info: CandidateStakeInfo { session: e.info.session, stake: e.info.stake.saturating_add(share) },
                },
            );
            rec.info = CandidateInfo { stake: rec.info.stake.saturating_add(share), stakers: rec.info.stakers };
            self.candidates.insert(ci, rec);
            self.deposit_event(Event::StakeAdded { staker: entry.staker, candidate: collator, amount: share });
            proof {
                assert(self.candidates@ =~= old_cands.update(ci as int, rec));
                let s0 = old_cands[ci as int].stakes@;
                let s1 = rec.stakes@;
                assert(mid.record_wf(old_cands[ci as int]));
                assert forall|a: int, b: int|
                    0 <= a < s1.len() && 0 <= b < s1.len() && a != b implies #[trigger] s1[a].staker
                    != #[trigger] s1[b].staker by {
                    assert(s1[a].staker == s0[a].staker && s1[b].staker == s0[b].staker);
                }
                lemma_record_update_wf(mid, *self, ci as int);
            }
        }
        proof {
            assert(before.reward_paid(mid, entry.staker, amount, session));
            assert(mid.compounded(*self, entry.staker, collator, amount));
        }
        (true, true)
    }

    /// Whether no rewards are given to `collator` for `blocks` blocks of `session`: it is no
    /// candidate, no block of the session was produced by a candidate, or it claims more blocks
    /// than candidates produced.
    pub open spec fn rewards_skipped(self, collator: AccountId, blocks: u32, session: SessionIndex) -> bool {
        let rewardable = self.total_blocks_of(session).1;
        !self.is_candidate(collator) || rewardable == 0 || blocks > rewardable
    }

    /// The rewards of the blocks: the session's rewards times the blocks (saturating), divided
    /// by the blocks produced by candidates.
    pub open spec fn rewards_all(self, blocks: u32, session: SessionIndex) -> u64 {
        (sat_mul(self.rewards_of(session), blocks as u64) / (self.total_blocks_of(session).1 as u64)) as u64
    }

    /// The share of the rewards of the blocks that goes to the collator.
    pub open spec fn collator_share(self, blocks: u32, session: SessionIndex) -> u64 {
        (self.rewards_all(blocks, session) * self.collator_reward_percentage.points() / 100) as u64
    }

    /// `after` is this state once `collator` was rewarded for `blocks` blocks of `session`, and
    /// `r` counts the stakes rewarded and the rewards paid: the collator is paid its share; then,
    /// when it has stake, each of its stakes in order is rewarded out of what is left
    /// (`staker_rewarded`).
    pub open spec fn collator_rewarded(
        self,
        after: Self,
        collator: AccountId,
        blocks: u32,
        session: SessionIndex,
        r: (u32, u32),
    ) -> bool {
        let info = self.cand(collator).info;
        let stakes = self.cand(collator).stakes@;
        let share = self.collator_share(blocks, session);
        let pool = (self.rewards_all(blocks, session) - share) as u64;
        exists|trace: Seq<Pallet>|
            {
                &&& #[trigger] trace.len() == stakes.len() + 1
                &&& self.reward_paid(trace[0], collator, share, session)
                &&& info.stake == 0 ==> after == trace[0] && r == (0u32, 0u32)
                &&& info.stake != 0 ==> {
                    &&& forall|k: int|
                        0 <= k < stakes.len() ==> #[trigger] trace[k].staker_rewarded(
                            trace[k + 1],
                            collator,
                            stakes[k],
                            info.stake,
                            pool,
                            session,
                        )
                    &&& after == trace[stakes.len() as int]
                    &&& r.0 == eligible_count(stakes, session)
                    &&& r.1 == paid_count(trace, stakes, info.stake, pool, session, stakes.len())
                }
            }
    }

    /// Distributes the rewards of `collator` for `blocks` blocks it produced in `session`: its
    /// share of the rewards, then a share for each of its stakers that staked before the
    /// session, in proportion to their stake. Returns the number of stakes rewarded and the
    /// number of rewards paid. Failed payments are skipped.
    pub fn do_reward_collator(&mut self, collator: AccountId, blocks: u32, session: SessionIndex) -> (r: (u32, u32))
        requires
            old(self).wf(),
        ensures
            final(self).wf(),
            old(self).rewards_skipped(collator, blocks, session) ==> *final(self) == *old(self) && r == (
            0u32, 0u32),
            !old(self).rewards_skipped(collator, blocks, session) ==> old(self).collator_rewarded(
                *final(self),
                collator,
                blocks,
                session,
                r,
            ),
    {
        let ci = match self.find_candidate(collator) {
            Some(i) => i,
            None => {
                return (0, 0);
            },
        };
        proof {
            lemma_cand_index(self.candidates@, ci as int);
        }
        let rewardable: u32 = match self.total_blocks.get(&session) {
            Some(t) => t.1,
            None => 0,
        };
        if rewardable == 0 {
            return (0, 0);
        }
        if blocks > rewardable {
            return (0, 0);
        }
        let info = self.candidates[ci].info;
        let total_rewards: u64 = match self.rewards.get(&session) {
            Some(v) => *v,
            None => 0,
        };
        let rewards_all: u64 = saturating_mul(total_rewards, blocks as u64) / (rewardable as u64);
        let share = self.collator_reward_percentage.mul_floor(rewards_all);
        let ghost start = *self;
        let _ = self.do_reward_single(collator, share, session);
        if info.stake == 0 {
            proof {
                let t = Seq::new((start.cand(collator).stakes@.len() + 1) as nat, |k: int| *self);
                assert(t.len() == start.cand(collator).stakes@.len() + 1);
                assert(start.reward_paid(t[0], collator, share, session));
            }
            return (0, 0);
        }
        let ghost mut trace: Seq<Pallet> = seq![*self];
        let pool = rewards_all.saturating_sub(share);
        let ghost stakes = start.candidates@[ci as int].stakes@;
        let n = self.candidates[ci].stakes.len();
        let mut total_stakers: u32 = 0;
        let mut total_compound: u32 = 0;
        let mut i: usize = 0;
        assert(stakes.take(0) =~= Seq::<StakeRecord>::empty());
        while i < n
            invariant
                self.wf(),
                start.wf(),
                0 <= i <= n,
                n == stakes.len(),
                ci < self.candidates@.len(),
                self.candidates@.len() == start.candidates@.len(),
                forall|k: int|
                    0 <= k < start.candidates@.len() ==> (#[trigger] self.candidates@[k]).account
                        == start.candidates@[k].account,
                self.candidates@[ci as int].stakes@.len() == n,
                forall|j: int| i <= j < n ==> #[trigger] self.candidates@[ci as int].stakes@[j] == stakes[j],
                start.candidates@[ci as int].account == collator,
                trace.len() == i + 1,
                trace[i as int] == *self,
                start.reward_paid(trace[0], collator, share, session),
                forall|k: int|
                    0 <= k < i ==> #[trigger] trace[k].staker_rewarded(
                        trace[k + 1],
                        collator,
                        stakes[k],
                        info.stake,
                        pool,
                        session,
                    ),
                total_stakers == eligible_count(stakes.take(i as int), session),
                total_compound == paid_count(trace, stakes, info.stake, pool, session, i as nat),
                total_compound <= total_stakers <= i,
                stakes.len() <= info.stakers,
            decreases n - i,
        {
            let ghost before = *self;
            let (counted, paid) = self.reward_staker(ci, i, info.stake, pool, session);
            proof {
                assert(stakes.take(i as int + 1).drop_last() =~= stakes.take(i as int));
                let old_trace = trace;
                trace = trace.push(*self);
                assert(trace.drop_last() =~= old_trace);
                assert(trace[i as int] == before);
                assert forall|k: int|
                    0 <= k < i + 1 implies #[trigger] trace[k].staker_rewarded(
                        trace[k + 1],
                        collator,
                        stakes[k],
                        info.stake,
                        pool,
                        session,
                    ) by {
                    if k < i {
                        assert(trace[k] == trace.drop_last()[k]);
                        assert(trace[k + 1] == trace.drop_last()[k + 1]);
                    }
                }
                assert forall|j: int| i + 1 <= j < n implies #[trigger] self.candidates@[ci as int].stakes@[j]
                    == stakes[j] by {
                    assert(self.candidates@[ci as int].stakes@[j] == before.candidates@[ci as int].stakes@[j]);
                }
                assert(paid_count(trace, stakes, info.stake, pool, session, i as nat) == paid_count(
                    trace.drop_last(),
                    stakes,
                    info.stake,
                    pool,
                    session,
                    i as nat,
                )) by {
                    lemma_paid_count_prefix(trace.drop_last(), trace, stakes, info.stake, pool, session, i as nat);
                }
            }
            if counted {
                total_stakers = total_stakers + 1;
            }
            if paid {
                total_compound = total_compound + 1;
            }
            proof {
                assert(before.candidates@[ci as int].stakes@[i as int] == stakes[i as int]);
                assert(paid_count(trace, stakes, info.stake, pool, session, (i + 1) as nat) == paid_count(
                    trace,
                    stakes,
                    info.stake,
                    pool,
                    session,
                    i as nat,
                ) + if paid { 1nat } else { 0nat });
            }
            i = i + 1;
        }
        assert(stakes.take(n as int) =~= stakes);
        (total_stakers, total_compound)
    }
}

} // verus!
