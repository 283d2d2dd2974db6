//! Staking on candidates: staking, unstaking, release queues and candidacy.

use vstd::prelude::*;

use crate::pallet::{
    cand_index, distinct_stakers, in_stakes, lemma_cand_index, lemma_stake_index, stake_in,
    stake_index, CandidateRecord, Pallet, StakeRecord,
};
use crate::types::{
    AccountId, Balance, BlockNumber, CandidateInfo, CandidateStakeInfo, DispatchError, Error,
    Event, FreezeReason, Origin, PendingRestake, UserStakeInfo,
};

verus! {

broadcast use vstd::std_specs::hash::group_hash_axioms;

/// The position of a staker's stake in a list of stakes.
pub fn find_stake(stakes: &Vec<StakeRecord>, who: AccountId) -> (r: Option<usize>)
    ensures
        match r {
            Some(j) => j < stakes@.len() && stakes@[j as int].staker == who,
            None => !in_stakes(stakes@, who),
        },
{
    let mut j: usize = 0;
    while j < stakes.len()
        invariant
            j <= stakes@.len(),
            forall|k: int| 0 <= k < j ==> #[trigger] stakes@[k].staker != who,
        decreases stakes@.len() - j,
    {
        if stakes[j].staker == who {
            return Some(j);
        }
        j = j + 1;
    }
    None
}

/// Replacing one candidate record by a well-formed one with the same account keeps the
/// state well formed.
pub proof fn lemma_record_update_wf(p: Pallet, q: Pallet, ci: int)
    requires
        p.wf(),
        0 <= ci < p.candidates@.len(),
        q.candidates@ == p.candidates@.update(ci, q.candidates@[ci]),
        q.candidates@[ci].account == p.candidates@[ci].account,
        p.record_wf(q.candidates@[ci]),
        q.config == p.config,
        q.invulnerables == p.invulnerables,
        q.release_queues == p.release_queues,
        q.block_number == p.block_number,
        q.retained == p.retained,
    ensures
        q.wf(),
{
    assert forall|i: int, j: int|
        0 <= i < q.candidates@.len() && 0 <= j < q.retained@.len() implies #[trigger] q.candidates@[i].account
        != #[trigger] q.retained@[j].account by {
        assert(q.candidates@[i].account == p.candidates@[i].account);
    }
    assert forall|k: int|
        0 <= k < q.candidates@.len() implies !q.invulnerables@.contains(
            #[trigger] q.candidates@[k].account,
        ) by {
        if k != ci {
            assert(q.candidates@[k] == p.candidates@[k]);
        }
    }
    assert forall|k: int| 0 <= k < q.candidates@.len() implies q.record_wf(#[trigger] q.candidates@[k]) by {
        if k != ci {
            assert(q.candidates@[k] == p.candidates@[k]);
        }
    }
    assert forall|a: int, b: int|
        0 <= a < q.candidates@.len() && 0 <= b < q.candidates@.len() && a != b implies #[trigger] q.candidates@[a].account
        != #[trigger] q.candidates@[b].account by {
        assert(p.candidates@[a].account != p.candidates@[b].account);
    }
}

/// Replacing one kept record of a former candidate by a well-formed one with the same
/// account keeps the state well formed.
pub proof fn lemma_retained_update_wf(p: Pallet, q: Pallet, ri: int)
    requires
        p.wf(),
        0 <= ri < p.retained@.len(),
        q.retained@ == p.retained@.update(ri, q.retained@[ri]),
        q.retained@[ri].account == p.retained@[ri].account,
        p.record_wf(q.retained@[ri]),
        q.config == p.config,
        q.invulnerables == p.invulnerables,
        q.release_queues == p.release_queues,
        q.block_number == p.block_number,
        q.candidates == p.candidates,
    ensures
        q.wf(),
{
    assert forall|k: int| 0 <= k < q.retained@.len() implies q.record_wf(#[trigger] q.retained@[k]) by {
        if k != ri {
            assert(q.retained@[k] == p.retained@[k]);
        }
    }
    assert forall|a: int, b: int|
        0 <= a < q.retained@.len() && 0 <= b < q.retained@.len() && a != b implies #[trigger] q.retained@[a].account
        != #[trigger] q.retained@[b].account by {
        assert(p.retained@[a].account != p.retained@[b].account);
    }
    assert forall|i: int, j: int|
        0 <= i < q.candidates@.len() && 0 <= j < q.retained@.len() implies #[trigger] q.candidates@[i].account
        != #[trigger] q.retained@[j].account by {
        assert(q.retained@[j].account == p.retained@[j].account);
    }
}

/// Adding the stake of a new staker keeps the stakers distinct.
pub proof fn lemma_push_stake_distinct(s: Seq<StakeRecord>, e: StakeRecord)
    requires
        distinct_stakers(s),
        !in_stakes(s, e.staker),
    ensures
        distinct_stakers(s.push(e)),
{
    let t = s.push(e);
    assert forall|a: int, b: int|
        0 <= a < t.len() && 0 <= b < t.len() && a != b implies #[trigger] t[a].staker
        != #[trigger] t[b].staker by {
        if a == s.len() {
            assert(t[b] == s[b]);
        } else if b == s.len() {
            assert(t[a] == s[a]);
        }
    }
}

/// Removing one stake keeps the stakers distinct.
pub proof fn lemma_remove_stake_distinct(s: Seq<StakeRecord>, j: int)
    requires
        distinct_stakers(s),
        0 <= j < s.len(),
    ensures
        distinct_stakers(s.remove(j)),
        !in_stakes(s.remove(j), s[j].staker),
{
    let t = s.remove(j);
    assert forall|a: int, b: int|
        0 <= a < t.len() && 0 <= b < t.len() && a != b implies #[trigger] t[a].staker
        != #[trigger] t[b].staker by {
        let a2 = if a < j { a } else { a + 1 };
        let b2 = if b < j { b } else { b + 1 };
        assert(t[a] == s[a2]);
        assert(t[b] == s[b2]);
    }
    if in_stakes(t, s[j].staker) {
        let a = choose|a: int| 0 <= a < t.len() && #[trigger] t[a].staker == s[j].staker;
        let a2 = if a < j { a } else { a + 1 };
        assert(t[a] == s[a2]);
    }
}

/// The record `us` of a staker once a stake of `amount` was taken out at block `now`: one
/// staked candidate less and `amount` less stake (nothing left when it counted at most one
/// candidate); when the stake was on a candidate (not on a former one), `amount` more cannot
/// be staked again before `now + delay` (what was pending and has not passed yet adds to it).
pub open spec fn user_after_unstake(
    us: UserStakeInfo,
    amount: Balance,
    now: BlockNumber,
    delay: BlockNumber,
    on_candidate: bool,
) -> UserStakeInfo {
    let pending = if us.last_unstake is Some && now < us.last_unstake->0.block {
        us.last_unstake->0.amount
    } else {
        0
    };
    let last = if on_candidate {
        Some(PendingRestake { amount: pending.saturating_add(amount), block: (now + delay) as u64 })
    } else {
        us.last_unstake
    };
    if us.count <= 1 {
        UserStakeInfo { count: 0, stake: 0, last_unstake: last }
    } else {
        UserStakeInfo { count: (us.count - 1) as u32, stake: us.stake.saturating_sub(amount), last_unstake: last }
    }
}

/// The totals of a candidate once a stake of `amount` was removed from it.
pub open spec fn info_after_unstake(info: CandidateInfo, amount: Balance) -> CandidateInfo {
    CandidateInfo { stake: info.stake.saturating_sub(amount), stakers: info.stakers.saturating_sub(1) }
}

/// `after` is the list of records `s` once the stake entry of `staker` was taken out of the
/// record at `i`, whose totals become `info`.
pub open spec fn records_entry_removed(
    s: Seq<CandidateRecord>,
    after: Seq<CandidateRecord>,
    i: int,
    staker: AccountId,
    info: CandidateInfo,
) -> bool {
    &&& 0 <= i < s.len()
    &&& after.len() == s.len()
    &&& forall|k: int| 0 <= k < s.len() && k != i ==> #[trigger] after[k] == s[k]
    &&& after[i].account == s[i].account
    &&& after[i].info == info
    &&& after[i].stakes@ == s[i].stakes@.remove(stake_index(s[i].stakes@, staker))
}

/// Takes the stake at position `j` out of the record at position `i` of `recs`; when
/// `lower_totals` and the stake is not zero, the record's totals go down by it. Returns the
/// amount.
fn take_entry(recs: &mut Vec<CandidateRecord>, i: usize, j: usize, lower_totals: bool) -> (amount: Balance)
    requires
        i < old(recs)@.len(),
        j < old(recs)@[i as int].stakes@.len(),
        distinct_stakers(old(recs)@[i as int].stakes@),
    ensures
        amount == old(recs)@[i as int].stakes@[j as int].info.stake,
        records_entry_removed(
            old(recs)@,
            final(recs)@,
            i as int,
            old(recs)@[i as int].stakes@[j as int].staker,
            if lower_totals && amount != 0 {
                info_after_unstake(old(recs)@[i as int].info, amount)
            } else {
                old(recs)@[i as int].info
            },
        ),
        distinct_stakers(final(recs)@[i as int].stakes@),
{
    proof {
        lemma_stake_index(old(recs)@[i as int].stakes@, j as int);
        lemma_remove_stake_distinct(old(recs)@[i as int].stakes@, j as int);
    }
    let ghost before = recs@;
    let mut rec = recs.remove(i);
    let entry = rec.stakes.remove(j);
    let amount = entry.info.stake;
    if lower_totals && amount != 0 {
        rec.info = CandidateInfo {
            stake: rec.info.stake.saturating_sub(amount),
            stakers: rec.info.stakers.saturating_sub(1),
        };
    }
    recs.insert(i, rec);
    assert(recs@ =~= before.update(i as int, rec));
    amount
}

impl Pallet {
    /// The stake records of users once `staker` took `amount` out of `candidate` now (a record
    /// left with nothing goes).
    pub open spec fn user_stake_after_removal(self, staker: AccountId, candidate: AccountId, amount: Balance) -> Map<
        AccountId,
        UserStakeInfo,
    > {
        let u = user_after_unstake(
            self.user_stake_of(staker),
            amount,
            self.block_number,
            self.config.restake_unlock_delay,
            self.is_candidate(candidate),
        );
        if u == (UserStakeInfo { count: 0, stake: 0, last_unstake: None }) {
            self.user_stake@.remove(staker)
        } else {
            self.user_stake@.insert(staker, u)
        }
    }

    /// Whether `staker` has a stake entry on `candidate`, a candidate or a former one.
    pub open spec fn has_stake_entry(self, candidate: AccountId, staker: AccountId) -> bool {
        if self.is_candidate(candidate) {
            in_stakes(self.cand(candidate).stakes@, staker)
        } else {
            self.is_retained(candidate) && in_stakes(self.ret(candidate).stakes@, staker)
        }
    }

    /// `after` is this state once the stake entry of `staker` on `candidate` (a candidate or a
    /// former one) was taken out, if there is one: the entry goes, the candidate's totals go
    /// down by its amount when `lower_totals` and that amount is not zero, and the staker's
    /// record changes as `user_stake_after_removal` says; in any case a `StakeRemoved` event
    /// tells the amount (zero without an entry).
    pub open spec fn unstake_effect(self, after: Self, candidate: AccountId, staker: AccountId, lower_totals: bool) -> bool {
        let amount = self.stake_of(candidate, staker).stake;
        let ci = cand_index(self.candidates@, candidate);
        let ri = cand_index(self.retained@, candidate);
        &&& self.has_stake_entry(candidate, staker) ==> {
            &&& self.is_candidate(candidate) ==> records_entry_removed(
                self.candidates@,
                after.candidates@,
                ci,
                staker,
                if lower_totals && amount != 0 {
                    info_after_unstake(self.candidates@[ci].info, amount)
                } else {
                    self.candidates@[ci].info
                },
            ) && after.retained == self.retained
            &&& !self.is_candidate(candidate) ==> records_entry_removed(
                self.retained@,
                after.retained@,
                ri,
                staker,
                if lower_totals && amount != 0 {
                    info_after_unstake(self.retained@[ri].info, amount)
                } else {
                    self.retained@[ri].info
                },
            ) && after.candidates == self.candidates
            &&& after.user_stake@ == self.user_stake_after_removal(staker, candidate, amount)
        }
        &&& !self.has_stake_entry(candidate, staker) ==> after.candidates == self.candidates
            && after.retained == self.retained && after.user_stake == self.user_stake
        &&& after.events@ == self.events@.push(Event::StakeRemoved { staker, candidate, amount })
        &&& after == (Pallet {
            candidates: after.candidates,
            retained: after.retained,
            user_stake: after.user_stake,
            events: after.events,
            ..self
        })
    }

    /// `after` is this state once `staker` unstaked from `candidate`: its stake entry goes and
    /// the candidate's totals go down by its amount (see `unstake_effect`).
    pub open spec fn stake_removed(self, after: Self, candidate: AccountId, staker: AccountId) -> bool {
        self.unstake_effect(after, candidate, staker, true)
    }

    /// Takes the stake entry of `staker` out of `candidate`, a candidate or a former one (see
    /// `unstake_effect`), returning its amount.
    fn take_stake_entry(&mut self, candidate: AccountId, staker: AccountId, lower_totals: bool) -> (r: Balance)
        requires
            old(self).wf(),
        ensures
            final(self).wf(),
            r == old(self).stake_of(candidate, staker).stake,
            old(self).unstake_effect(*final(self), candidate, staker, lower_totals),
    {
        let ghost start = *self;
        let mut amount: Balance = 0;
        match self.find_candidate(candidate) {
            Some(ci) => {
                proof {
                    lemma_cand_index(self.candidates@, ci as int);
                }
                assert(self.record_wf(self.candidates@[ci as int]));
                match find_stake(&self.candidates[ci].stakes, staker) {
                    Some(j) => {
                        proof {
                            lemma_stake_index(self.candidates@[ci as int].stakes@, j as int);
                        }
                        let us = self.user_stake_info(staker);
                        amount = take_entry(&mut self.candidates, ci, j, lower_totals);
                        let u = self.user_after_unstake_exec(us, amount, true);
                        self.put_user_stake(staker, u);
                        proof {
                            assert(start.record_wf(start.candidates@[ci as int]));
                            assert(self.candidates@ =~= start.candidates@.update(
                                ci as int,
                                self.candidates@[ci as int],
                            ));
                            lemma_record_update_wf(start, *self, ci as int);
                        }
                    },
                    None => {},
                }
            },
            None => {
                match self.find_retained(candidate) {
                    Some(ri) => {
                        proof {
                            lemma_cand_index(self.retained@, ri as int);
                        }
                        assert(self.record_wf(self.retained@[ri as int]));
                        match find_stake(&self.retained[ri].stakes, staker) {
                            Some(j) => {
                                proof {
                                    lemma_stake_index(self.retained@[ri as int].stakes@, j as int);
                                }
                                let us = self.user_stake_info(staker);
                                amount = take_entry(&mut self.retained, ri, j, lower_totals);
                                let u = self.user_after_unstake_exec(us, amount, false);
                                self.put_user_stake(staker, u);
                                proof {
                                    assert(start.record_wf(start.retained@[ri as int]));
                                    assert(self.retained@ =~= start.retained@.update(
                                        ri as int,
                                        self.retained@[ri as int],
                                    ));
                                    lemma_retained_update_wf(start, *self, ri as int);
                                }
                            },
                            None => {},
                        }
                    },
                    None => {},
                }
            },
        }
        self.deposit_event(Event::StakeRemoved { staker, candidate, amount });
        amount
    }

    /// Takes the stake entry of `staker` out of `candidate`, a candidate or a former one, and
    /// updates the staker's record; the candidate's totals are left to the caller (see
    /// `unstake_effect`). Returns the amount, zero when there was no entry; the
    /// `StakeRemoved` event is deposited in any case.
    pub fn remove_stake(&mut self, candidate: AccountId, staker: AccountId) -> (r: Balance)
        requires
            old(self).wf(),
        ensures
            final(self).wf(),
            r == old(self).stake_of(candidate, staker).stake,
            old(self).unstake_effect(*final(self), candidate, staker, false),
    {
        self.take_stake_entry(candidate, staker, false)
    }

    /// Sets the record of `staker` to `u`, or removes it when `u` holds nothing.
    fn put_user_stake(&mut self, staker: AccountId, u: UserStakeInfo)
        ensures
            final(self).user_stake@ == if u == (UserStakeInfo { count: 0, stake: 0, last_unstake: None }) {
                old(self).user_stake@.remove(staker)
            } else {
                old(self).user_stake@.insert(staker, u)
            },
            *final(self) == (Pallet { user_stake: final(self).user_stake, ..*old(self) }),
    {
        if u.count == 0 && u.stake == 0 && u.last_unstake.is_none() {
            self.user_stake.remove(&staker);
        } else {
            self.user_stake.insert(staker, u);
        }
    }

    /// The record `us` of a staker once `amount` was taken out of one of its stakes now.
    fn user_after_unstake_exec(&self, us: UserStakeInfo, amount: Balance, on_candidate: bool) -> (r: UserStakeInfo)
        requires
            self.wf(),
        ensures
            r == user_after_unstake(us, amount, self.block_number, self.config.restake_unlock_delay, on_candidate),
    {
        let now = self.block_number;
        let pending: u64 = match us.last_unstake {
            Some(p) => if now < p.block {
                p.amount
            } else {
                0
            },
            None => 0,
        };
        let last = if on_candidate {
            Some(
                PendingRestake {
                    amount: pending.saturating_add(amount),
                    block: now + self.config.restake_unlock_delay,
                },
            )
        } else {
            us.last_unstake
        };
        if us.count <= 1 {
            UserStakeInfo { count: 0, stake: 0, last_unstake: last }
        } else {
            UserStakeInfo { count: us.count - 1, stake: us.stake.saturating_sub(amount), last_unstake: last }
        }
    }

    /// The stake of `staker` on `candidate`, a candidate or a former one.
    pub fn stake_amount(&self, candidate: AccountId, staker: AccountId) -> (r: Balance)
        requires
            self.wf(),
        ensures
            r == self.stake_of(candidate, staker).stake,
    {
        match self.find_candidate(candidate) {
            Some(ci) => {
                proof {
                    lemma_cand_index(self.candidates@, ci as int);
                }
                assert(self.record_wf(self.candidates@[ci as int]));
                match find_stake(&self.candidates[ci].stakes, staker) {
                    Some(j) => {
                        proof {
                            lemma_stake_index(self.candidates@[ci as int].stakes@, j as int);
                        }
                        self.candidates[ci].stakes[j].info.stake
                    },
                    None => 0,
                }
            },
            None => match self.find_retained(candidate) {
                Some(ri) => {
                    proof {
                        lemma_cand_index(self.retained@, ri as int);
                    }
                    assert(self.record_wf(self.retained@[ri as int]));
                    match find_stake(&self.retained[ri].stakes, staker) {
                        Some(j) => {
                            proof {
                                lemma_stake_index(self.retained@[ri as int].stakes@, j as int);
                            }
                            self.retained[ri].stakes[j].info.stake
                        },
                        None => 0,
                    }
                },
                None => 0,
            },
        }
    }

    /// The error that unstaking fails with, if any: `candidate` is neither a candidate nor a
    /// former one, or there is no stake to take out.
    pub open spec fn unstake_error(self, candidate: AccountId, staker: AccountId) -> Option<Error> {
        if !self.is_candidate(candidate) && !self.is_retained(candidate) {
            Some(Error::NotCandidate)
        } else if self.stake_of(candidate, staker).stake == 0 {
            Some(Error::NothingToUnstake)
        } else {
            None
        }
    }

    /// Removes all the stake of `staker` on `candidate`, a candidate or a former one,
    /// returning the amount unstaked (see `stake_removed`). Fails, changing nothing, when
    /// `candidate` is neither a candidate nor a former one, or when there is no stake.
    pub fn do_unstake(&mut self, staker: AccountId, candidate: AccountId) -> (r: Result<Balance, DispatchError>)
        requires
            old(self).wf(),
        ensures
            final(self).wf(),
            r is Err <==> (old(self).unstake_error(candidate, staker) is Some),
            r is Err ==> *final(self) == *old(self) && r->Err_0 == DispatchError::Module(
                old(self).unstake_error(candidate, staker)->0,
            ),
            r is Ok ==> r->Ok_0 == old(self).stake_of(candidate, staker).stake
                && old(self).stake_removed(*final(self), candidate, staker),
    {
        if self.find_candidate(candidate).is_none() && self.find_retained(candidate).is_none() {
            return Err(DispatchError::Module(Error::NotCandidate));
        }
        if self.stake_amount(candidate, staker) == 0 {
            return Err(DispatchError::Module(Error::NothingToUnstake));
        }
        let amount = self.take_stake_entry(candidate, staker, true);
        Ok(amount)
    }

    /// The error that staking `amount` of `staker` on `candidate` fails with, if any: the
    /// checks in their order. Funds unstaked less than the restake delay ago cannot be staked.
    pub open spec fn stake_error(self, staker: AccountId, candidate: AccountId, amount: Balance) -> Option<
        Error,
    > {
        let us = self.user_stake_of(staker);
        let prev = stake_in(self.cand(candidate).stakes@, staker);
        if us.count >= self.config.max_staked_candidates {
            Some(Error::TooManyStakedCandidates)
        } else if self.frozen_of(FreezeReason::Staking, staker).saturating_sub(us.stake).saturating_sub(
            self.restake_pending(staker),
        ) < amount {
            Some(Error::InsufficientLockedBalance)
        } else if !self.is_candidate(candidate) {
            Some(Error::NotCandidate)
        } else if amount == 0 || prev.stake.saturating_add(amount) < self.min_stake {
            Some(Error::InsufficientStake)
        } else if prev.stake == 0 && self.cand(candidate).info.stakers >= self.config.max_stakers {
            Some(Error::TooManyStakers)
        } else {
            None
        }
    }

    /// The stake records of users once `staker` staked `amount` more (on a candidate it had
    /// nothing on, when `first`): its total stake grows by the amount, it counts one more
    /// candidate on a first stake, and a pending restake that has passed is forgotten.
    pub open spec fn user_stake_after_stake(self, staker: AccountId, amount: Balance, first: bool) -> Map<
        AccountId,
        UserStakeInfo,
    > {
        let us = self.user_stake_of(staker);
        self.user_stake@.insert(
            staker,
            UserStakeInfo {
                count: if first { (us.count + 1) as u32 } else { us.count },
                stake: us.stake.saturating_add(amount),
                last_unstake: if self.restake_pending(staker) > 0 { us.last_unstake } else { None },
            },
        )
    }

    /// `after` is this state once `staker` staked `amount` on `candidate`: the stake is added
    /// to the staker's stake on the candidate, to the candidate's total and to the staker's
    /// total; a first stake (the staker had nothing on the candidate) also counts one more
    /// staker on the candidate and one more staked candidate for the staker, and records the
    /// current session.
    pub open spec fn staked(self, after: Self, staker: AccountId, candidate: AccountId, amount: Balance) -> bool {
        let ci = cand_index(self.candidates@, candidate);
        let rec = self.candidates@[ci];
        let j = stake_index(rec.stakes@, staker);
        let prev = stake_in(rec.stakes@, staker);
        let first = prev.stake == 0;
        let entry = StakeRecord {
            staker,
            info: CandidateStakeInfo {
                session: if first { self.current_session } else { prev.session },
                stake: prev.stake.saturating_add(amount),
            },
        };
        let new_rec = after.candidates@[ci];
        &&& 0 <= ci < self.candidates@.len()
        &&& after.candidates@.len() == self.candidates@.len()
        &&& forall|k: int|
            0 <= k < self.candidates@.len() && k != ci ==> #[trigger] after.candidates@[k]
                == self.candidates@[k]
        &&& new_rec.account == candidate
        &&& new_rec.info.stake == rec.info.stake.saturating_add(amount)
        &&& new_rec.info.stakers == if first { rec.info.stakers + 1 } else { rec.info.stakers as int }
        &&& new_rec.stakes@ == if j >= 0 { rec.stakes@.update(j, entry) } else { rec.stakes@.push(entry) }
        &&& after.user_stake@ == self.user_stake_after_stake(staker, amount, first)
        &&& after.events@ == self.events@.push(Event::StakeAdded { staker, candidate, amount })
        &&& after == (Pallet {
            candidates: after.candidates,
            user_stake: after.user_stake,
            events: after.events,
            ..self
        })
    }

    /// The stake accounted for a user.
    pub fn user_stake_info(&self, who: AccountId) -> (r: UserStakeInfo)
        ensures
            r == self.user_stake_of(who),
    {
        match self.user_stake.get(&who) {
            Some(u) => *u,
            None => UserStakeInfo { count: 0, stake: 0, last_unstake: None },
        }
    }

    /// The part of what `who` unstaked last that cannot be staked again yet.
    pub fn get_restake_pending(&self, who: AccountId) -> (r: Balance)
        ensures
            r == self.restake_pending(who),
    {
        let us = self.user_stake_info(who);
        match us.last_unstake {
            Some(p) => if self.block_number < p.block {
                p.amount
            } else {
                0
            },
            None => 0,
        }
    }

    /// Adds stake of `staker` on `candidate`.
    ///
    /// The staker may stake on a limited number of candidates and must have locked enough
    /// funds that are neither staked nor waiting out the restake delay; the amount must not be
    /// zero and the staker's stake on the candidate must reach the minimum stake.
    pub fn do_stake(&mut self, staker: AccountId, candidate: AccountId, amount: Balance) -> (r: Result<
        (),
        DispatchError,
    >)
        requires
            old(self).wf(),
        ensures
            final(self).wf(),
            r is Err <==> (old(self).stake_error(staker, candidate, amount) is Some),
            r is Err ==> *final(self) == *old(self) && r == Err::<(), DispatchError>(
                DispatchError::Module(old(self).stake_error(staker, candidate, amount)->0),
            ),
            r is Ok ==> old(self).staked(*final(self), staker, candidate, amount),
    {
        let us = self.user_stake_info(staker);
        let frozen = self.get_staked_balance(staker);
        let pending = self.get_restake_pending(staker);
        if us.count >= self.config.max_staked_candidates {
            return Err(DispatchError::Module(Error::TooManyStakedCandidates));
        }
        if frozen.saturating_sub(us.stake).saturating_sub(pending) < amount {
            return Err(DispatchError::Module(Error::InsufficientLockedBalance));
        }
        let ci = match self.find_candidate(candidate) {
            Some(i) => i,
            None => {
                return Err(DispatchError::Module(Error::NotCandidate));
            },
        };
        proof {
            lemma_cand_index(self.candidates@, ci as int);
        }
        assert(self.record_wf(self.candidates@[ci as int]));
        let js = find_stake(&self.candidates[ci].stakes, staker);
        let prev = match js {
            Some(j) => {
                proof {
                    lemma_stake_index(self.candidates@[ci as int].stakes@, j as int);
                }
                self.candidates[ci].stakes[j].info
            },
            None => CandidateStakeInfo { session: 0, stake: 0 },
        };
        let final_stake = prev.stake.saturating_add(amount);
        if amount == 0 || final_stake < self.min_stake {
            return Err(DispatchError::Module(Error::InsufficientStake));
        }
        let mut info = self.candidates[ci].info;
        let mut session = prev.session;
        let first = prev.stake == 0;
        if first {
            if info.stakers >= self.config.max_stakers {
                return Err(DispatchError::Module(Error::TooManyStakers));
            }
            info.stakers = info.stakers + 1;
            session = self.current_session;
        }
        self.user_stake.insert(
            staker,
            UserStakeInfo {
                count: if first {
                    us.count + 1
                } else {
                    us.count
                },
                stake: us.stake.saturating_add(amount),
                last_unstake: if pending > 0 {
                    us.last_unstake
                } else {
                    None
                },
            },
        );
        info.stake = info.stake.saturating_add(amount);
        let entry = StakeRecord { staker, info: CandidateStakeInfo { session, stake: final_stake } };
        let ghost old_cands = self.candidates@;
        let mut rec = self.candidates.remove(ci);
        match js {
            Some(j) => {
                rec.stakes.set(j, entry);
            },
            None => {
                rec.stakes.push(entry);
            },
        }
        rec.info = info;
        self.candidates.insert(ci, rec);
        assert(self.candidates@ =~= old_cands.update(ci as int, rec));
        self.deposit_event(Event::StakeAdded { staker, candidate, amount });
        proof {
            if js is None {
                lemma_push_stake_distinct(old_cands[ci as int].stakes@, entry);
            }
            lemma_record_update_wf(*old(self), *self, ci as int);
        }
        Ok(())
    }

    /// Stakes `amount` of the signer on `candidate` (see `do_stake`).
    pub fn stake(&mut self, origin: Origin, candidate: AccountId, amount: Balance) -> (r: Result<
        (),
        DispatchError,
    >)
        requires
            old(self).wf(),
        ensures
            final(self).wf(),
            !(origin is Signed) ==> *final(self) == *old(self) && r == Err::<(), DispatchError>(
                DispatchError::BadOrigin,
            ),
            origin is Signed ==> (r is Err <==> (old(self).stake_error(origin->Signed_0, candidate, amount) is Some)),
            origin is Signed && r is Err ==> *final(self) == *old(self) && r->Err_0 == DispatchError::Module(
                old(self).stake_error(origin->Signed_0, candidate, amount)->0,
            ),
            origin is Signed && r is Ok ==> old(self).staked(*final(self), origin->Signed_0, candidate, amount),
    {
        let who = Self::ensure_signed(origin)?;
        self.do_stake(who, candidate, amount)
    }

    /// Removes all the stake of the signer on `candidate`, a candidate or a former one (see
    /// `do_unstake`).
    pub fn unstake_from(&mut self, origin: Origin, candidate: AccountId) -> (r: Result<(), DispatchError>)
        requires
            old(self).wf(),
        ensures
            final(self).wf(),
            !(origin is Signed) ==> *final(self) == *old(self) && r == Err::<(), DispatchError>(
                DispatchError::BadOrigin,
            ),
            origin is Signed ==> (r is Err <==> old(self).unstake_error(candidate, origin->Signed_0) is Some),
            origin is Signed && r is Err ==> *final(self) == *old(self) && r->Err_0 == DispatchError::Module(
                old(self).unstake_error(candidate, origin->Signed_0)->0,
            ),
            origin is Signed && r is Ok ==> old(self).stake_removed(*final(self), candidate, origin->Signed_0),
    {
        let who = Self::ensure_signed(origin)?;
        self.do_unstake(who, candidate)?;
        Ok(())
    }

    /// The accounts of the candidates, then of the former candidates, in order.
    pub open spec fn stake_holders(self) -> Seq<AccountId> {
        self.candidates@.map_values(|r: CandidateRecord| r.account) + self.retained@.map_values(
            |r: CandidateRecord| r.account,
        )
    }

    /// `after` is this state once all stakes of `who` were removed: each candidate, then each
    /// former candidate, in order, loses the stake of `who` (see `stake_removed`).
    pub open spec fn unstaked_all(self, after: Self, who: AccountId) -> bool {
        let accts = self.stake_holders();
        exists|trace: Seq<Pallet>|
            {
                &&& #[trigger] trace.len() == accts.len() + 1
                &&& trace[0] == self
                &&& after == trace[accts.len() as int]
                &&& forall|k: int| 0 <= k < accts.len() ==> #[trigger] trace[k].stake_removed(trace[k + 1], accts[k], who)
            }
    }

    /// Removes all stake of the signer from all candidates and former candidates.
    pub fn unstake_all(&mut self, origin: Origin) -> (r: Result<(), DispatchError>)
        requires
            old(self).wf(),
        ensures
            final(self).wf(),
            !(origin is Signed) ==> *final(self) == *old(self) && r == Err::<(), DispatchError>(
                DispatchError::BadOrigin,
            ),
            origin is Signed ==> r is Ok && old(self).unstaked_all(*final(self), origin->Signed_0),
    {
        let who = Self::ensure_signed(origin)?;
        let ghost accts = self.stake_holders();
        let mut list: Vec<AccountId> = Vec::new();
        let mut k: usize = 0;
        while k < self.candidates.len()
            invariant
                k <= self.candidates@.len(),
                accts == self.stake_holders(),
                list@ == accts.take(k as int),
            decreases self.candidates@.len() - k,
        {
            list.push(self.candidates[k].account);
            proof {
                assert(accts.take(k + 1) =~= accts.take(k as int).push(accts[k as int]));
            }
            k = k + 1;
        }
        let nc = self.candidates.len();
        k = 0;
        while k < self.retained.len()
            invariant
                k <= self.retained@.len(),
                nc == self.candidates@.len(),
                accts == self.stake_holders(),
                list@ == accts.take(nc + k),
            decreases self.retained@.len() - k,
        {
            list.push(self.retained[k].account);
            proof {
                assert(accts.take(nc + k + 1) =~= accts.take(nc + k).push(accts[nc + k]));
            }
            k = k + 1;
        }
        proof {
            assert(accts.take(accts.len() as int) =~= accts);
        }
        let ghost mut trace: Seq<Pallet> = seq![*self];
        let mut i: usize = 0;
        while i < list.len()
            invariant
                self.wf(),
                i <= list@.len(),
                list@ == accts,
                trace.len() == i + 1,
                trace[0] == *old(self),
                trace[i as int] == *self,
                forall|m: int| 0 <= m < i ==> #[trigger] trace[m].stake_removed(trace[m + 1], accts[m], who),
            decreases list@.len() - i,
        {
            let _ = self.take_stake_entry(list[i], who, true);
            proof {
                let old_trace = trace;
                trace = trace.push(*self);
                assert forall|m: int| 0 <= m < i + 1 implies #[trigger] trace[m].stake_removed(
                    trace[m + 1],
                    accts[m],
                    who,
                ) by {
                    if m < i {
                        assert(trace[m] == old_trace[m] && trace[m + 1] == old_trace[m + 1]);
                    }
                }
            }
            i = i + 1;
        }
        proof {
            assert(trace.len() == accts.len() + 1);
        }
        Ok(())
    }
}

} // verus!
