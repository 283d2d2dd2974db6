//! Release queues: funds that are no longer staked or bonded are released after a delay.

use vstd::prelude::*;

use crate::pallet::Pallet;
use crate::types::{
    AccountId, Balance, BlockNumber, DispatchError, Error, Event, FreezeReason, Origin,
    PendingRestake, ReleaseRequest, UserStakeInfo,
};

verus! {

broadcast use vstd::std_specs::hash::group_hash_axioms;

/// The sum of the amounts of a sequence of requests, each addition saturating.
pub open spec fn sat_sum(s: Seq<ReleaseRequest>) -> Balance
    decreases s.len(),
{
    if s.len() == 0 {
        0
    } else {
        sat_sum(s.drop_last()).saturating_add(s.last().amount)
    }
}

/// Whether a release request is due at block `now`.
pub open spec fn due(now: BlockNumber) -> spec_fn(ReleaseRequest) -> bool {
    |r: ReleaseRequest| r.block <= now
}

/// Whether a release request is still waiting at block `now`.
pub open spec fn waiting(now: BlockNumber) -> spec_fn(ReleaseRequest) -> bool {
    |r: ReleaseRequest| r.block > now
}

impl Pallet {
    /// In `after`, the release queue of `who` is `q` and every other queue is as here.
    pub open spec fn queue_set(self, after: Self, who: AccountId, q: Seq<ReleaseRequest>) -> bool {
        &&& after.release_queue_of(who) == q
        &&& forall|w: AccountId| w != who ==> #[trigger] after.release_queues@.contains_key(w)
            == self.release_queues@.contains_key(w)
        &&& forall|w: AccountId|
            w != who && #[trigger] self.release_queues@.contains_key(w) ==> after.release_queues@[w]
                == self.release_queues@[w]
    }

    /// The release queue of an account.
    pub fn release_queue_len(&self, who: AccountId) -> (r: usize)
        ensures
            r == self.release_queue_of(who).len(),
    {
        match self.release_queues.get(&who) {
            Some(q) => q.len(),
            None => 0,
        }
    }

    /// Freezes `amount` more of `account` as releasing, and queues a request to release it
    /// `delay` blocks from now. The freeze is raised first; the queue is bounded, and a full
    /// queue fails the request (leaving the raised freeze).
    pub fn add_to_release_queue(&mut self, account: AccountId, amount: Balance, delay: BlockNumber) -> (r: Result<
        (),
        DispatchError,
    >)
        requires
            old(self).wf(),
            old(self).block_number + delay <= u64::MAX,
        ensures
            final(self).wf(),
            final(self).ledger.account(account) == old(self).ledger.account(account).with_freeze(
                FreezeReason::Releasing,
                old(self).frozen_of(FreezeReason::Releasing, account).saturating_add(amount),
            ),
            final(self).ledger.same_except(old(self).ledger, set![account]),
            r is Err <==> old(self).release_queue_of(account).len()
                >= old(self).config.max_staked_candidates,
            r is Err ==> r->Err_0 == DispatchError::Module(Error::TooManyReleaseRequests)
                && final(self).release_queues == old(self).release_queues,
            r is Ok ==> old(self).queue_set(
                *final(self),
                account,
                old(self).release_queue_of(account).push(
                    ReleaseRequest { block: (old(self).block_number + delay) as u64, amount },
                ),
            ),
            *final(self) == (Pallet {
                ledger: final(self).ledger,
                release_queues: final(self).release_queues,
                ..*old(self)
            }),
    {
        let releasing = self.get_releasing_balance(account);
        self.ledger.set_freeze(FreezeReason::Releasing, account, releasing.saturating_add(amount));
        let len = self.release_queue_len(account);
        if len >= self.config.max_staked_candidates as usize {
            return Err(DispatchError::Module(Error::TooManyReleaseRequests));
        }
        let mut q = match self.release_queues.remove(&account) {
            Some(v) => v,
            None => Vec::new(),
        };
        q.push(ReleaseRequest { block: self.block_number + delay, amount });
        self.release_queues.insert(account, q);
        Ok(())
    }

    /// Whether the candidacy bond release of `who` is due.
    pub open spec fn bond_due(self, who: AccountId) -> bool {
        self.bond_release_of(who) is Some && self.bond_release_of(who)->0.block <= self.block_number
    }

    /// What claiming releases for `who`: the amounts of its due release requests, and its
    /// candidacy bond release when due, summed with saturation.
    pub open spec fn released_total(self, who: AccountId) -> Balance {
        let from_queue = sat_sum(self.release_queue_of(who).filter(due(self.block_number)));
        if self.bond_due(who) {
            from_queue.saturating_add(self.bond_release_of(who)->0.bond)
        } else {
            from_queue
        }
    }

    /// `after` is this state once `who` claimed what is due: every due request leaves its
    /// queue, the waiting ones stay in their order, a due candidacy bond release goes, the
    /// total released (see `released_total`) is no longer frozen as releasing, and a
    /// `StakeClaimed` event tells it when it is not zero.
    pub open spec fn claimed(self, after: Self, who: AccountId) -> bool {
        let total = self.released_total(who);
        &&& self.queue_set(after, who, self.release_queue_of(who).filter(waiting(self.block_number)))
        &&& after.release_queues@.contains_key(who) == self.release_queues@.contains_key(who)
        &&& after.bond_releases@ == if self.bond_due(who) {
            self.bond_releases@.remove(who)
        } else {
            self.bond_releases@
        }
        &&& total != 0 ==> after.ledger.account(who) == self.ledger.account(who).with_freeze(
            FreezeReason::Releasing,
            self.frozen_of(FreezeReason::Releasing, who).saturating_sub(total),
        )
        &&& total != 0 ==> after.events@ == self.events@.push(Event::StakeClaimed { staker: who, amount: total })
        &&& total == 0 ==> after.ledger == self.ledger && after.events == self.events
        &&& after.ledger.same_except(self.ledger, set![who])
        &&& after == (Pallet {
            ledger: after.ledger,
            release_queues: after.release_queues,
            bond_releases: after.bond_releases,
            events: after.events,
            ..self
        })
    }

    /// Claims everything of `who` that is due (see `claimed`): all its due release requests,
    /// wherever they stand in the queue, and its candidacy bond release. Returns the number
    /// of requests released from the queue.
    pub fn do_claim(&mut self, who: AccountId) -> (r: Result<u32, DispatchError>)
        requires
            old(self).wf(),
        ensures
            final(self).wf(),
            r == Ok::<u32, DispatchError>(
                old(self).release_queue_of(who).filter(due(old(self).block_number)).len() as u32,
            ),
            old(self).claimed(*final(self), who),
    {
        let ghost q0 = self.release_queue_of(who);
        let now = self.block_number;
        let mut total: u64 = 0;
        let mut count: usize = 0;
        proof {
            reveal(Seq::filter);
            assert(q0.take(0) =~= Seq::<ReleaseRequest>::empty());
        }
        match self.release_queues.remove(&who) {
            None => {
                proof {
                    assert(q0 =~= Seq::<ReleaseRequest>::empty());
                    reveal(Seq::filter);
                }
            },
            Some(q) => {
                assert(q@ == q0);
                assert(old(self).release_queues@.contains_key(who));
                let mut rest: Vec<ReleaseRequest> = Vec::new();
                let mut k: usize = 0;
                while k < q.len()
                    invariant
                        q@ == q0,
                        k <= q@.len(),
                        q@.len() <= u32::MAX,
                        rest@ == q@.take(k as int).filter(waiting(now)),
                        count == q@.take(k as int).filter(due(now)).len(),
                        count <= k,
                        total == sat_sum(q@.take(k as int).filter(due(now))),
                    decreases q@.len() - k,
                {
                    proof {
                        assert(q@.take(k + 1) =~= q@.take(k as int).push(q@[k as int]));
                        q@.take(k as int).lemma_filter_push(q@[k as int], due(now));
                        q@.take(k as int).lemma_filter_push(q@[k as int], waiting(now));
                    }
                    if q[k].block <= now {
                        proof {
                            let f = q@.take(k as int).filter(due(now));
                            assert(f.push(q@[k as int]).drop_last() =~= f);
                        }
                        total = total.saturating_add(q[k].amount);
                        count = count + 1;
                    } else {
                        rest.push(q[k]);
                    }
                    k = k + 1;
                }
                proof {
                    assert(q@.take(q@.len() as int) =~= q@);
                }
                self.release_queues.insert(who, rest);
            },
        }
        let bond_due = match self.bond_releases.get(&who) {
            Some(b) => b.block <= now,
            None => false,
        };
        if bond_due {
            let b = self.bond_releases.remove(&who);
            match b {
                Some(b) => {
                    total = total.saturating_add(b.bond);
                },
                None => {},
            }
        }
        if total != 0 {
            let releasing = self.get_releasing_balance(who);
            self.ledger.set_freeze(FreezeReason::Releasing, who, releasing.saturating_sub(total));
            self.deposit_event(Event::StakeClaimed { staker: who, amount: total });
        }
        proof {
            assert(self.release_queue_of(who) =~= q0.filter(waiting(now)));
            q0.filter_lemma(waiting(now));
            assert(self.release_queues@.contains_key(who) ==> self.release_queues@[who]@.len()
                <= self.config.max_staked_candidates);
        }
        Ok(count as u32)
    }

    /// Claims everything of the signer that is due (see `do_claim`).
    pub fn claim(&mut self, origin: Origin) -> (r: Result<(), DispatchError>)
        requires
            old(self).wf(),
        ensures
            final(self).wf(),
            !(origin is Signed) ==> *final(self) == *old(self) && r == Err::<(), DispatchError>(
                DispatchError::BadOrigin,
            ),
            origin is Signed ==> r is Ok && old(self).claimed(*final(self), origin->Signed_0),
    {
        let who = Self::ensure_signed(origin)?;
        self.do_claim(who)?;
        Ok(())
    }

    /// `after` is this state once `amount` more of the funds of `who` were locked for
    /// staking: the staking freeze grows by it (saturating), and a `LockExtended` event tells
    /// the new total.
    pub open spec fn lock_extended(self, after: Self, who: AccountId, amount: Balance) -> bool {
        let total = self.frozen_of(FreezeReason::Staking, who).saturating_add(amount);
        &&& after.ledger.account(who) == self.ledger.account(who).with_freeze(FreezeReason::Staking, total)
        &&& after.ledger.same_except(self.ledger, set![who])
        &&& after.events@ == self.events@.push(Event::LockExtended { total })
        &&& after == (Pallet { ledger: after.ledger, events: after.events, ..self })
    }

    /// The stake records of users once `who` unlocked `amount`: what of it was waiting out
    /// the restake delay is no longer waiting.
    pub open spec fn user_stake_after_unlock(self, who: AccountId, amount: Balance) -> Map<
        AccountId,
        UserStakeInfo,
    > {
        let us = self.user_stake_of(who);
        let pending = self.restake_pending(who);
        if self.user_stake@.contains_key(who) {
            self.user_stake@.insert(
                who,
                UserStakeInfo {
                    last_unstake: if pending > amount {
                        Some(PendingRestake { amount: (pending - amount) as u64, block: us.last_unstake->0.block })
                    } else {
                        None
                    },
                    ..us
                },
            )
        } else {
            self.user_stake@
        }
    }

    /// `after` is this state once `amount` of the locked funds of `who` were unlocked: the
    /// staking freeze goes down by it and the releasing freeze up by it (both saturating), a
    /// request to release it after the stake delay is queued, and the part of it that was
    /// waiting out the restake delay is no longer waiting.
    pub open spec fn unlocked(self, after: Self, who: AccountId, amount: Balance) -> bool {
        let a = self.ledger.account(who);
        &&& after.ledger.account(who) == a.with_freeze(
            FreezeReason::Staking,
            a.staking.saturating_sub(amount),
        ).with_freeze(FreezeReason::Releasing, a.releasing.saturating_add(amount))
        &&& after.ledger.same_except(self.ledger, set![who])
        &&& self.queue_set(
            after,
            who,
            self.release_queue_of(who).push(
                ReleaseRequest { block: (self.block_number + self.config.stake_unlock_delay) as u64, amount },
            ),
        )
        &&& after.user_stake@ == self.user_stake_after_unlock(who, amount)
        &&& after == (Pallet {
            ledger: after.ledger,
            release_queues: after.release_queues,
            user_stake: after.user_stake,
            ..self
        })
    }

    /// The error that `lock` fails with, if any.
    pub open spec fn lock_error(self, origin: Origin, amount: Balance) -> Option<DispatchError> {
        match origin {
            Origin::Signed(who) => {
                if amount == 0 {
                    Some(DispatchError::Module(Error::InvalidFundingAmount))
                } else if self.spec_free_balance(who) < amount {
                    Some(DispatchError::Module(Error::InsufficientFreeBalance))
                } else {
                    None
                }
            },
            _ => Some(DispatchError::BadOrigin),
        }
    }

    /// Locks `amount` of the signer's free funds for staking: the staking freeze grows by it
    /// (saturating), and a `LockExtended` event tells the new total.
    pub fn lock(&mut self, origin: Origin, amount: Balance) -> (r: Result<(), DispatchError>)
        requires
            old(self).wf(),
        ensures
            final(self).wf(),
            r is Err <==> (old(self).lock_error(origin, amount) is Some),
            r is Err ==> *final(self) == *old(self) && r->Err_0 == old(self).lock_error(origin, amount)->0,
            r is Ok ==> old(self).lock_extended(*final(self), origin->Signed_0, amount),
    {
        let who = Self::ensure_signed(origin)?;
        if amount == 0 {
            return Err(DispatchError::Module(Error::InvalidFundingAmount));
        }
        let available = self.get_free_balance(who);
        if available < amount {
            return Err(DispatchError::Module(Error::InsufficientFreeBalance));
        }
        let total = self.get_staked_balance(who).saturating_add(amount);
        self.ledger.set_freeze(FreezeReason::Staking, who, total);
        self.deposit_event(Event::LockExtended { total });
        Ok(())
    }

    /// The locked funds of `who` that are not accounted as staked.
    pub open spec fn unstaked_locked(self, who: AccountId) -> Balance {
        self.frozen_of(FreezeReason::Staking, who).saturating_sub(self.user_stake_of(who).stake)
    }

    /// The amount `unlock` releases: the requested amount, or all locked funds not accounted
    /// as staked.
    pub open spec fn unlock_amount(self, who: AccountId, maybe_amount: Option<Balance>) -> Balance {
        match maybe_amount {
            Some(a) => a,
            None => self.unstaked_locked(who),
        }
    }

    /// The error that `unlock` fails with, if any: the checks in their order.
    pub open spec fn unlock_error(self, origin: Origin, maybe_amount: Option<Balance>) -> Option<
        DispatchError,
    > {
        match origin {
            Origin::Signed(who) => {
                if maybe_amount is Some && self.unstaked_locked(who) < maybe_amount->0 {
                    Some(DispatchError::Module(Error::CannotUnlock))
                } else if self.release_queue_of(who).len() >= self.config.max_staked_candidates {
                    Some(DispatchError::Module(Error::TooManyReleaseRequests))
                } else {
                    None
                }
            },
            _ => Some(DispatchError::BadOrigin),
        }
    }

    /// Unlocks locked funds of the signer that are not staked (all of them, or
    /// `maybe_amount`) and queues them to be released after the stake delay: the staking
    /// freeze goes down by the amount and the releasing freeze up by it.
    pub fn unlock(&mut self, origin: Origin, maybe_amount: Option<Balance>) -> (r: Result<
        (),
        DispatchError,
    >)
        requires
            old(self).wf(),
        ensures
            final(self).wf(),
            r is Err <==> (old(self).unlock_error(origin, maybe_amount) is Some),
            r is Err ==> *final(self) == *old(self) && r->Err_0 == old(self).unlock_error(
                origin,
                maybe_amount,
            )->0,
            r is Ok ==> old(self).unlocked(
                *final(self),
                origin->Signed_0,
                old(self).unlock_amount(origin->Signed_0, maybe_amount),
            ),
    {
        let who = Self::ensure_signed(origin)?;
        let total_staked = self.user_stake_info(who).stake;
        let staked_balance = self.get_staked_balance(who);
        let available = staked_balance.saturating_sub(total_staked);
        let amount = match maybe_amount {
            Some(desired) => {
                if available < desired {
                    return Err(DispatchError::Module(Error::CannotUnlock));
                }
                desired
            },
            None => available,
        };
        if self.release_queue_len(who) >= self.config.max_staked_candidates as usize {
            return Err(DispatchError::Module(Error::TooManyReleaseRequests));
        }
        self.ledger.set_freeze(FreezeReason::Staking, who, staked_balance.saturating_sub(amount));
        let delay = self.config.stake_unlock_delay;
        let pending = self.get_restake_pending(who);
        let res = self.add_to_release_queue(who, amount, delay);
        assert(res is Ok);
        match self.user_stake.get(&who) {
            Some(u) => {
                let us = *u;
                let last = if pending > amount {
                    match us.last_unstake {
                        Some(p) => Some(PendingRestake { amount: pending - amount, block: p.block }),
                        None => None,
                    }
                } else {
                    None
                };
                self.user_stake.insert(who, UserStakeInfo { last_unstake: last, ..us });
            },
            None => {},
        }
        Ok(())
    }
}

} // verus!
