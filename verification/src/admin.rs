//! The parameters of the engine, set by the update origin, and the extra reward pot.

use vstd::prelude::*;

use crate::accounts::{into_account_truncating, pallet_account};
use crate::arith::Percent;
use crate::pallet::Pallet;
use crate::types::{AccountId, Balance, DispatchError, Error, Event, Origin};

verus! {

broadcast use vstd::std_specs::hash::group_hash_axioms;

impl Pallet {
    /// The account of the reward pot.
    pub open spec fn spec_account_id(self) -> int {
        pallet_account(self.config.pot_id@)
    }

    /// The account of the extra reward pot.
    pub open spec fn spec_extra_reward_account_id(self) -> int {
        pallet_account(self.config.extra_reward_pot_id@)
    }

    /// The account of the reward pot, derived from the pot identifier.
    pub fn account_id(&self) -> (r: AccountId)
        ensures
            r == self.spec_account_id(),
    {
        into_account_truncating(self.config.pot_id)
    }

    /// The account of the extra reward pot, derived from its identifier.
    pub fn extra_reward_account_id(&self) -> (r: AccountId)
        ensures
            r == self.spec_extra_reward_account_id(),
    {
        into_account_truncating(self.config.extra_reward_pot_id)
    }

    /// Sets the desired number of candidates, at most the maximum number of desired
    /// candidates.
    pub fn set_desired_candidates(&mut self, origin: Origin, max: u32) -> (r: Result<(), DispatchError>)
        requires
            old(self).wf(),
        ensures
            final(self).wf(),
            !old(self).is_update_origin(origin) ==> *final(self) == *old(self) && r == Err::<
                (),
                DispatchError,
            >(DispatchError::BadOrigin),
            old(self).is_update_origin(origin) ==> (r is Ok <==> max
                <= old(self).config.spec_max_desired_candidates() && old(self).invulnerables@.len() + max
                >= old(self).config.min_eligible_collators),
            old(self).is_update_origin(origin) && r is Err ==> *final(self) == *old(self),
            old(self).is_update_origin(origin) && max > old(self).config.spec_max_desired_candidates() ==> r
                == Err::<(), DispatchError>(DispatchError::Module(Error::TooManyDesiredCandidates)),
            old(self).is_update_origin(origin) && max <= old(self).config.spec_max_desired_candidates()
                && old(self).invulnerables@.len() + max < old(self).config.min_eligible_collators ==> r
                == Err::<(), DispatchError>(DispatchError::Module(Error::TooFewEligibleCollators)),
            r is Ok ==> final(self).events@ == old(self).events@.push(
                Event::NewDesiredCandidates { desired_candidates: max },
            ),
            r is Ok ==> *final(self) == (Pallet {
                desired_candidates: max,
                events: final(self).events,
                ..*old(self)
            }),
    {
        self.ensure_update_origin(origin)?;
        if max > self.config.max_desired_candidates() {
            return Err(DispatchError::Module(Error::TooManyDesiredCandidates));
        }
        if (self.invulnerables.len() as u64) + (max as u64) < self.config.min_eligible_collators as u64 {
            return Err(DispatchError::Module(Error::TooFewEligibleCollators));
        }
        self.desired_candidates = max;
        self.deposit_event(Event::NewDesiredCandidates { desired_candidates: max });
        Ok(())
    }

    /// Sets the minimum candidacy bond, which may not be below the minimum stake.
    pub fn set_min_candidacy_bond(&mut self, origin: Origin, bond: Balance) -> (r: Result<(), DispatchError>)
        requires
            old(self).wf(),
        ensures
            final(self).wf(),
            r is Ok <==> old(self).is_update_origin(origin) && bond >= old(self).min_stake,
            r is Err ==> *final(self) == *old(self),
            !old(self).is_update_origin(origin) ==> r == Err::<(), DispatchError>(DispatchError::BadOrigin),
            old(self).is_update_origin(origin) && bond < old(self).min_stake ==> r == Err::<(), DispatchError>(
                DispatchError::Module(Error::InvalidCandidacyBond),
            ),
            r is Ok ==> final(self).events@ == old(self).events@.push(
                Event::NewMinCandidacyBond { bond_amount: bond },
            ),
            r is Ok ==> *final(self) == (Pallet {
                min_candidacy_bond: bond,
                events: final(self).events,
                ..*old(self)
            }),
    {
        self.ensure_update_origin(origin)?;
        if bond < self.min_stake {
            return Err(DispatchError::Module(Error::InvalidCandidacyBond));
        }
        self.min_candidacy_bond = bond;
        self.deposit_event(Event::NewMinCandidacyBond { bond_amount: bond });
        Ok(())
    }

    /// Sets the percentage of its rewards the signer re-invests; zero forgets the setting.
    pub fn set_autocompound_percentage(&mut self, origin: Origin, percent: Percent) -> (r: Result<
        (),
        DispatchError,
    >)
        requires
            old(self).wf(),
        ensures
            final(self).wf(),
            r is Ok <==> origin is Signed,
            r is Err ==> *final(self) == *old(self) && r->Err_0 == DispatchError::BadOrigin,
            r is Ok ==> final(self).auto_compound@ == if percent.parts == 0 {
                old(self).auto_compound@.remove(origin->Signed_0)
            } else {
                old(self).auto_compound@.insert(origin->Signed_0, percent)
            },
            r is Ok ==> final(self).events@ == old(self).events@.push(
                Event::AutoCompoundPercentageSet { staker: origin->Signed_0, percentage: percent },
            ),
            r is Ok ==> *final(self) == (Pallet {
                auto_compound: final(self).auto_compound,
                events: final(self).events,
                ..*old(self)
            }),
    {
        let who = Self::ensure_signed(origin)?;
        if percent.is_zero() {
            self.auto_compound.remove(&who);
        } else {
            self.auto_compound.insert(who, percent);
        }
        self.deposit_event(Event::AutoCompoundPercentageSet { staker: who, percentage: percent });
        Ok(())
    }

    /// Sets the percentage of rewards that goes to the collators.
    pub fn set_collator_reward_percentage(&mut self, origin: Origin, percent: Percent) -> (r: Result<
        (),
        DispatchError,
    >)
        requires
            old(self).wf(),
        ensures
            final(self).wf(),
            r is Ok <==> old(self).is_update_origin(origin),
            r is Err ==> *final(self) == *old(self) && r->Err_0 == DispatchError::BadOrigin,
            r is Ok ==> final(self).events@ == old(self).events@.push(
                Event::CollatorRewardPercentageSet { percentage: percent },
            ),
            r is Ok ==> *final(self) == (Pallet {
                collator_reward_percentage: percent,
                events: final(self).events,
                ..*old(self)
            }),
    {
        self.ensure_update_origin(origin)?;
        self.collator_reward_percentage = percent;
        self.deposit_event(Event::CollatorRewardPercentageSet { percentage: percent });
        Ok(())
    }

    /// Sets the per-block extra reward, which must not be zero (stopping extra rewards is
    /// `stop_extra_reward`).
    pub fn set_extra_reward(&mut self, origin: Origin, extra_reward: Balance) -> (r: Result<
        (),
        DispatchError,
    >)
        requires
            old(self).wf(),
        ensures
            final(self).wf(),
            !old(self).is_update_origin(origin) ==> *final(self) == *old(self) && r == Err::<
                (),
                DispatchError,
            >(DispatchError::BadOrigin),
            old(self).is_update_origin(origin) ==> (r is Ok <==> extra_reward != 0),
            old(self).is_update_origin(origin) && r is Err ==> *final(self) == *old(self)
                && r->Err_0 == DispatchError::Module(Error::InvalidExtraReward),
            r is Ok ==> final(self).events@ == old(self).events@.push(
                Event::ExtraRewardSet { amount: extra_reward },
            ),
            r is Ok ==> *final(self) == (Pallet {
                extra_reward,
                events: final(self).events,
                ..*old(self)
            }),
    {
        self.ensure_update_origin(origin)?;
        if extra_reward == 0 {
            return Err(DispatchError::Module(Error::InvalidExtraReward));
        }
        self.extra_reward = extra_reward;
        self.deposit_event(Event::ExtraRewardSet { amount: extra_reward });
        Ok(())
    }

    /// Sets the minimum stake, which must not exceed the minimum candidacy bond.
    pub fn set_minimum_stake(&mut self, origin: Origin, new_min_stake: Balance) -> (r: Result<
        (),
        DispatchError,
    >)
        requires
            old(self).wf(),
        ensures
            final(self).wf(),
            !old(self).is_update_origin(origin) ==> *final(self) == *old(self) && r == Err::<
                (),
                DispatchError,
            >(DispatchError::BadOrigin),
            old(self).is_update_origin(origin) ==> (r is Ok <==> new_min_stake
                <= old(self).min_candidacy_bond),
            old(self).is_update_origin(origin) && r is Err ==> *final(self) == *old(self)
                && r->Err_0 == DispatchError::Module(Error::InvalidMinStake),
            r is Ok ==> final(self).events@ == old(self).events@.push(
                Event::NewMinStake { min_stake: new_min_stake },
            ),
            r is Ok ==> *final(self) == (Pallet {
                min_stake: new_min_stake,
                events: final(self).events,
                ..*old(self)
            }),
    {
        self.ensure_update_origin(origin)?;
        if new_min_stake > self.min_candidacy_bond {
            return Err(DispatchError::Module(Error::InvalidMinStake));
        }
        self.min_stake = new_min_stake;
        self.deposit_event(Event::NewMinStake { min_stake: new_min_stake });
        Ok(())
    }

    /// Stops the extra rewards. What the extra reward pot can spend goes to the configured
    /// receiver, if any; a failed transfer does not stop the call.
    pub fn stop_extra_reward(&mut self, origin: Origin) -> (r: Result<(), DispatchError>)
        requires
            old(self).wf(),
        ensures
            final(self).wf(),
            !old(self).is_update_origin(origin) ==> *final(self) == *old(self) && r == Err::<
                (),
                DispatchError,
            >(DispatchError::BadOrigin),
            old(self).is_update_origin(origin) ==> (r is Ok <==> old(self).extra_reward != 0),
            old(self).is_update_origin(origin) && r is Err ==> *final(self) == *old(self)
                && r->Err_0 == DispatchError::Module(Error::ExtraRewardAlreadyDisabled),
            r is Ok ==> ({
                let pot = old(self).spec_extra_reward_account_id() as u64;
                let left = old(self).ledger.spec_reducible(pot, false);
                let receiver = old(self).config.extra_reward_receiver;
                &&& if left != 0 && receiver is Some {
                    old(self).ledger.transferred(final(self).ledger, pot, receiver->0, left, false)
                } else {
                    final(self).ledger == old(self).ledger
                }
                &&& final(self).events@ == old(self).events@.push(
                    Event::ExtraRewardRemoved { amount_left: left, receiver },
                )
                &&& *final(self) == (Pallet {
                    extra_reward: 0,
                    ledger: final(self).ledger,
                    events: final(self).events,
                    ..*old(self)
                })
            }),
    {
        self.ensure_update_origin(origin)?;
        if self.extra_reward == 0 {
            return Err(DispatchError::Module(Error::ExtraRewardAlreadyDisabled));
        }
        self.extra_reward = 0;
        let pot = self.extra_reward_account_id();
        let balance = self.ledger.reducible_balance(pot, false);
        let receiver = self.config.extra_reward_receiver;
        if balance != 0 {
            match receiver {
                Some(to) => {
                    let _ = self.ledger.transfer(pot, to, balance, false);
                },
                None => {},
            }
        }
        self.deposit_event(Event::ExtraRewardRemoved { amount_left: balance, receiver });
        Ok(())
    }

    /// Moves `amount` of the signer to the extra reward pot, keeping the signer alive.
    pub fn top_up_extra_rewards(&mut self, origin: Origin, amount: Balance) -> (r: Result<
        (),
        DispatchError,
    >)
        requires
            old(self).wf(),
        ensures
            final(self).wf(),
            r is Err ==> *final(self) == *old(self),
            !(origin is Signed) ==> r == Err::<(), DispatchError>(DispatchError::BadOrigin),
            origin is Signed && amount == 0 ==> r == Err::<(), DispatchError>(
                DispatchError::Module(Error::InvalidFundingAmount),
            ),
            ({
                let who = origin->Signed_0;
                let pot = old(self).spec_extra_reward_account_id() as u64;
                let res = crate::ledger::spec_transfer_result(old(self).ledger, who, pot, amount, true);
                origin is Signed && amount != 0 ==> {
                    &&& res is Err ==> r == Err::<(), DispatchError>(DispatchError::Token(res->Err_0))
                    &&& res is Ok ==> r is Ok
                }
            }),
            r is Ok ==> ({
                let who = origin->Signed_0;
                let pot = old(self).spec_extra_reward_account_id() as u64;
                &&& old(self).ledger.transferred(final(self).ledger, who, pot, amount, true)
                &&& final(self).events@ == old(self).events@.push(
                    Event::ExtraRewardPotFunded { pot, amount },
                )
                &&& *final(self) == (Pallet {
                    ledger: final(self).ledger,
                    events: final(self).events,
                    ..*old(self)
                })
            }),
    {
        let who = Self::ensure_signed(origin)?;
        if amount == 0 {
            return Err(DispatchError::Module(Error::InvalidFundingAmount));
        }
        let pot = self.extra_reward_account_id();
        match self.ledger.transfer(who, pot, amount, true) {
            Err(e) => {
                return Err(DispatchError::Token(e));
            },
            Ok(()) => {},
        }
        self.deposit_event(Event::ExtraRewardPotFunded { pot, amount });
        Ok(())
    }
}

} // verus!
