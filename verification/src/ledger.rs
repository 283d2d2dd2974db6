//! The account ledger: balances, with funds frozen per reason.
//!
//! Freezes overlap: an account's frozen amount is the largest of its freezes, and only
//! the balance above it can be moved. A transfer that keeps the sender alive also leaves
//! the existential deposit behind; one that may reap the sender burns what would be left
//! below the existential deposit.

use std::collections::HashMap;
use vstd::prelude::*;

use crate::types::{AccountId, Balance, FreezeReason, TokenError};

verus! {

broadcast use vstd::std_specs::hash::group_hash_axioms;

/// The balance of an account and its freezes.
#[derive(Clone, Copy, Debug, PartialEq, Eq, Structural)]
pub struct AccountData {
    /// Total balance.
    pub balance: Balance,
    /// Funds frozen for staking.
    pub staking: Balance,
    /// Funds frozen as candidacy bond.
    pub bond: Balance,
    /// Funds frozen while being released.
    pub releasing: Balance,
}

impl AccountData {
    /// An account that holds nothing.
    pub open spec fn empty() -> AccountData {
        AccountData { balance: 0, staking: 0, bond: 0, releasing: 0 }
    }

    /// The freeze held for a reason.
    pub open spec fn freeze_of(self, reason: FreezeReason) -> Balance {
        match reason {
            FreezeReason::Staking => self.staking,
            FreezeReason::CandidacyBond => self.bond,
            FreezeReason::Releasing => self.releasing,
        }
    }

    /// This account with the freeze for `reason` set to `amount`.
    pub open spec fn with_freeze(self, reason: FreezeReason, amount: Balance) -> AccountData {
        match reason {
            FreezeReason::Staking => AccountData { staking: amount, ..self },
            FreezeReason::CandidacyBond => AccountData { bond: amount, ..self },
            FreezeReason::Releasing => AccountData { releasing: amount, ..self },
        }
    }

    /// This account with its balance set to `balance`.
    pub open spec fn with_balance(self, balance: Balance) -> AccountData {
        AccountData { balance, ..self }
    }

    /// The frozen amount: the largest freeze.
    pub open spec fn frozen(self) -> Balance {
        max3(self.staking, self.bond, self.releasing)
    }
}

/// The largest of three amounts.
pub open spec fn max3(a: u64, b: u64, c: u64) -> u64 {
    if a >= b && a >= c { a } else if b >= c { b } else { c }
}

/// The ledger of all accounts.
pub struct Ledger {
    /// The accounts that hold anything; any other account holds nothing.
    pub accounts: HashMap<AccountId, AccountData>,
    /// The minimum balance an account must keep to exist.
    pub existential_deposit: Balance,
}

impl Ledger {
    /// What an account holds.
    pub open spec fn account(self, who: AccountId) -> AccountData {
        if self.accounts@.contains_key(who) { self.accounts@[who] } else { AccountData::empty() }
    }

    /// What `reducible_balance` returns: the balance above the frozen amount, and above the
    /// existential deposit when the account is to be kept alive.
    pub open spec fn spec_reducible(self, who: AccountId, keep_alive: bool) -> Balance {
        let a = self.account(who);
        let untouchable: u64 = if keep_alive && a.frozen() < self.existential_deposit {
            self.existential_deposit
        } else {
            a.frozen()
        };
        if a.balance >= untouchable { (a.balance - untouchable) as u64 } else { 0 }
    }

    /// Only the accounts named in `changed` differ between two ledgers.
    pub open spec fn same_except(self, other: Ledger, changed: Set<AccountId>) -> bool {
        &&& self.existential_deposit == other.existential_deposit
        &&& forall|w: AccountId| !changed.contains(w) ==> #[trigger] self.account(w) == other.account(w)
    }

    /// An empty ledger.
    pub fn new(existential_deposit: Balance) -> (r: Ledger)
        ensures
            r.existential_deposit == existential_deposit,
            forall|w: AccountId| #[trigger] r.account(w) == AccountData::empty(),
    {
        Ledger { accounts: HashMap::new(), existential_deposit }
    }

    /// What an account holds.
    pub fn get(&self, who: AccountId) -> (r: AccountData)
        ensures
            r == self.account(who),
    {
        match self.accounts.get(&who) {
            Some(a) => *a,
            None => AccountData { balance: 0, staking: 0, bond: 0, releasing: 0 },
        }
    }

    fn put(&mut self, who: AccountId, data: AccountData)
        ensures
            final(self).existential_deposit == old(self).existential_deposit,
            final(self).accounts@ == old(self).accounts@.insert(who, data),
            final(self).account(who) == data,
            forall|w: AccountId| w != who ==> #[trigger] final(self).account(w) == old(self).account(w),
    {
        self.accounts.insert(who, data);
    }

    /// The total balance of an account.
    pub fn balance(&self, who: AccountId) -> (r: Balance)
        ensures
            r == self.account(who).balance,
    {
        self.get(who).balance
    }

    /// The funds of an account frozen for `reason`.
    pub fn balance_frozen(&self, reason: FreezeReason, who: AccountId) -> (r: Balance)
        ensures
            r == self.account(who).freeze_of(reason),
    {
        let a = self.get(who);
        match reason {
            FreezeReason::Staking => a.staking,
            FreezeReason::CandidacyBond => a.bond,
            FreezeReason::Releasing => a.releasing,
        }
    }

    /// Sets the freeze of an account for `reason` to `amount` (zero thaws it).
    pub fn set_freeze(&mut self, reason: FreezeReason, who: AccountId, amount: Balance)
        ensures
            final(self).account(who) == old(self).account(who).with_freeze(reason, amount),
            final(self).same_except(*old(self), set![who]),
            final(self).accounts@ == old(self).accounts@.insert(
                who,
                old(self).account(who).with_freeze(reason, amount),
            ),
    {
        let a = self.get(who);
        let b = match reason {
            FreezeReason::Staking => AccountData { staking: amount, ..a },
            FreezeReason::CandidacyBond => AccountData { bond: amount, ..a },
            FreezeReason::Releasing => AccountData { releasing: amount, ..a },
        };
        self.put(who, b);
    }

    /// Freezes `amount` more of an account for staking. Fails, changing nothing, when the
    /// balance of the account does not cover the grown freeze.
    pub fn increase_frozen(&mut self, who: AccountId, amount: Balance) -> (r: Result<(), TokenError>)
        ensures
            r is Ok <==> old(self).account(who).staking + amount <= old(self).account(who).balance,
            r is Ok ==> final(self).existential_deposit == old(self).existential_deposit,
            r is Ok ==> final(self).accounts@ == old(self).accounts@.insert(
                who,
                old(self).account(who).with_freeze(
                    FreezeReason::Staking,
                    (old(self).account(who).staking + amount) as u64,
                ),
            ),
            r is Err ==> *final(self) == *old(self),
    {
        let a = self.get(who);
        if amount > a.balance || a.staking > a.balance - amount {
            return Err(TokenError::FundsUnavailable);
        }
        self.set_freeze(FreezeReason::Staking, who, a.staking + amount);
        Ok(())
    }

    /// Raises the freeze of an account for `reason` to `amount` if it is lower.
    pub fn extend_freeze(&mut self, reason: FreezeReason, who: AccountId, amount: Balance)
        ensures
            final(self).account(who) == old(self).account(who).with_freeze(
                reason,
                if old(self).account(who).freeze_of(reason) >= amount {
                    old(self).account(who).freeze_of(reason)
                } else {
                    amount
                },
            ),
            final(self).same_except(*old(self), set![who]),
    {
        let current = self.balance_frozen(reason, who);
        if current < amount {
            self.set_freeze(reason, who, amount);
        } else {
            self.set_freeze(reason, who, current);
        }
    }

    /// The funds of an account that can be moved out.
    pub fn reducible_balance(&self, who: AccountId, keep_alive: bool) -> (r: Balance)
        ensures
            r == self.spec_reducible(who, keep_alive),
    {
        let a = self.get(who);
        let mut frozen: u64 = a.staking;
        if a.bond > frozen {
            frozen = a.bond;
        }
        if a.releasing > frozen {
            frozen = a.releasing;
        }
        let untouchable: u64 = if keep_alive && frozen < self.existential_deposit {
            self.existential_deposit
        } else {
            frozen
        };
        a.balance.saturating_sub(untouchable)
    }

    /// Creates funds in an account (the balance saturates at its maximum).
    pub fn mint_into(&mut self, who: AccountId, amount: Balance)
        ensures
            final(self).account(who) == old(self).account(who).with_balance(
                old(self).account(who).balance.saturating_add(amount),
            ),
            final(self).same_except(*old(self), set![who]),
    {
        let a = self.get(who);
        self.put(who, AccountData { balance: a.balance.saturating_add(amount), ..a });
    }

    /// Moves `amount` from `from` to `to`.
    ///
    /// Fails when `amount` exceeds what `from` can move (its reducible balance), or when the
    /// receiver would end below the existential deposit or overflow. Without `keep_alive`, a
    /// remainder of the sender below the existential deposit is burned.
    pub fn transfer(&mut self, from: AccountId, to: AccountId, amount: Balance, keep_alive: bool)
        -> (r: Result<(), TokenError>)
        ensures
            r == spec_transfer_result(*old(self), from, to, amount, keep_alive),
            r is Err ==> *final(self) == *old(self),
            r is Ok && from == to ==> *final(self) == *old(self),
            r is Ok && from != to ==> final(self).account(to) == old(self).account(to).with_balance(
                (old(self).account(to).balance + amount) as u64,
            ),
            r is Ok && from != to ==> final(self).account(from) == old(self).account(
                from,
            ).with_balance(spec_sender_left(*old(self), from, amount, keep_alive)),
            r is Ok ==> final(self).same_except(*old(self), set![from, to]),
            old(self).transferred(*final(self), from, to, amount, keep_alive),
    {
        let reducible = self.reducible_balance(from, keep_alive);
        if amount > reducible {
            return Err(TokenError::FundsUnavailable);
        }
        if amount == 0 {
            return Ok(());
        }
        let dest = self.get(to);
        match dest.balance.checked_add(amount) {
            None => {
                return Err(TokenError::Overflow);
            },
            Some(x) => {
                if x < self.existential_deposit {
                    return Err(TokenError::BelowMinimum);
                }
            },
        }
        if from == to {
            return Ok(());
        }
        let src = self.get(from);
        let left: u64 = src.balance - amount;
        let kept: u64 = if !keep_alive && left < self.existential_deposit {
            0
        } else {
            left
        };
        self.put(from, AccountData { balance: kept, ..src });
        self.put(to, AccountData { balance: dest.balance + amount, ..dest });
        Ok(())
    }
}

impl Ledger {
    /// `after` is this ledger once a transfer of `amount` from `from` to `to` was attempted:
    /// unchanged when the transfer fails (or moves nothing); otherwise the receiver gains the
    /// amount and the sender keeps what `spec_sender_left` says.
    pub open spec fn transferred(
        self,
        after: Ledger,
        from: AccountId,
        to: AccountId,
        amount: Balance,
        keep_alive: bool,
    ) -> bool {
        if spec_transfer_result(self, from, to, amount, keep_alive) is Err || from == to {
            after == self
        } else {
            &&& after.account(to) == self.account(to).with_balance((self.account(to).balance + amount) as u64)
            &&& after.account(from) == self.account(from).with_balance(
                spec_sender_left(self, from, amount, keep_alive),
            )
            &&& after.same_except(self, set![from, to])
        }
    }
}

/// The outcome of a transfer.
pub open spec fn spec_transfer_result(
    l: Ledger,
    from: AccountId,
    to: AccountId,
    amount: Balance,
    keep_alive: bool,
) -> Result<(), TokenError> {
    if amount > l.spec_reducible(from, keep_alive) {
        Err(TokenError::FundsUnavailable)
    } else if amount == 0 {
        Ok(())
    } else if l.account(to).balance + amount > u64::MAX {
        Err(TokenError::Overflow)
    } else if l.account(to).balance + amount < l.existential_deposit {
        Err(TokenError::BelowMinimum)
    } else {
        Ok(())
    }
}

/// What the sender of a successful transfer is left with.
pub open spec fn spec_sender_left(l: Ledger, from: AccountId, amount: Balance, keep_alive: bool) -> u64 {
    let left = l.account(from).balance - amount;
    if amount == 0 {
        l.account(from).balance
    } else if !keep_alive && left < l.existential_deposit { 0 } else { left as u64 }
}

} // verus!
