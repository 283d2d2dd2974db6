//! The invulnerable collators: a sorted list of permissioned collators, managed by the
//! update origin.

use vstd::prelude::*;

use crate::pallet::{in_candidates, sorted, Pallet};
use crate::types::{AccountId, DispatchError, Error, Event, KeyStatus, Origin};

verus! {

broadcast use vstd::seq_lib::group_to_multiset_ensures;

/// The accounts of `new` whose keys are registered, in order.
pub open spec fn accepted(new: Seq<AccountId>, keys: Seq<KeyStatus>) -> Seq<AccountId>
    decreases new.len(),
{
    if new.len() == 0 {
        Seq::empty()
    } else if keys[new.len() - 1] == KeyStatus::Registered {
        accepted(new.drop_last(), keys).push(new.last())
    } else {
        accepted(new.drop_last(), keys)
    }
}

/// The events for the accounts of `new` skipped for want of registered keys, in order.
pub open spec fn skipped_events(new: Seq<AccountId>, keys: Seq<KeyStatus>) -> Seq<Event>
    decreases new.len(),
{
    if new.len() == 0 {
        Seq::empty()
    } else if keys[new.len() - 1] == KeyStatus::Registered {
        skipped_events(new.drop_last(), keys)
    } else {
        skipped_events(new.drop_last(), keys).push(
            Event::InvalidInvulnerableSkipped { account_id: new.last() },
        )
    }
}

/// Whether some account occurs twice in `s`.
pub open spec fn has_duplicates(s: Seq<AccountId>) -> bool {
    exists|i: int, j: int| 0 <= i < j < s.len() && #[trigger] s[i] == #[trigger] s[j]
}

/// Whether an account occurs twice in a list.
pub fn find_duplicate(v: &Vec<AccountId>) -> (r: bool)
    ensures
        r == has_duplicates(v@),
{
    let mut i: usize = 0;
    while i < v.len()
        invariant
            i <= v@.len(),
            forall|a: int, b: int| 0 <= a < i && a < b < v@.len() ==> #[trigger] v@[a] != #[trigger] v@[b],
        decreases v@.len() - i,
    {
        let mut j: usize = i + 1;
        while j < v.len()
            invariant
                i < v@.len(),
                i + 1 <= j <= v@.len(),
                forall|a: int, b: int| 0 <= a < i && a < b < v@.len() ==> #[trigger] v@[a] != #[trigger] v@[b],
                forall|b: int| i < b < j ==> v@[i as int] != #[trigger] v@[b],
            decreases v@.len() - j,
        {
            if v[i] == v[j] {
                assert(v@[i as int] == v@[j as int]);
                return true;
            }
            j = j + 1;
        }
        i = i + 1;
    }
    false
}

/// `s` holds the same accounts as `t`, in order.
pub open spec fn sorted_of(s: Seq<AccountId>, t: Seq<AccountId>) -> bool {
    sorted(s) && s.to_multiset() == t.to_multiset()
}

/// Inserts `x` into a sorted list, after the accounts not above it.
pub fn insert_sorted(v: &mut Vec<AccountId>, x: AccountId)
    requires
        sorted(old(v)@),
    ensures
        sorted(final(v)@),
        final(v)@.to_multiset() == old(v)@.to_multiset().insert(x),
        final(v)@.len() == old(v)@.len() + 1,
{
    let mut i: usize = 0;
    while i < v.len() && v[i] <= x
        invariant
            i <= v@.len(),
            sorted(v@),
            forall|k: int| 0 <= k < i ==> #[trigger] v@[k] <= x,
        decreases v@.len() - i,
    {
        i = i + 1;
    }
    let ghost before = v@;
    v.insert(i, x);
    proof {
        let s = v@;
        assert forall|a: int, b: int| 0 <= a <= b < s.len() implies #[trigger] s[a] <= #[trigger] s[b] by {
            if a < i && b < i {
                assert(s[a] == before[a] && s[b] == before[b]);
            } else if a < i && b == i {
                assert(s[a] == before[a]);
            } else if a < i {
                assert(s[a] == before[a] && s[b] == before[b - 1]);
            } else if a == i && b > i {
                assert(s[b] == before[b - 1]);
                assert(before[i as int] > x);
                assert(before[i as int] <= before[b - 1]);
            } else if a > i {
                assert(s[a] == before[a - 1] && s[b] == before[b - 1]);
            }
        }
    }
}

/// Sorts a list of accounts.
pub fn sort_accounts(v: &Vec<AccountId>) -> (r: Vec<AccountId>)
    ensures
        sorted_of(r@, v@),
{
    let mut r: Vec<AccountId> = Vec::new();
    let mut k: usize = 0;
    assert(v@.take(0) =~= Seq::<AccountId>::empty());
    while k < v.len()
        invariant
            k <= v@.len(),
            sorted_of(r@, v@.take(k as int)),
        decreases v@.len() - k,
    {
        insert_sorted(&mut r, v[k]);
        assert(v@.take(k as int + 1) =~= v@.take(k as int).push(v@[k as int]));
        k = k + 1;
    }
    assert(v@.take(v@.len() as int) =~= v@);
    r
}

/// Every accepted account comes from the list it was accepted from.
pub proof fn lemma_accepted_from(new: Seq<AccountId>, keys: Seq<KeyStatus>, c: AccountId)
    requires
        accepted(new, keys).to_multiset().count(c) > 0,
    ensures
        exists|j: int| 0 <= j < new.len() && new[j] == c,
    decreases new.len(),
{
    if new.len() == 0 {
        assert(accepted(new, keys) =~= Seq::<AccountId>::empty());
    } else {
        let rest = accepted(new.drop_last(), keys);
        if keys[new.len() - 1] == KeyStatus::Registered && c == new.last() {
            assert(new[new.len() - 1] == c);
        } else {
            if keys[new.len() - 1] == KeyStatus::Registered {
                assert(rest.push(new.last()).to_multiset() =~= rest.to_multiset().insert(new.last()));
            }
            lemma_accepted_from(new.drop_last(), keys, c);
            let j = choose|j: int| 0 <= j < new.drop_last().len() && new.drop_last()[j] == c;
            assert(new[j] == c);
        }
    }
}

impl Pallet {
    /// The events of setting the invulnerables from `new`: one `InvalidInvulnerableSkipped`
    /// for each account skipped for want of keys, in order, then `NewInvulnerables` listing
    /// the new invulnerables.
    pub open spec fn invulnerables_set_events(self, after: Self, new: Seq<AccountId>, keys: Seq<KeyStatus>) -> bool {
        let skipped = skipped_events(new, keys);
        let n = self.events@.len() + skipped.len();
        &&& after.events@.len() == n + 1
        &&& after.events@.subrange(0, n as int) == self.events@ + skipped
        &&& (after.events@[n as int] matches Event::NewInvulnerables { invulnerables }
            && invulnerables@ == after.invulnerables@)
    }

    /// The error that `set_invulnerables` fails with, if any: the checks in their order.
    pub open spec fn set_invulnerables_error(
        self,
        origin: Origin,
        new: Seq<AccountId>,
        keys: Seq<KeyStatus>,
    ) -> Option<DispatchError> {
        if !self.is_update_origin(origin) {
            Some(DispatchError::BadOrigin)
        } else if new.len() > self.config.max_invulnerables {
            Some(DispatchError::Module(Error::TooManyInvulnerables))
        } else if has_duplicates(new) {
            Some(DispatchError::Module(Error::DuplicatedInvulnerables))
        } else if exists|i: int| 0 <= i < new.len() && self.is_candidate(#[trigger] new[i]) {
            Some(DispatchError::Module(Error::AlreadyCandidate))
        } else if accepted(new, keys).len() == 0 && self.candidates@.len() < self.config.min_eligible_collators {
            Some(DispatchError::Module(Error::TooFewEligibleCollators))
        } else {
            None
        }
    }

    /// Sets the invulnerables to the accounts of `new` whose keys are registered (`keys` says,
    /// for each account of `new`, what the runtime's session keys registry says of it), sorted.
    /// Every account skipped for want of keys gets an `InvalidInvulnerableSkipped` event, and a
    /// `NewInvulnerables` event lists the new invulnerables.
    ///
    /// No account may occur twice in `new` nor be a candidate, and a list that keeps no
    /// account is refused while there are fewer candidates than the minimum of eligible
    /// collators.
    pub fn set_invulnerables(&mut self, origin: Origin, new: Vec<AccountId>, keys: Vec<KeyStatus>) -> (r: Result<
        (),
        DispatchError,
    >)
        requires
            old(self).wf(),
            keys@.len() == new@.len(),
        ensures
            final(self).wf(),
            r is Err <==> (old(self).set_invulnerables_error(origin, new@, keys@) is Some),
            r is Err ==> *final(self) == *old(self),
            r is Err ==> r->Err_0 == old(self).set_invulnerables_error(origin, new@, keys@)->0,
            r is Ok ==> sorted_of(final(self).invulnerables@, accepted(new@, keys@)),
            r is Ok ==> old(self).invulnerables_set_events(*final(self), new@, keys@),
            r is Ok ==> *final(self) == (Pallet {
                invulnerables: final(self).invulnerables,
                events: final(self).events,
                ..*old(self)
            }),
    {
        self.ensure_update_origin(origin)?;
        if new.len() as u64 > self.config.max_invulnerables as u64 {
            return Err(DispatchError::Module(Error::TooManyInvulnerables));
        }
        if find_duplicate(&new) {
            return Err(DispatchError::Module(Error::DuplicatedInvulnerables));
        }
        let mut k: usize = 0;
        while k < new.len()
            invariant
                k <= new@.len(),
                self.wf(),
                *self == *old(self),
                old(self).is_update_origin(origin),
                new@.len() <= self.config.max_invulnerables,
                !has_duplicates(new@),
                forall|i: int| 0 <= i < k ==> !self.is_candidate(#[trigger] new@[i]),
            decreases new@.len() - k,
        {
            if self.find_candidate(new[k]).is_some() {
                assert(self.is_candidate(new@[k as int]));
                return Err(DispatchError::Module(Error::AlreadyCandidate));
            }
            k = k + 1;
        }
        let mut with_keys: Vec<AccountId> = Vec::new();
        k = 0;
        assert(new@.take(0) =~= Seq::<AccountId>::empty());
        while k < new.len()
            invariant
                k <= new@.len(),
                keys@.len() == new@.len(),
                with_keys@ == accepted(new@.take(k as int), keys@),
                with_keys@.len() <= k,
            decreases new@.len() - k,
        {
            assert(new@.take(k as int + 1).drop_last() =~= new@.take(k as int));
            match keys[k] {
                KeyStatus::Registered => {
                    with_keys.push(new[k]);
                },
                _ => {},
            }
            k = k + 1;
        }
        assert(new@.take(new@.len() as int) =~= new@);
        if with_keys.len() == 0 && (self.candidates.len() as u64) < (self.config.min_eligible_collators as u64) {
            return Err(DispatchError::Module(Error::TooFewEligibleCollators));
        }
        let ghost start = *self;
        k = 0;
        assert(skipped_events(new@.take(0), keys@) =~= Seq::<Event>::empty());
        assert(start.events@ + Seq::<Event>::empty() =~= start.events@);
        while k < new.len()
            invariant
                k <= new@.len(),
                keys@.len() == new@.len(),
                self.events@ == start.events@ + skipped_events(new@.take(k as int), keys@),
                *self == (Pallet { events: self.events, ..start }),
            decreases new@.len() - k,
        {
            assert(new@.take(k as int + 1).drop_last() =~= new@.take(k as int));
            match keys[k] {
                KeyStatus::Registered => {},
                _ => {
                    self.deposit_event(Event::InvalidInvulnerableSkipped { account_id: new[k] });
                },
            }
            k = k + 1;
        }
        let sorted_list = sort_accounts(&with_keys);
        proof {
            vstd::seq_lib::to_multiset_len(sorted_list@);
            vstd::seq_lib::to_multiset_len(with_keys@);
        }
        self.invulnerables = sorted_list;
        let listed = self.invulnerables.clone();
        assert(listed@ =~= self.invulnerables@);
        let ghost before_last = self.events@;
        self.deposit_event(Event::NewInvulnerables { invulnerables: listed });
        proof {
            let n = old(self).events@.len() + skipped_events(new@, keys@).len();
            assert(self.events@.subrange(0, n as int) =~= before_last);
            assert forall|i: int|
                0 <= i < self.candidates@.len() implies !self.invulnerables@.contains(
                    #[trigger] self.candidates@[i].account,
                ) by {
                let c = self.candidates@[i].account;
                if self.invulnerables@.contains(c) {
                    assert(self.invulnerables@.to_multiset().count(c) > 0);
                    lemma_accepted_from(new@, keys@, c);
                    let j = choose|j: int| 0 <= j < new@.len() && new@[j] == c;
                    assert(in_candidates(self.candidates@, new@[j]));
                }
            }
        }
        Ok(())
    }

    /// `after` is this state once `who`, not an invulnerable yet, was added to the
    /// invulnerables, which stay sorted, and an `InvulnerableAdded` event was deposited.
    pub open spec fn invulnerable_added(self, after: Self, who: AccountId) -> bool {
        &&& !self.invulnerables@.contains(who)
        &&& sorted(after.invulnerables@)
        &&& after.invulnerables@.to_multiset() == self.invulnerables@.to_multiset().insert(who)
        &&& after.events@ == self.events@.push(Event::InvulnerableAdded { account_id: who })
        &&& after == (Pallet { invulnerables: after.invulnerables, events: after.events, ..self })
    }

    /// The error that `add_invulnerable` fails with, if any: the checks in their order.
    pub open spec fn add_invulnerable_error(self, origin: Origin, who: AccountId, keys: KeyStatus) -> Option<
        DispatchError,
    > {
        if !self.is_update_origin(origin) {
            Some(DispatchError::BadOrigin)
        } else if keys == KeyStatus::NoCollatorId {
            Some(DispatchError::Module(Error::NoAssociatedCollatorId))
        } else if keys == KeyStatus::NotRegistered {
            Some(DispatchError::Module(Error::CollatorNotRegistered))
        } else if self.is_candidate(who) {
            Some(DispatchError::Module(Error::AlreadyCandidate))
        } else if self.invulnerables@.contains(who) {
            Some(DispatchError::Module(Error::AlreadyInvulnerable))
        } else if self.invulnerables@.len() >= self.config.max_invulnerables {
            Some(DispatchError::Module(Error::TooManyInvulnerables))
        } else {
            None
        }
    }

    /// Adds `who` to the invulnerables, in its sorted place. `keys` is what the runtime's
    /// session keys registry says of `who`: its keys must be registered. `who` must not be a
    /// candidate nor already an invulnerable, and the invulnerables must not be full.
    pub fn add_invulnerable(&mut self, origin: Origin, who: AccountId, keys: KeyStatus) -> (r: Result<
        (),
        DispatchError,
    >)
        requires
            old(self).wf(),
        ensures
            final(self).wf(),
            r is Err <==> (old(self).add_invulnerable_error(origin, who, keys) is Some),
            r is Err ==> *final(self) == *old(self),
            r is Err ==> r->Err_0 == old(self).add_invulnerable_error(origin, who, keys)->0,
            r is Ok ==> old(self).invulnerable_added(*final(self), who),
    {
        self.ensure_update_origin(origin)?;
        match keys {
            KeyStatus::NoCollatorId => {
                return Err(DispatchError::Module(Error::NoAssociatedCollatorId));
            },
            KeyStatus::NotRegistered => {
                return Err(DispatchError::Module(Error::CollatorNotRegistered));
            },
            KeyStatus::Registered => {},
        }
        if self.find_candidate(who).is_some() {
            return Err(DispatchError::Module(Error::AlreadyCandidate));
        }
        if self.is_invulnerable(who) {
            return Err(DispatchError::Module(Error::AlreadyInvulnerable));
        }
        if self.invulnerables.len() as u64 >= self.config.max_invulnerables as u64 {
            return Err(DispatchError::Module(Error::TooManyInvulnerables));
        }
        let ghost before = self.invulnerables@;
        insert_sorted(&mut self.invulnerables, who);
        self.deposit_event(Event::InvulnerableAdded { account_id: who });
        proof {
            assert forall|i: int|
                0 <= i < self.candidates@.len() implies !self.invulnerables@.contains(
                    #[trigger] self.candidates@[i].account,
                ) by {
                let c = self.candidates@[i].account;
                assert(!before.contains(c));
                assert(c != who);
                assert(before.to_multiset().count(c) == 0);
                assert(self.invulnerables@.to_multiset().count(c) == 0);
            }
        }
        Ok(())
    }

    /// The error that `remove_invulnerable` fails with, if any: the checks in their order.
    pub open spec fn remove_invulnerable_error(self, origin: Origin, who: AccountId) -> Option<
        DispatchError,
    > {
        if !self.is_update_origin(origin) {
            Some(DispatchError::BadOrigin)
        } else if self.spec_eligible_collators() <= self.config.min_eligible_collators {
            Some(DispatchError::Module(Error::TooFewEligibleCollators))
        } else if !self.invulnerables@.contains(who) {
            Some(DispatchError::Module(Error::NotInvulnerable))
        } else {
            None
        }
    }

    /// Removes `who` from the invulnerables. Fails when the number of eligible collators
    /// would drop below the minimum.
    pub fn remove_invulnerable(&mut self, origin: Origin, who: AccountId) -> (r: Result<(), DispatchError>)
        requires
            old(self).wf(),
        ensures
            final(self).wf(),
            r is Err <==> (old(self).remove_invulnerable_error(origin, who) is Some),
            r is Err ==> *final(self) == *old(self),
            r is Err ==> r->Err_0 == old(self).remove_invulnerable_error(origin, who)->0,
            r is Ok ==> final(self).invulnerables@.to_multiset() == old(self).invulnerables@.to_multiset().remove(
                who,
            ),
            r is Ok ==> final(self).events@ == old(self).events@.push(
                Event::InvulnerableRemoved { account_id: who },
            ),
            r is Ok ==> *final(self) == (Pallet {
                invulnerables: final(self).invulnerables,
                events: final(self).events,
                ..*old(self)
            }),
    {
        self.ensure_update_origin(origin)?;
        if self.eligible_collators() <= self.config.min_eligible_collators {
            return Err(DispatchError::Module(Error::TooFewEligibleCollators));
        }
        let mut i: usize = 0;
        while i < self.invulnerables.len()
            invariant
                i <= self.invulnerables@.len(),
                forall|k: int| 0 <= k < i ==> #[trigger] self.invulnerables@[k] != who,
            ensures
                i <= self.invulnerables@.len(),
                forall|k: int| 0 <= k < i ==> #[trigger] self.invulnerables@[k] != who,
                i < self.invulnerables@.len() ==> self.invulnerables@[i as int] == who,
            decreases self.invulnerables@.len() - i,
        {
            if self.invulnerables[i] == who {
                break;
            }
            i = i + 1;
        }
        if i == self.invulnerables.len() {
            return Err(DispatchError::Module(Error::NotInvulnerable));
        }
        let ghost before = self.invulnerables@;
        self.invulnerables.remove(i);
        self.deposit_event(Event::InvulnerableRemoved { account_id: who });
        proof {
            let s = self.invulnerables@;
            assert forall|a: int, b: int| 0 <= a <= b < s.len() implies #[trigger] s[a] <= #[trigger] s[b] by {
                let a2 = if a < i { a } else { a + 1 };
                let b2 = if b < i { b } else { b + 1 };
                assert(s[a] == before[a2] && s[b] == before[b2]);
            }
            assert forall|k: int|
                0 <= k < self.candidates@.len() implies !s.contains(#[trigger] self.candidates@[k].account) by {
                let c = self.candidates@[k].account;
                if s.contains(c) {
                    let j = choose|j: int| 0 <= j < s.len() && s[j] == c;
                    let j2 = if j < i { j } else { j + 1 };
                    assert(before[j2] == c);
                }
            }
        }
        Ok(())
    }
}

} // verus!
