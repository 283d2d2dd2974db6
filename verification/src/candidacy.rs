//! Becoming a candidate, leaving, and removing candidates.

use vstd::prelude::*;

use crate::pallet::{cand_index, in_candidates, lemma_cand_index, CandidateRecord, Pallet};
use crate::types::{
    AccountId, Balance, CandidacyBondRelease, CandidacyBondReleaseReason, CandidateInfo,
    DispatchError, Error, Event, FreezeReason, KeyStatus, Origin,
};

verus! {

broadcast use vstd::std_specs::hash::group_hash_axioms;

/// Moving the candidate at `ci` to the end of the former candidates keeps the state well
/// formed.
pub proof fn lemma_retire_candidate_wf(p: Pallet, q: Pallet, ci: int)
    requires
        p.wf(),
        0 <= ci < p.candidates@.len(),
        q.candidates@ == p.candidates@.remove(ci),
        q.retained@ == p.retained@.push(p.candidates@[ci]),
        q.config == p.config,
        q.invulnerables == p.invulnerables,
        q.release_queues == p.release_queues,
        q.block_number == p.block_number,
    ensures
        q.wf(),
        !in_candidates(q.candidates@, p.candidates@[ci].account),
        in_candidates(q.retained@, p.candidates@[ci].account),
{
    let s = p.candidates@;
    let t = q.candidates@;
    let r = q.retained@;
    let n = p.retained@.len();
    assert forall|a: int, b: int|
        0 <= a < t.len() && 0 <= b < t.len() && a != b implies #[trigger] t[a].account
        != #[trigger] t[b].account by {
        let a2 = if a < ci { a } else { a + 1 };
        let b2 = if b < ci { b } else { b + 1 };
        assert(t[a] == s[a2]);
        assert(t[b] == s[b2]);
    }
    assert forall|k: int| 0 <= k < t.len() implies !q.invulnerables@.contains(#[trigger] t[k].account)
        && q.record_wf(t[k]) by {
        let k2 = if k < ci { k } else { k + 1 };
        assert(t[k] == s[k2]);
    }
    assert(r[n as int] == s[ci]);
    assert(p.record_wf(s[ci]));
    assert forall|k: int| 0 <= k < r.len() implies q.record_wf(#[trigger] r[k]) by {
        if k < n {
            assert(r[k] == p.retained@[k]);
        }
    }
    assert forall|a: int, b: int|
        0 <= a < r.len() && 0 <= b < r.len() && a != b implies #[trigger] r[a].account
        != #[trigger] r[b].account by {
        if a < n && b < n {
            assert(r[a] == p.retained@[a] && r[b] == p.retained@[b]);
        } else if a < n {
            assert(r[a] == p.retained@[a]);
            assert(s[ci].account != p.retained@[a].account);
        } else {
            assert(r[b] == p.retained@[b]);
            assert(s[ci].account != p.retained@[b].account);
        }
    }
    assert forall|i: int, j: int|
        0 <= i < t.len() && 0 <= j < r.len() implies #[trigger] t[i].account != #[trigger] r[j].account by {
        let i2 = if i < ci { i } else { i + 1 };
        assert(t[i] == s[i2]);
        if j < n {
            assert(r[j] == p.retained@[j]);
        } else {
            assert(s[i2].account != s[ci].account);
        }
    }
    if in_candidates(t, s[ci].account) {
        let a = choose|a: int| 0 <= a < t.len() && #[trigger] t[a].account == s[ci].account;
        let a2 = if a < ci { a } else { a + 1 };
        assert(t[a] == s[a2]);
    }
    assert(r[n as int].account == s[ci].account);
}

/// Moving the former candidate at `ri`, or a new record, to the end of the candidates keeps
/// the state well formed.
pub proof fn lemma_join_candidate_wf(p: Pallet, q: Pallet, rec: CandidateRecord)
    requires
        p.wf(),
        p.candidates@.len() < p.config.max_candidates,
        !p.invulnerables@.contains(rec.account),
        !in_candidates(p.candidates@, rec.account),
        p.record_wf(rec),
        q.candidates@ == p.candidates@.push(rec),
        p.is_retained(rec.account) ==> q.retained@ == p.retained@.remove(cand_index(p.retained@, rec.account)),
        !p.is_retained(rec.account) ==> q.retained@ == p.retained@,
        q.config == p.config,
        q.invulnerables == p.invulnerables,
        q.release_queues == p.release_queues,
        q.block_number == p.block_number,
    ensures
        q.wf(),
{
    let t = q.candidates@;
    let n = p.candidates@.len();
    assert(t[n as int] == rec);
    assert forall|a: int, b: int|
        0 <= a < t.len() && 0 <= b < t.len() && a != b implies #[trigger] t[a].account
        != #[trigger] t[b].account by {
        if a < n && b < n {
            assert(t[a] == p.candidates@[a] && t[b] == p.candidates@[b]);
        } else if a < n {
            assert(t[a] == p.candidates@[a]);
        } else {
            assert(t[b] == p.candidates@[b]);
        }
    }
    assert forall|k: int| 0 <= k < t.len() implies !q.invulnerables@.contains(#[trigger] t[k].account)
        && q.record_wf(t[k]) by {
        if k < n {
            assert(t[k] == p.candidates@[k]);
        }
    }
    let r = q.retained@;
    let s = p.retained@;
    if p.is_retained(rec.account) {
        let ri = cand_index(s, rec.account);
        let w = choose|i: int| 0 <= i < s.len() && #[trigger] s[i].account == rec.account;
        lemma_cand_index(s, w);
        assert forall|k: int| 0 <= k < r.len() implies q.record_wf(#[trigger] r[k]) by {
            let k2 = if k < ri { k } else { k + 1 };
            assert(r[k] == s[k2]);
        }
        assert forall|a: int, b: int|
            0 <= a < r.len() && 0 <= b < r.len() && a != b implies #[trigger] r[a].account
            != #[trigger] r[b].account by {
            let a2 = if a < ri { a } else { a + 1 };
            let b2 = if b < ri { b } else { b + 1 };
            assert(r[a] == s[a2]);
            assert(r[b] == s[b2]);
        }
        assert forall|i: int, j: int|
            0 <= i < t.len() && 0 <= j < r.len() implies #[trigger] t[i].account != #[trigger] r[j].account by {
            let j2 = if j < ri { j } else { j + 1 };
            assert(r[j] == s[j2]);
            if i < n {
                assert(t[i] == p.candidates@[i]);
            } else {
                assert(s[j2].account != s[ri].account);
            }
        }
    } else {
        assert forall|i: int, j: int|
            0 <= i < t.len() && 0 <= j < r.len() implies #[trigger] t[i].account != #[trigger] r[j].account by {
            if i < n {
                assert(t[i] == p.candidates@[i]);
            } else {
                assert(r[j] == s[j]);
            }
        }
    }
}

impl Pallet {
    /// The candidacy bond release of `who` once `bond` more is released now for `reason`: the
    /// amounts add up, the release waits for the bond delay from now, and records the reason.
    pub open spec fn bond_release_after(
        self,
        who: AccountId,
        bond: Balance,
        reason: CandidacyBondReleaseReason,
    ) -> CandidacyBondRelease {
        let prev: Balance = match self.bond_release_of(who) {
            Some(b) => b.bond,
            None => 0,
        };
        CandidacyBondRelease {
            bond: prev.saturating_add(bond),
            block: (self.block_number + self.config.bond_unlock_delay) as u64,
            reason,
        }
    }

    /// `after` is this state once candidate `who` was removed for `reason`: its record, stakes
    /// included, moves from the candidates to the end of the former candidates, its last
    /// authored block is forgotten when `remove_last_authored`, its bond is thawed and, when
    /// `has_penalty`, frozen again as releasing and added to its candidacy bond release, due
    /// after the bond delay; a `CandidateRemoved` event is deposited.
    pub open spec fn candidate_removed(
        self,
        after: Self,
        who: AccountId,
        remove_last_authored: bool,
        has_penalty: bool,
        reason: CandidacyBondReleaseReason,
    ) -> bool {
        let ci = cand_index(self.candidates@, who);
        let a = self.ledger.account(who);
        &&& after.candidates@ == self.candidates@.remove(ci)
        &&& after.retained@ == self.retained@.push(self.candidates@[ci])
        &&& after.last_authored_block@ == if remove_last_authored {
            self.last_authored_block@.remove(who)
        } else {
            self.last_authored_block@
        }
        &&& after.ledger.account(who) == if has_penalty {
            a.with_freeze(FreezeReason::CandidacyBond, 0).with_freeze(
                FreezeReason::Releasing,
                a.releasing.saturating_add(a.bond),
            )
        } else {
            a.with_freeze(FreezeReason::CandidacyBond, 0)
        }
        &&& after.ledger.same_except(self.ledger, set![who])
        &&& after.bond_releases@ == if has_penalty {
            self.bond_releases@.insert(who, self.bond_release_after(who, a.bond, reason))
        } else {
            self.bond_releases@
        }
        &&& after.events@ == self.events@.push(Event::CandidateRemoved { account_id: who })
        &&& after == (Pallet {
            candidates: after.candidates,
            retained: after.retained,
            last_authored_block: after.last_authored_block,
            ledger: after.ledger,
            bond_releases: after.bond_releases,
            events: after.events,
            ..self
        })
    }

    /// Removes candidate `who` for `reason` (see `candidate_removed`); the stakes on it stay
    /// in place. Returns the candidate's information. Fails, changing nothing, when `who` is
    /// not a candidate.
    pub fn remove_candidate_for(
        &mut self,
        who: AccountId,
        remove_last_authored: bool,
        has_penalty: bool,
        reason: CandidacyBondReleaseReason,
    ) -> (r: Result<CandidateInfo, DispatchError>)
        requires
            old(self).wf(),
        ensures
            final(self).wf(),
            !old(self).is_candidate(who) ==> *final(self) == *old(self) && r == Err::<
                CandidateInfo,
                DispatchError,
            >(DispatchError::Module(Error::NotCandidate)),
            old(self).is_candidate(who) ==> r == Ok::<CandidateInfo, DispatchError>(
                old(self).cand(who).info,
            ) && old(self).candidate_removed(*final(self), who, remove_last_authored, has_penalty, reason),
    {
        let ci = match self.find_candidate(who) {
            Some(i) => i,
            None => {
                return Err(DispatchError::Module(Error::NotCandidate));
            },
        };
        proof {
            lemma_cand_index(self.candidates@, ci as int);
        }
        let ghost start = *self;
        if remove_last_authored {
            self.last_authored_block.remove(&who);
        }
        let bond = self.get_bond(who);
        self.ledger.set_freeze(FreezeReason::CandidacyBond, who, 0);
        if has_penalty {
            let releasing = self.get_releasing_balance(who);
            self.ledger.set_freeze(FreezeReason::Releasing, who, releasing.saturating_add(bond));
            let prev: Balance = match self.bond_releases.get(&who) {
                Some(b) => b.bond,
                None => 0,
            };
            let release = CandidacyBondRelease {
                bond: prev.saturating_add(bond),
                block: self.block_number + self.config.bond_unlock_delay,
                reason,
            };
            self.bond_releases.insert(who, release);
        }
        let rec = self.candidates.remove(ci);
        let info = rec.info;
        self.retained.push(rec);
        self.deposit_event(Event::CandidateRemoved { account_id: who });
        proof {
            lemma_retire_candidate_wf(start, *self, ci as int);
            assert(self.ledger.same_except(start.ledger, set![who]));
        }
        Ok(info)
    }

    /// Removes candidate `who`, as one that left (see `remove_candidate_for`).
    pub fn try_remove_candidate(&mut self, who: AccountId, remove_last_authored: bool, has_penalty: bool)
        -> (r: Result<CandidateInfo, DispatchError>)
        requires
            old(self).wf(),
        ensures
            final(self).wf(),
            !old(self).is_candidate(who) ==> *final(self) == *old(self) && r == Err::<
                CandidateInfo,
                DispatchError,
            >(DispatchError::Module(Error::NotCandidate)),
            old(self).is_candidate(who) ==> r == Ok::<CandidateInfo, DispatchError>(
                old(self).cand(who).info,
            ) && old(self).candidate_removed(
                *final(self),
                who,
                remove_last_authored,
                has_penalty,
                CandidacyBondReleaseReason::Left,
            ),
    {
        self.remove_candidate_for(who, remove_last_authored, has_penalty, CandidacyBondReleaseReason::Left)
    }

    /// The error that registering `who` with `bond` fails with, if any: the checks in their
    /// order.
    pub open spec fn register_error(self, who: AccountId, bond: Balance) -> Option<Error> {
        if bond < self.min_candidacy_bond {
            Some(Error::InvalidCandidacyBond)
        } else if self.spec_free_balance(who) < bond {
            Some(Error::InsufficientFreeBalance)
        } else if self.is_candidate(who) {
            Some(Error::AlreadyCandidate)
        } else {
            None
        }
    }

    /// The error that `do_register_as_candidate` fails with, if any: those of `register_error`,
    /// then a full candidate list, then an invulnerable account.
    pub open spec fn do_register_error(self, who: AccountId, bond: Balance) -> Option<Error> {
        if self.register_error(who, bond) is Some {
            self.register_error(who, bond)
        } else if self.candidates@.len() >= self.config.max_candidates {
            Some(Error::TooManyCandidates)
        } else if self.invulnerables@.contains(who) {
            Some(Error::AlreadyInvulnerable)
        } else {
            None
        }
    }

    /// The candidate information `who` joins with: that of its former candidacy when one is
    /// kept, no stake and no stakers otherwise.
    pub open spec fn joining_info(self, who: AccountId) -> CandidateInfo {
        if self.is_retained(who) {
            self.ret(who).info
        } else {
            CandidateInfo { stake: 0, stakers: 0 }
        }
    }

    /// Whether `who` has a candidacy bond release left from being replaced, which a new
    /// candidacy takes back.
    pub open spec fn reuses_bond(self, who: AccountId) -> bool {
        self.bond_release_of(who) is Some && self.bond_release_of(who)->0.reason
            == CandidacyBondReleaseReason::Replaced
    }

    /// `after` is this state once `who` became a candidate with `bond`: it joins the end of
    /// the list, with the record of its former candidacy (stakes and totals) when one is kept
    /// and with no stake otherwise; its last authored block is set to the current block plus
    /// the kick threshold, the bond is frozen, a bond release left from being replaced is
    /// taken back (no longer frozen as releasing), and a `CandidateAdded` event is deposited.
    pub open spec fn registered(self, after: Self, who: AccountId, bond: Balance) -> bool {
        let n = self.candidates@.len();
        let a = self.ledger.account(who);
        let a1 = if self.reuses_bond(who) {
            a.with_freeze(FreezeReason::Releasing, a.releasing.saturating_sub(self.bond_release_of(who)->0.bond))
        } else {
            a
        };
        &&& after.candidates@.len() == n + 1
        &&& after.candidates@.subrange(0, n as int) == self.candidates@
        &&& after.candidates@[n as int].account == who
        &&& after.candidates@[n as int].info == self.joining_info(who)
        &&& self.is_retained(who) ==> after.candidates@[n as int] == self.ret(who)
            && after.retained@ == self.retained@.remove(cand_index(self.retained@, who))
        &&& !self.is_retained(who) ==> after.candidates@[n as int].stakes@.len() == 0
            && after.retained == self.retained
        &&& after.last_authored_block@ == self.last_authored_block@.insert(
            who,
            (self.block_number + self.config.kick_threshold) as u64,
        )
        &&& after.ledger.account(who) == a1.with_freeze(FreezeReason::CandidacyBond, bond)
        &&& after.ledger.same_except(self.ledger, set![who])
        &&& after.bond_releases@ == if self.reuses_bond(who) {
            self.bond_releases@.remove(who)
        } else {
            self.bond_releases@
        }
        &&& after.events@ == self.events@.push(Event::CandidateAdded { account_id: who, deposit: bond })
        &&& after == (Pallet {
            candidates: after.candidates,
            retained: after.retained,
            last_authored_block: after.last_authored_block,
            ledger: after.ledger,
            bond_releases: after.bond_releases,
            events: after.events,
            ..self
        })
    }

    /// Checks that `who` may register with `bond`: the bond reaches the minimum candidacy
    /// bond and is covered by the account's free balance, and `who` is not a candidate yet.
    pub fn check_registration(&self, who: AccountId, bond: Balance) -> (r: Result<(), DispatchError>)
        ensures
            r is Err <==> (self.register_error(who, bond) is Some),
            r is Err ==> r->Err_0 == DispatchError::Module(self.register_error(who, bond)->0),
    {
        if bond < self.min_candidacy_bond {
            return Err(DispatchError::Module(Error::InvalidCandidacyBond));
        }
        let available = self.get_free_balance(who);
        if available < bond {
            return Err(DispatchError::Module(Error::InsufficientFreeBalance));
        }
        if self.find_candidate(who).is_some() {
            return Err(DispatchError::Module(Error::AlreadyCandidate));
        }
        Ok(())
    }

    /// Registers `who` as a candidate with `bond` frozen as its candidacy bond (see
    /// `registered`); the stake kept from a former candidacy counts again. Returns the
    /// candidate's information. The bond must reach the minimum candidacy bond and be covered
    /// by the account's free balance, `who` must not be a candidate yet, the candidate list
    /// must not be full and `who` must not be an invulnerable. A bond release left from being
    /// replaced is taken back.
    pub fn do_register_as_candidate(&mut self, who: AccountId, bond: Balance) -> (r: Result<
        CandidateInfo,
        DispatchError,
    >)
        requires
            old(self).wf(),
        ensures
            final(self).wf(),
            r is Err <==> (old(self).do_register_error(who, bond) is Some),
            r is Err ==> *final(self) == *old(self),
            r is Err ==> r->Err_0 == DispatchError::Module(old(self).do_register_error(who, bond)->0),
            r is Ok ==> r->Ok_0 == old(self).joining_info(who),
            r is Ok ==> old(self).registered(*final(self), who, bond),
    {
        self.check_registration(who, bond)?;
        if self.candidates.len() >= self.config.max_candidates as usize {
            return Err(DispatchError::Module(Error::TooManyCandidates));
        }
        if self.is_invulnerable(who) {
            return Err(DispatchError::Module(Error::AlreadyInvulnerable));
        }
        let ghost before = *self;
        let now = self.block_number;
        self.last_authored_block.insert(who, now + self.config.kick_threshold);
        let rec = match self.find_retained(who) {
            Some(ri) => {
                proof {
                    lemma_cand_index(self.retained@, ri as int);
                }
                self.retained.remove(ri)
            },
            None => CandidateRecord { account: who, info: CandidateInfo { stake: 0, stakers: 0 }, stakes: Vec::new() },
        };
        let info = rec.info;
        proof {
            if before.is_retained(who) {
                let ri = cand_index(before.retained@, who);
                assert(before.record_wf(before.retained@[ri]));
            }
        }
        self.candidates.push(rec);
        let reused: Option<Balance> = match self.bond_releases.get(&who) {
            Some(r) => if r.reason == CandidacyBondReleaseReason::Replaced {
                Some(r.bond)
            } else {
                None
            },
            None => None,
        };
        match reused {
            Some(b) => {
                let releasing = self.get_releasing_balance(who);
                self.ledger.set_freeze(FreezeReason::Releasing, who, releasing.saturating_sub(b));
                self.bond_releases.remove(&who);
            },
            None => {},
        }
        self.ledger.set_freeze(FreezeReason::CandidacyBond, who, bond);
        self.deposit_event(Event::CandidateAdded { account_id: who, deposit: bond });
        proof {
            lemma_join_candidate_wf(before, *self, rec);
            assert(self.candidates@.subrange(0, before.candidates@.len() as int) =~= before.candidates@);
        }
        Ok(info)
    }

    /// The candidate with the lowest candidacy bond, the first such in the list, is at `w`.
    pub open spec fn is_worst(self, w: int) -> bool {
        let c = self.candidates@;
        &&& 0 <= w < c.len()
        &&& forall|k: int|
            0 <= k < c.len() ==> self.frozen_of(FreezeReason::CandidacyBond, c[w].account) <= self.frozen_of(
                FreezeReason::CandidacyBond,
                #[trigger] c[k].account,
            )
        &&& forall|k: int|
            0 <= k < w ==> self.frozen_of(FreezeReason::CandidacyBond, #[trigger] c[k].account) > self.frozen_of(
                FreezeReason::CandidacyBond,
                c[w].account,
            )
    }

    /// The account of the candidate with the lowest candidacy bond (see `is_worst`).
    pub open spec fn worst_candidate(self) -> AccountId {
        self.candidates@[choose|w: int| self.is_worst(w)].account
    }

    /// The position of the candidate with the lowest candidacy bond.
    pub fn find_worst(&self) -> (r: usize)
        requires
            self.candidates@.len() > 0,
        ensures
            self.is_worst(r as int),
            self.worst_candidate() == self.candidates@[r as int].account,
    {
        let mut best: usize = 0;
        let mut best_bond = self.get_bond(self.candidates[0].account);
        let mut k: usize = 1;
        while k < self.candidates.len()
            invariant
                0 <= best < k <= self.candidates@.len(),
                best_bond == self.frozen_of(FreezeReason::CandidacyBond, self.candidates@[best as int].account),
                forall|j: int|
                    0 <= j < k ==> best_bond <= self.frozen_of(
                        FreezeReason::CandidacyBond,
                        #[trigger] self.candidates@[j].account,
                    ),
                forall|j: int|
                    0 <= j < best ==> self.frozen_of(FreezeReason::CandidacyBond, #[trigger] self.candidates@[j].account)
                        > best_bond,
            decreases self.candidates@.len() - k,
        {
            let b = self.get_bond(self.candidates[k].account);
            if b < best_bond {
                best = k;
                best_bond = b;
            }
            k = k + 1;
        }
        proof {
            let w = choose|w: int| self.is_worst(w);
            assert(self.is_worst(best as int));
            if w != best as int {
                if w < best {
                    assert(self.frozen_of(FreezeReason::CandidacyBond, self.candidates@[w].account) > best_bond);
                } else {
                    assert(self.frozen_of(FreezeReason::CandidacyBond, self.candidates@[best as int].account)
                        > self.frozen_of(FreezeReason::CandidacyBond, self.candidates@[w].account));
                }
            }
        }
        best
    }

    /// Whether the candidate list is full and no candidate has a lower bond than `bond`.
    pub open spec fn no_slot_for(self, bond: Balance) -> bool {
        &&& self.candidates@.len() >= self.config.max_candidates
        &&& (self.candidates@.len() == 0 || self.frozen_of(
            FreezeReason::CandidacyBond,
            self.worst_candidate(),
        ) >= bond)
    }

    /// The error that `register_as_candidate` fails with, if any: the checks in their order.
    pub open spec fn register_as_candidate_error(self, origin: Origin, bond: Balance, keys: KeyStatus) -> Option<
        DispatchError,
    > {
        match origin {
            Origin::Signed(who) => {
                if self.invulnerables@.contains(who) {
                    Some(DispatchError::Module(Error::AlreadyInvulnerable))
                } else if keys == KeyStatus::NoCollatorId {
                    Some(DispatchError::Module(Error::NoAssociatedCollatorId))
                } else if keys == KeyStatus::NotRegistered {
                    Some(DispatchError::Module(Error::CollatorNotRegistered))
                } else if self.register_error(who, bond) is Some {
                    Some(DispatchError::Module(self.register_error(who, bond)->0))
                } else if self.no_slot_for(bond) {
                    Some(DispatchError::Module(Error::TooManyCandidates))
                } else {
                    None
                }
            },
            _ => Some(DispatchError::BadOrigin),
        }
    }

    /// `after` is this state once the signer `who` registered with `bond` through
    /// `register_as_candidate`: when the list was full, the candidate with the lowest bond was
    /// first removed with a penalty (see `candidate_removed`) to make room.
    pub open spec fn registered_as_candidate(self, after: Self, who: AccountId, bond: Balance) -> bool {
        if self.candidates@.len() >= self.config.max_candidates {
            exists|mid: Pallet|
                #[trigger] self.candidate_removed(
                    mid,
                    self.worst_candidate(),
                    true,
                    true,
                    CandidacyBondReleaseReason::Replaced,
                ) && mid.registered(
                    after,
                    who,
                    bond,
                )
        } else {
            self.registered(after, who, bond)
        }
    }

    /// Registers the signer as a collator candidate with `bond` frozen as its candidacy bond.
    ///
    /// The signer must not be an invulnerable, and `keys` (what the runtime's session keys
    /// registry says of the signer) must show registered keys. When the candidate list is
    /// full, the candidate with the lowest bond is replaced if that bond is lower than `bond`.
    pub fn register_as_candidate(&mut self, origin: Origin, bond: Balance, keys: KeyStatus) -> (r: Result<
        (),
        DispatchError,
    >)
        requires
            old(self).wf(),
        ensures
            final(self).wf(),
            r is Err <==> (old(self).register_as_candidate_error(origin, bond, keys) is Some),
            r is Err ==> *final(self) == *old(self),
            r is Err ==> r->Err_0 == old(self).register_as_candidate_error(origin, bond, keys)->0,
            r is Ok ==> old(self).registered_as_candidate(*final(self), origin->Signed_0, bond),
    {
        let who = Self::ensure_signed(origin)?;
        if self.is_invulnerable(who) {
            return Err(DispatchError::Module(Error::AlreadyInvulnerable));
        }
        match keys {
            KeyStatus::NoCollatorId => {
                return Err(DispatchError::Module(Error::NoAssociatedCollatorId));
            },
            KeyStatus::NotRegistered => {
                return Err(DispatchError::Module(Error::CollatorNotRegistered));
            },
            KeyStatus::Registered => {},
        }
        self.check_registration(who, bond)?;
        if self.candidates.len() >= self.config.max_candidates as usize {
            if self.candidates.len() == 0 {
                return Err(DispatchError::Module(Error::TooManyCandidates));
            }
            let w = self.find_worst();
            let worst = self.candidates[w].account;
            if self.get_bond(worst) >= bond {
                return Err(DispatchError::Module(Error::TooManyCandidates));
            }
            let ghost start = *self;
            proof {
                lemma_cand_index(self.candidates@, w as int);
            }
            let _ = self.remove_candidate_for(worst, true, true, CandidacyBondReleaseReason::Replaced);
            let ghost mid = *self;
            proof {
                assert(self.candidates@.len() < self.config.max_candidates);
                assert(start.register_error(who, bond) is None);
                assert(start.ledger.account(who) == mid.ledger.account(who));
                assert(!mid.is_candidate(who)) by {
                    if mid.is_candidate(who) {
                        let i = choose|i: int| 0 <= i < mid.candidates@.len() && #[trigger] mid.candidates@[i].account == who;
                        let ci = cand_index(start.candidates@, worst);
                        let i2 = if i < ci { i } else { i + 1 };
                        assert(mid.candidates@[i] == start.candidates@[i2]);
                    }
                }
            }
            let res = self.do_register_as_candidate(who, bond);
            proof {
                assert(res is Ok);
                assert(start.candidate_removed(
                    mid,
                    start.worst_candidate(),
                    true,
                    true,
                    CandidacyBondReleaseReason::Replaced,
                ) && mid.registered(
                    *self,
                    who,
                    bond,
                ));
            }
            return Ok(());
        }
        self.do_register_as_candidate(who, bond)?;
        Ok(())
    }

    /// The error that `leave_intent` fails with, if any: the checks in their order.
    pub open spec fn leave_intent_error(self, origin: Origin) -> Option<DispatchError> {
        match origin {
            Origin::Signed(who) => {
                if self.spec_eligible_collators() <= self.config.min_eligible_collators {
                    Some(DispatchError::Module(Error::TooFewEligibleCollators))
                } else if !self.is_candidate(who) {
                    Some(DispatchError::Module(Error::NotCandidate))
                } else {
                    None
                }
            },
            _ => Some(DispatchError::BadOrigin),
        }
    }

    /// Deregisters the signer as a candidate: the stakes on it stay in place, its last
    /// authored block is forgotten, and its bond is released after the bond delay (see
    /// `candidate_removed`). Fails when the number of eligible collators would drop below the
    /// minimum.
    pub fn leave_intent(&mut self, origin: Origin) -> (r: Result<(), DispatchError>)
        requires
            old(self).wf(),
        ensures
            final(self).wf(),
            r is Err <==> (old(self).leave_intent_error(origin) is Some),
            r is Err ==> *final(self) == *old(self),
            r is Err ==> r->Err_0 == old(self).leave_intent_error(origin)->0,
            r is Ok ==> old(self).candidate_removed(
                *final(self),
                origin->Signed_0,
                true,
                true,
                CandidacyBondReleaseReason::Left,
            ),
    {
        let who = Self::ensure_signed(origin)?;
        if self.eligible_collators() <= self.config.min_eligible_collators {
            return Err(DispatchError::Module(Error::TooFewEligibleCollators));
        }
        if self.find_candidate(who).is_none() {
            return Err(DispatchError::Module(Error::NotCandidate));
        }
        let _ = self.try_remove_candidate(who, true, true);
        Ok(())
    }

    /// The error that `update_candidacy_bond` fails with, if any: the checks in their order.
    pub open spec fn update_bond_error(self, origin: Origin, amount: Balance) -> Option<DispatchError> {
        match origin {
            Origin::Signed(who) => {
                if amount < self.min_candidacy_bond {
                    Some(DispatchError::Module(Error::InvalidCandidacyBond))
                } else if !self.is_candidate(who) {
                    Some(DispatchError::Module(Error::NotCandidate))
                } else if self.spec_free_balance(who).saturating_add(
                    self.frozen_of(FreezeReason::CandidacyBond, who),
                ) < amount {
                    Some(DispatchError::Module(Error::InsufficientFreeBalance))
                } else {
                    None
                }
            },
            _ => Some(DispatchError::BadOrigin),
        }
    }

    /// Raises the candidacy bond of the signing candidate to `amount` (a lower amount leaves
    /// the bond as it is). The amount must reach the minimum candidacy bond and be covered by
    /// the signer's free balance together with its current bond.
    pub fn update_candidacy_bond(&mut self, origin: Origin, amount: Balance) -> (r: Result<
        (),
        DispatchError,
    >)
        requires
            old(self).wf(),
        ensures
            final(self).wf(),
            r is Err <==> (old(self).update_bond_error(origin, amount) is Some),
            r is Err ==> *final(self) == *old(self),
            r is Err ==> r->Err_0 == old(self).update_bond_error(origin, amount)->0,
            r is Ok ==> ({
                let who = origin->Signed_0;
                let a = old(self).ledger.account(who);
                &&& final(self).ledger.account(who) == a.with_freeze(
                    FreezeReason::CandidacyBond,
                    if a.bond >= amount { a.bond } else { amount },
                )
                &&& final(self).ledger.same_except(old(self).ledger, set![who])
                &&& final(self).events@ == old(self).events@.push(
                    Event::CandidacyBondUpdated { candidate: who, new_bond: amount },
                )
                &&& *final(self) == (Pallet {
                    ledger: final(self).ledger,
                    events: final(self).events,
                    ..*old(self)
                })
            }),
    {
        let who = Self::ensure_signed(origin)?;
        if amount < self.min_candidacy_bond {
            return Err(DispatchError::Module(Error::InvalidCandidacyBond));
        }
        if self.find_candidate(who).is_none() {
            return Err(DispatchError::Module(Error::NotCandidate));
        }
        let available = self.get_free_balance(who).saturating_add(self.get_bond(who));
        if available < amount {
            return Err(DispatchError::Module(Error::InsufficientFreeBalance));
        }
        self.ledger.extend_freeze(FreezeReason::CandidacyBond, who, amount);
        self.deposit_event(Event::CandidacyBondUpdated { candidate: who, new_bond: amount });
        Ok(())
    }
}

} // verus!
