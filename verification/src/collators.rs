//! Choosing the collators of a session: kicking stale candidates and ranking candidates by
//! stake.

use vstd::prelude::*;

use crate::pallet::{distinct_accounts, in_candidates, lemma_cand_index, CandidateRecord, Pallet};
use crate::types::{AccountId, CandidacyBondReleaseReason, CandidateInfo, FreezeReason, SessionIndex};

verus! {

broadcast use vstd::std_specs::hash::group_hash_axioms;

/// `p` ranks the candidates `s`: it lists each position once, by decreasing stake, and, among
/// equal stakes, in the order of the list.
pub open spec fn ranked(s: Seq<CandidateRecord>, p: Seq<int>) -> bool {
    &&& p.len() == s.len()
    &&& forall|k: int| 0 <= k < p.len() ==> 0 <= #[trigger] p[k] < s.len()
    &&& forall|a: int, b: int| 0 <= a < p.len() && 0 <= b < p.len() && a != b ==> #[trigger] p[a] != #[trigger] p[b]
    &&& forall|a: int, b: int|
        0 <= a < b < p.len() ==> {
            ||| s[#[trigger] p[a]].info.stake > s[#[trigger] p[b]].info.stake
            ||| s[p[a]].info.stake == s[p[b]].info.stake && p[a] < p[b]
        }
}

/// A ranking of a front of the candidates: positions below `n` only.
pub open spec fn ranked_front(s: Seq<CandidateRecord>, p: Seq<int>, n: int) -> bool {
    &&& p.len() == n
    &&& forall|k: int| 0 <= k < p.len() ==> 0 <= #[trigger] p[k] < n
    &&& forall|a: int, b: int| 0 <= a < p.len() && 0 <= b < p.len() && a != b ==> #[trigger] p[a] != #[trigger] p[b]
    &&& forall|a: int, b: int|
        0 <= a < b < p.len() ==> {
            ||| s[#[trigger] p[a]].info.stake > s[#[trigger] p[b]].info.stake
            ||| s[p[a]].info.stake == s[p[b]].info.stake && p[a] < p[b]
        }
}

/// The number of candidates kept by the kick, `trace[k]` being the state in which the
/// candidate at position `k` was considered.
pub open spec fn kept_count(trace: Seq<Pallet>, cands: Seq<CandidateRecord>, n: nat) -> nat
    decreases n,
{
    if n == 0 {
        0
    } else {
        let k = n - 1;
        kept_count(trace, cands, (n - 1) as nat) + if trace[k].keeps(cands[k].account, cands[k].info) {
            1nat
        } else {
            0nat
        }
    }
}

/// The count of kept candidates over a front of the trace depends only on that front.
pub proof fn lemma_kept_count_prefix(t1: Seq<Pallet>, t2: Seq<Pallet>, cands: Seq<CandidateRecord>, n: nat)
    requires
        n <= t1.len(),
        n <= t2.len(),
        forall|k: int| 0 <= k < n ==> t1[k] == t2[k],
    ensures
        kept_count(t1, cands, n) == kept_count(t2, cands, n),
    decreases n,
{
    if n > 0 {
        lemma_kept_count_prefix(t1, t2, cands, (n - 1) as nat);
    }
}

/// Removing a candidate leaves every other candidate in the list.
pub proof fn lemma_removal_keeps_others(
    before: Pallet,
    after: Pallet,
    who: AccountId,
    reason: CandidacyBondReleaseReason,
    a: AccountId,
)
    requires
        before.wf(),
        before.is_candidate(who),
        before.candidate_removed(after, who, true, true, reason),
        in_candidates(before.candidates@, a),
        a != who,
    ensures
        in_candidates(after.candidates@, a),
{
    let i = choose|i: int| 0 <= i < before.candidates@.len() && #[trigger] before.candidates@[i].account == a;
    let w = choose|i: int| 0 <= i < before.candidates@.len() && #[trigger] before.candidates@[i].account == who;
    lemma_cand_index(before.candidates@, w);
    let ci = crate::pallet::cand_index(before.candidates@, who);
    let i2 = if i < ci { i } else { i - 1 };
    assert(after.candidates@[i2] == before.candidates@[i]);
}

impl Pallet {
    /// Whether candidate `rec` is stale: it authored no block within the kick threshold, or
    /// its bond plus stake fall below the minimum candidacy bond.
    pub open spec fn stale(self, rec: CandidateRecord) -> bool {
        ||| self.block_number.saturating_sub(self.last_authored(rec.account)) >= self.config.kick_threshold
        ||| self.frozen_of(FreezeReason::CandidacyBond, rec.account).saturating_add(rec.info.stake)
            < self.min_candidacy_bond
    }

    /// Whether the kick keeps candidate `who` with `info`: the eligible collators are at the
    /// minimum, or it authored a block within the kick threshold and its bond plus stake reach
    /// the minimum candidacy bond.
    pub open spec fn keeps(self, who: AccountId, info: CandidateInfo) -> bool {
        let since = self.block_number.saturating_sub(self.last_authored(who));
        let lazy = since >= self.config.kick_threshold;
        ||| self.spec_eligible_collators() <= self.config.min_eligible_collators
        ||| !lazy && self.frozen_of(FreezeReason::CandidacyBond, who).saturating_add(info.stake)
            >= self.min_candidacy_bond
    }

    /// `after` follows from this state when the kick considers the candidate `rec`: nothing
    /// when it is kept, its removal with a penalty as idle otherwise (see `remove_candidate_for`).
    pub open spec fn kick_step(self, after: Self, rec: CandidateRecord) -> bool {
        if self.keeps(rec.account, rec.info) {
            after == self
        } else {
            self.candidate_removed(after, rec.account, true, true, CandidacyBondReleaseReason::Idle)
        }
    }

    /// `after` is this state once stale candidates were kicked, and `r` counts those kept:
    /// each candidate, in the order of the list, is considered in turn (`kick_step`); the
    /// removed ones go with a penalty, their stakes staying in place.
    pub open spec fn kicked(self, after: Self, r: u32) -> bool {
        let cands = self.candidates@;
        exists|trace: Seq<Pallet>|
            {
                &&& #[trigger] trace.len() == cands.len() + 1
                &&& trace[0] == self
                &&& after == trace[cands.len() as int]
                &&& forall|k: int| 0 <= k < cands.len() ==> #[trigger] trace[k].kick_step(trace[k + 1], cands[k])
                &&& r == kept_count(trace, cands, cands.len())
            }
    }

    /// Kicks out the candidates that did not author a block within the kick threshold or whose
    /// bond plus stake fell below the minimum candidacy bond, as long as there are more eligible
    /// collators than the minimum; the stakes on them stay in place, and their bond is released
    /// after the bond delay. Returns the number of candidates left. After the kick the eligible
    /// collators number at least the minimum, or at least as many as before, and every
    /// candidate removed was stale (see `stale`).
    pub fn kick_stale_candidates(&mut self) -> (r: u32)
        requires
            old(self).wf(),
        ensures
            final(self).wf(),
            old(self).kicked(*final(self), r),
            r == final(self).candidates@.len(),
            final(self).spec_eligible_collators() >= old(self).spec_eligible_collators()
                || final(self).spec_eligible_collators() >= old(self).config.min_eligible_collators,
            forall|j: int|
                0 <= j < old(self).candidates@.len() && !in_candidates(
                    final(self).candidates@,
                    #[trigger] old(self).candidates@[j].account,
                ) ==> old(self).stale(old(self).candidates@[j]),
    {
        let ghost cands = self.candidates@;
        let ghost start = *self;
        let n = self.candidates.len();
        let mut snapshot: Vec<(AccountId, CandidateInfo)> = Vec::new();
        let mut k: usize = 0;
        while k < n
            invariant
                k <= n,
                n == cands.len(),
                self.candidates@ == cands,
                snapshot@.len() == k,
                forall|j: int| 0 <= j < k ==> #[trigger] snapshot@[j] == (cands[j].account, cands[j].info),
            decreases n - k,
        {
            snapshot.push((self.candidates[k].account, self.candidates[k].info));
            k = k + 1;
        }
        let now = self.block_number;
        let kick_threshold = self.config.kick_threshold;
        let min_collators = self.config.min_eligible_collators;
        let candidacy_bond = self.min_candidacy_bond;
        let mut count: u32 = 0;
        let ghost mut trace: Seq<Pallet> = seq![*self];
        k = 0;
        while k < n
            invariant
                self.wf(),
                start.wf(),
                k <= n,
                n == cands.len(),
                cands == start.candidates@,
                snapshot@.len() == n,
                forall|j: int| 0 <= j < n ==> #[trigger] snapshot@[j] == (cands[j].account, cands[j].info),
                forall|j: int| k <= j < n ==> in_candidates(self.candidates@, #[trigger] cands[j].account),
                distinct_accounts(cands),
                now == self.block_number,
                kick_threshold == self.config.kick_threshold,
                min_collators == self.config.min_eligible_collators,
                candidacy_bond == self.min_candidacy_bond,
                self.config == start.config,
                trace.len() == k + 1,
                trace[0] == start,
                trace[k as int] == *self,
                forall|j: int| 0 <= j < k ==> #[trigger] trace[j].kick_step(trace[j + 1], cands[j]),
                count == kept_count(trace, cands, k as nat),
                count <= k,
                self.candidates@.len() + k == n + count,
                self.invulnerables == start.invulnerables,
                self.spec_eligible_collators() >= start.spec_eligible_collators()
                    || self.spec_eligible_collators() >= min_collators,
                forall|j: int|
                    0 <= j < k && !in_candidates(self.candidates@, #[trigger] cands[j].account) ==> start.stale(
                        cands[j],
                    ),
                forall|j: int|
                    k <= j < n ==> self.last_authored(#[trigger] cands[j].account) == start.last_authored(
                        cands[j].account,
                    ) && self.frozen_of(FreezeReason::CandidacyBond, cands[j].account) == start.frozen_of(
                        FreezeReason::CandidacyBond,
                        cands[j].account,
                    ),
                start.block_number == now,
                start.min_candidacy_bond == candidacy_bond,
            decreases n - k,
        {
            let who = snapshot[k].0;
            let info = snapshot[k].1;
            let ghost before = *self;
            let last = match self.last_authored_block.get(&who) {
                Some(b) => *b,
                None => 0,
            };
            let since = now.saturating_sub(last);
            let is_lazy = since >= kick_threshold;
            let bond = self.get_bond(who);
            let keep = self.eligible_collators() <= min_collators || (!is_lazy && bond.saturating_add(
                info.stake,
            ) >= candidacy_bond);
            if keep {
                count = count + 1;
            } else {
                let res = self.remove_candidate_for(who, true, true, CandidacyBondReleaseReason::Idle);
                proof {
                    assert(before.candidate_removed(*self, who, true, true, CandidacyBondReleaseReason::Idle));
                    assert(in_candidates(before.candidates@, who));
                    assert forall|j: int| k < j < n implies in_candidates(self.candidates@, #[trigger] cands[j].account) by {
                        assert(cands[j].account != cands[k as int].account);
                        lemma_removal_keeps_others(
                            before,
                            *self,
                            who,
                            CandidacyBondReleaseReason::Idle,
                            cands[j].account,
                        );
                    }
                    assert forall|j: int|
                        0 <= j < k && !in_candidates(self.candidates@, #[trigger] cands[j].account) implies start.stale(
                        cands[j],
                    ) by {
                        assert(cands[j].account != cands[k as int].account);
                        if in_candidates(before.candidates@, cands[j].account) {
                            lemma_removal_keeps_others(
                                before,
                                *self,
                                who,
                                CandidacyBondReleaseReason::Idle,
                                cands[j].account,
                            );
                        }
                    }
                    assert(start.stale(cands[k as int]));
                    assert forall|j: int| k < j < n implies self.last_authored(#[trigger] cands[j].account)
                        == start.last_authored(cands[j].account) && self.frozen_of(
                        FreezeReason::CandidacyBond,
                        cands[j].account,
                    ) == start.frozen_of(FreezeReason::CandidacyBond, cands[j].account) by {
                        assert(cands[j].account != cands[k as int].account);
                        assert(self.ledger.account(cands[j].account) == before.ledger.account(cands[j].account));
                    }
                }
            }
            proof {
                let old_trace = trace;
                trace = trace.push(*self);
                assert(trace.drop_last() =~= old_trace);
                assert(trace[k as int] == before);
                assert forall|j: int| 0 <= j < k + 1 implies #[trigger] trace[j].kick_step(trace[j + 1], cands[j]) by {
                    if j < k {
                        assert(trace[j] == old_trace[j]);
                        assert(trace[j + 1] == old_trace[j + 1]);
                    }
                }
                lemma_kept_count_prefix(old_trace, trace, cands, k as nat);
                assert(kept_count(trace, cands, (k + 1) as nat) == kept_count(trace, cands, k as nat) + if keep {
                    1nat
                } else {
                    0nat
                });
            }
            k = k + 1;
        }
        count
    }

    /// The positions of the candidates ranked by decreasing stake, ties in list order.
    pub fn rank_candidates(&self) -> (r: Vec<usize>)
        ensures
            ranked(self.candidates@, r@.map_values(|i: usize| i as int)),
    {
        let ghost s = self.candidates@;
        let n = self.candidates.len();
        let mut idx: Vec<usize> = Vec::new();
        let mut i: usize = 0;
        while i < n
            invariant
                i <= n,
                n == s.len(),
                s == self.candidates@,
                ranked_front(s, idx@.map_values(|x: usize| x as int), i as int),
            decreases n - i,
        {
            let stake = self.candidates[i].info.stake;
            let mut pos: usize = 0;
            while pos < idx.len()
                invariant
                    pos <= idx@.len(),
                    i < n,
                    n == s.len(),
                    s == self.candidates@,
                    stake == s[i as int].info.stake,
                    ranked_front(s, idx@.map_values(|x: usize| x as int), i as int),
                    forall|k: int| 0 <= k < pos ==> s[#[trigger] idx@[k] as int].info.stake >= stake,
                ensures
                    pos <= idx@.len(),
                    forall|k: int| 0 <= k < pos ==> s[#[trigger] idx@[k] as int].info.stake >= stake,
                    pos < idx@.len() ==> s[idx@[pos as int] as int].info.stake < stake,
                decreases idx@.len() - pos,
            {
                assert(idx@.map_values(|x: usize| x as int)[pos as int] == idx@[pos as int] as int);
                if self.candidates[idx[pos]].info.stake < stake {
                    break;
                }
                pos = pos + 1;
            }
            let ghost before = idx@.map_values(|x: usize| x as int);
            idx.insert(pos, i);
            proof {
                let p = idx@.map_values(|x: usize| x as int);
                assert(p =~= before.insert(pos as int, i as int));
                assert forall|a: int, b: int|
                    0 <= a < b < p.len() implies {
                        ||| s[#[trigger] p[a]].info.stake > s[#[trigger] p[b]].info.stake
                        ||| s[p[a]].info.stake == s[p[b]].info.stake && p[a] < p[b]
                    } by {
                    if b < pos {
                        assert(p[a] == before[a] && p[b] == before[b]);
                    } else if b == pos {
                        assert(p[a] == before[a]);
                    } else if a < pos {
                        assert(p[a] == before[a] && p[b] == before[b - 1]);
                    } else if a == pos {
                        assert(p[b] == before[b - 1]);
                        assert(s[before[pos as int]].info.stake < stake);
                        assert(s[before[pos as int]].info.stake >= s[before[b - 1]].info.stake || pos
                            == b - 1);
                    } else {
                        assert(p[a] == before[a - 1] && p[b] == before[b - 1]);
                    }
                }
                assert forall|a: int, b: int|
                    0 <= a < p.len() && 0 <= b < p.len() && a != b implies #[trigger] p[a] != #[trigger] p[b] by {
                    let a2 = if a < pos { a } else if a == pos { -1 } else { a - 1 };
                    let b2 = if b < pos { b } else if b == pos { -1 } else { b - 1 };
                    if a2 >= 0 {
                        assert(p[a] == before[a2]);
                    }
                    if b2 >= 0 {
                        assert(p[b] == before[b2]);
                    }
                }
                assert forall|k: int| 0 <= k < p.len() implies 0 <= #[trigger] p[k] < i + 1 by {
                    if k < pos {
                        assert(p[k] == before[k]);
                    } else if k > pos {
                        assert(p[k] == before[k - 1]);
                    }
                }
            }
            i = i + 1;
        }
        idx
    }

    /// The candidates with their information, sorted by decreasing stake; equal stakes keep
    /// the order of the candidate list.
    pub fn get_sorted_candidate_list(&self) -> (r: Vec<(AccountId, CandidateInfo)>)
        ensures
            exists|p: Seq<int>|
                {
                    &&& #[trigger] ranked(self.candidates@, p)
                    &&& r@.len() == p.len()
                    &&& forall|k: int|
                        0 <= k < p.len() ==> #[trigger] r@[k] == (
                            self.candidates@[p[k]].account,
                            self.candidates@[p[k]].info,
                        )
                },
    {
        let idx = self.rank_candidates();
        let ghost p = idx@.map_values(|x: usize| x as int);
        let mut r: Vec<(AccountId, CandidateInfo)> = Vec::new();
        let mut k: usize = 0;
        while k < idx.len()
            invariant
                k <= idx@.len(),
                p == idx@.map_values(|x: usize| x as int),
                ranked(self.candidates@, p),
                r@.len() == k,
                forall|j: int|
                    0 <= j < k ==> #[trigger] r@[j] == (self.candidates@[p[j]].account, self.candidates@[p[j]].info),
            decreases idx@.len() - k,
        {
            let c = idx[k];
            assert(p[k as int] == c as int);
            r.push((self.candidates[c].account, self.candidates[c].info));
            k = k + 1;
        }
        r
    }

    /// The accounts of the collators of the next session for a ranking `p`: the invulnerables,
    /// then the best-ranked candidates, as many as desired.
    pub open spec fn assembled(self, p: Seq<int>) -> Seq<AccountId> {
        let n = if self.desired_candidates <= self.candidates@.len() {
            self.desired_candidates as int
        } else {
            self.candidates@.len() as int
        };
        self.invulnerables@ + Seq::new(n as nat, |k: int| self.candidates@[p[k]].account)
    }

    /// Assembles the next collator set: the invulnerables, then the candidates with the most
    /// stake (ties in list order), as many as desired.
    pub fn assemble_collators(&self) -> (r: Vec<AccountId>)
        ensures
            exists|p: Seq<int>| #[trigger] ranked(self.candidates@, p) && r@ == self.assembled(p),
    {
        let desired = self.desired_candidates as usize;
        let mut collators = self.invulnerables.clone();
        assert(collators@ =~= self.invulnerables@);
        let best = self.get_sorted_candidate_list();
        let ghost p = choose|p: Seq<int>|
            #[trigger] ranked(self.candidates@, p) && best@.len() == p.len() && forall|k: int|
                0 <= k < p.len() ==> #[trigger] best@[k] == (
                    self.candidates@[p[k]].account,
                    self.candidates@[p[k]].info,
                );
        let m = if desired <= best.len() { desired } else { best.len() };
        let mut k: usize = 0;
        let ghost inv = self.invulnerables@;
        while k < m
            invariant
                k <= m,
                m <= best@.len(),
                best@.len() == p.len(),
                forall|j: int|
                    0 <= j < p.len() ==> #[trigger] best@[j] == (
                        self.candidates@[p[j]].account,
                        self.candidates@[p[j]].info,
                    ),
                collators@ =~= inv + Seq::new(k as nat, |j: int| self.candidates@[p[j]].account),
            decreases m - k,
        {
            collators.push(best[k].0);
            k = k + 1;
        }
        proof {
            assert(ranked(self.candidates@, p));
            assert(collators@ =~= self.assembled(p));
        }
        collators
    }

    /// The session manager's hook for a new session `index`: stale candidates are kicked, then
    /// the next collator set is assembled.
    pub fn new_session(&mut self, index: SessionIndex) -> (r: Option<Vec<AccountId>>)
        requires
            old(self).wf(),
        ensures
            final(self).wf(),
            r is Some,
            exists|kept: u32| #[trigger] old(self).kicked(*final(self), kept),
            exists|p: Seq<int>| #[trigger] ranked(final(self).candidates@, p) && r->0@ == final(self).assembled(p),
    {
        let kept = self.kick_stale_candidates();
        let result = self.assemble_collators();
        Some(result)
    }
}

} // verus!
