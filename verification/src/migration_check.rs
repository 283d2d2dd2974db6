//! Checks around the storage migration: a snapshot of the state before it, and the
//! comparison of the state after it with that snapshot.

use vstd::prelude::*;
use vstd::std_specs::iter::IteratorSpec;

use crate::migration::{
    ascending, queue_ranks, ranks, stake_ranks, AutoCompoundEntry, BondRelease, BondReleaseEntry,
    LazyMigrationV1ToV2, LockedBalance, MigrationStore, QueueEntry, QueueView, StakeEntry, StakeValue, StoreView,
};
use crate::release::sat_sum;
use crate::types::{AccountId, Balance, ReleaseRequest};

verus! {

broadcast use vstd::std_specs::hash::group_hash_axioms;

/// The candidacy bond of a candidate, as frozen before the migration.
#[derive(Clone, Copy, Debug, PartialEq, Eq, Structural)]
pub struct BondEntry {
    /// The candidate.
    pub candidate: AccountId,
    /// Its frozen bond.
    pub bond: Balance,
}

/// The state that the check after the migration compares with.
pub struct PreUpgradeState {
    /// The stakes, by candidate and staker.
    pub candidate_stakes: Vec<StakeEntry>,
    /// The auto-compounding preferences.
    pub autocompound: Vec<AutoCompoundEntry>,
    /// The release queues, by staker.
    pub releases: Vec<QueueEntry>,
    /// The frozen bond of each candidate.
    pub bonds: Vec<BondEntry>,
    /// The pending bond releases, by candidate.
    pub bond_releases: Vec<BondReleaseEntry>,
}

/// Why the state after the migration is not what it should be.
#[derive(Clone, Copy, Debug, PartialEq, Eq, Structural)]
pub enum PostUpgradeError {
    /// The storage version is not 2.
    StorageVersion,
    /// The number of stakes changed.
    StakeCount,
    /// A stake changed.
    StakeChanged,
    /// A stake is not in the new layout (with its checkpoint at zero).
    CheckpointNotZero,
    /// A staker with a release queue still has funds frozen for releasing.
    ReleaseFreezeNotZero,
    /// A release queue has more requests than before.
    MoreReleaseRequests,
    /// A release queue releases more than before.
    ReleasingGrew,
    /// A release queue releases more than is locked as releasing.
    ReleasingNotLocked,
    /// A candidate still has funds frozen as candidacy bond.
    BondFreezeNotZero,
    /// A candidate's locked bond is neither its bond from before nor zero.
    BondChanged,
    /// There are more pending bond releases than before.
    MoreBondReleases,
    /// A former candidate with a pending bond release still has funds frozen for releasing.
    BondReleaseFreezeNotZero,
    /// A pending bond release changed.
    BondReleaseChanged,
    /// A locked releasing balance is not the sum of the pending releases of its account.
    ReleasingMismatch,
    /// An auto-compounding setting does not match the preference from before.
    AutoCompoundChanged,
    /// The claimable rewards were not reset.
    RewardsNotReset,
}

/// The release queues of a snapshot, as values.
pub open spec fn queue_views(s: Seq<QueueEntry>) -> Seq<QueueView> {
    s.map_values(|q: QueueEntry| q@)
}

/// The first failure of `check` over `s`, in order, if any.
pub open spec fn first_failure<T>(s: Seq<T>, check: spec_fn(T) -> Option<PostUpgradeError>) -> Option<
    PostUpgradeError,
>
    decreases s.len(),
{
    if s.len() == 0 {
        None
    } else {
        let r = first_failure(s.drop_last(), check);
        if r is Some {
            r
        } else {
            check(s.last())
        }
    }
}

/// Once a prefix of `s` has a failure, it is the first failure of `s`.
pub proof fn lemma_first_failure_prefix<T>(s: Seq<T>, check: spec_fn(T) -> Option<PostUpgradeError>, i: int)
    requires
        0 <= i <= s.len(),
        first_failure(s.take(i), check) is Some,
    ensures
        first_failure(s, check) == first_failure(s.take(i), check),
    decreases s.len(),
{
    if i == s.len() {
        assert(s.take(i) =~= s);
    } else {
        assert(s.drop_last().take(i) =~= s.take(i));
        lemma_first_failure_prefix(s.drop_last(), check, i);
    }
}

/// The stake that `s` records for `staker` on `candidate`, if any.
pub open spec fn stake_record(s: Seq<StakeEntry>, candidate: AccountId, staker: AccountId) -> Option<StakeValue> {
    if exists|i: int| 0 <= i < s.len() && s[i].candidate == candidate && s[i].staker == staker {
        Some(s[choose|i: int| 0 <= i < s.len() && s[i].candidate == candidate && s[i].staker == staker].value)
    } else {
        None
    }
}

/// The release requests that `s` records for `who` (none when it has no queue).
pub open spec fn queue_of(s: Seq<QueueView>, who: AccountId) -> Seq<ReleaseRequest> {
    if exists|i: int| 0 <= i < s.len() && s[i].staker == who {
        s[choose|i: int| 0 <= i < s.len() && s[i].staker == who].requests
    } else {
        Seq::empty()
    }
}

/// The pending bond release that `s` records for `who`, if any.
pub open spec fn bond_release_of(s: Seq<BondReleaseEntry>, who: AccountId) -> Option<BondRelease> {
    if exists|i: int| 0 <= i < s.len() && s[i].candidate == who {
        Some(s[choose|i: int| 0 <= i < s.len() && s[i].candidate == who].release)
    } else {
        None
    }
}

/// The sum of the amounts of a sequence of requests.
pub open spec fn exact_sum(s: Seq<ReleaseRequest>) -> int
    decreases s.len(),
{
    if s.len() == 0 {
        0
    } else {
        exact_sum(s.drop_last()) + s.last().amount
    }
}

/// The check of a stake from before: its amount is unchanged (a missing stake counts as
/// zero) and it is in the new layout.
pub open spec fn stake_check(v: StoreView) -> spec_fn(StakeEntry) -> Option<PostUpgradeError> {
    |e: StakeEntry|
        {
            let now = stake_record(v.candidate_stake, e.candidate, e.staker);
            let amount = match now {
                Some(x) => x.amount(),
                None => 0,
            };
            if e.value.amount() != amount {
                Some(PostUpgradeError::StakeChanged)
            } else if now matches Some(StakeValue::Old { .. }) {
                Some(PostUpgradeError::CheckpointNotZero)
            } else {
                None
            }
        }
}

/// The check of a release queue from before: its staker has nothing frozen for releasing,
/// its queue has no more requests and releases no more than before (sums saturating), and
/// what it releases is locked as releasing.
pub open spec fn release_check(v: StoreView) -> spec_fn(QueueView) -> Option<PostUpgradeError> {
    |e: QueueView|
        {
            let now = queue_of(v.release_queues, e.staker);
            if v.account(e.staker).releasing != 0 {
                Some(PostUpgradeError::ReleaseFreezeNotZero)
            } else if e.requests.len() < now.len() {
                Some(PostUpgradeError::MoreReleaseRequests)
            } else if sat_sum(e.requests) < sat_sum(now) {
                Some(PostUpgradeError::ReleasingGrew)
            } else if v.locked(e.staker).releasing < sat_sum(now) {
                Some(PostUpgradeError::ReleasingNotLocked)
            } else {
                None
            }
        }
}

/// The check of a bond from before: nothing is frozen as candidacy bond any more, and the
/// locked bond is the bond from before or zero.
pub open spec fn bond_check(v: StoreView) -> spec_fn(BondEntry) -> Option<PostUpgradeError> {
    |b: BondEntry|
        {
            let locked = v.locked(b.candidate).candidacy_bond;
            if v.account(b.candidate).bond != 0 {
                Some(PostUpgradeError::BondFreezeNotZero)
            } else if locked != b.bond && locked != 0 {
                Some(PostUpgradeError::BondChanged)
            } else {
                None
            }
        }
}

/// The check of a pending bond release from before: nothing is frozen for releasing any
/// more, and if the release is still pending, it is unchanged.
pub open spec fn bond_release_check(v: StoreView) -> spec_fn(BondReleaseEntry) -> Option<PostUpgradeError> {
    |e: BondReleaseEntry|
        {
            let now = bond_release_of(v.bond_releases, e.candidate);
            if v.account(e.candidate).releasing != 0 {
                Some(PostUpgradeError::BondReleaseFreezeNotZero)
            } else if now is Some && now->0 != e.release {
                Some(PostUpgradeError::BondReleaseChanged)
            } else {
                None
            }
        }
}

/// The check of an auto-compounding preference from before: the account compounds exactly
/// when its preference was not zero.
pub open spec fn autocompound_check(v: StoreView) -> spec_fn(AutoCompoundEntry) -> Option<PostUpgradeError> {
    |e: AutoCompoundEntry|
        {
            let compounds = v.auto_compound_settings.contains_key(e.staker)
                && v.auto_compound_settings[e.staker];
            if compounds != (e.percentage.parts != 0) {
                Some(PostUpgradeError::AutoCompoundChanged)
            } else {
                None
            }
        }
}

/// The releasing balance locked for `who` is the sum of its pending bond release and its
/// release requests.
pub open spec fn releasing_matches(v: StoreView, who: AccountId) -> bool {
    let bond = match bond_release_of(v.bond_releases, who) {
        Some(r) => r.bond as int,
        None => 0,
    };
    v.locked_balances[who].releasing == bond + exact_sum(queue_of(v.release_queues, who))
}

/// The stake recorded in `s` for `staker` on `candidate`, if any.
fn find_stake_record(s: &Vec<StakeEntry>, candidate: AccountId, staker: AccountId) -> (r: Option<StakeValue>)
    requires
        ascending(stake_ranks(s@)),
    ensures
        r == stake_record(s@, candidate, staker),
{
    let mut i: usize = 0;
    while i < s.len()
        invariant
            i <= s@.len(),
            ascending(stake_ranks(s@)),
            forall|j: int| 0 <= j < i ==> !(s@[j].candidate == candidate && s@[j].staker == staker),
        decreases s@.len() - i,
    {
        if s[i].candidate == candidate && s[i].staker == staker {
            proof {
                let j = choose|j: int| 0 <= j < s@.len() && s@[j].candidate == candidate && s@[j].staker == staker;
                assert(stake_ranks(s@)[j] == stake_ranks(s@)[i as int]);
                if j < i {
                    assert(stake_ranks(s@)[j] < stake_ranks(s@)[i as int]);
                } else if j > i {
                    assert(stake_ranks(s@)[i as int] < stake_ranks(s@)[j]);
                }
            }
            return Some(s[i].value);
        }
        i = i + 1;
    }
    None
}

/// The position in `s` of the release queue of `who`, if it has one.
fn find_queue(s: &Vec<QueueEntry>, who: AccountId) -> (r: Option<usize>)
    requires
        ascending(queue_ranks(queue_views(s@))),
    ensures
        match r {
            Some(i) => i < s@.len() && s@[i as int].staker == who && queue_of(queue_views(s@), who)
                == s@[i as int].requests@,
            None => queue_of(queue_views(s@), who) == Seq::<ReleaseRequest>::empty(),
        },
{
    let ghost vs = queue_views(s@);
    let mut i: usize = 0;
    while i < s.len()
        invariant
            i <= s@.len(),
            vs == queue_views(s@),
            ascending(queue_ranks(vs)),
            forall|j: int| 0 <= j < i ==> vs[j].staker != who,
        decreases s@.len() - i,
    {
        if s[i].staker == who {
            proof {
                assert(vs[i as int].staker == who);
                let j = choose|j: int| 0 <= j < vs.len() && vs[j].staker == who;
                assert(queue_ranks(vs)[j] == queue_ranks(vs)[i as int]);
                if j < i {
                    assert(queue_ranks(vs)[j] < queue_ranks(vs)[i as int]);
                } else if j > i {
                    assert(queue_ranks(vs)[i as int] < queue_ranks(vs)[j]);
                }
            }
            return Some(i);
        }
        i = i + 1;
    }
    None
}

/// The pending bond release of `who` in `s`, if any.
fn find_bond_release(s: &Vec<BondReleaseEntry>, who: AccountId) -> (r: Option<BondRelease>)
    requires
        ascending(ranks(s@)),
    ensures
        r == bond_release_of(s@, who),
{
    let mut i: usize = 0;
    while i < s.len()
        invariant
            i <= s@.len(),
            ascending(ranks(s@)),
            forall|j: int| 0 <= j < i ==> s@[j].candidate != who,
        decreases s@.len() - i,
    {
        if s[i].candidate == who {
            proof {
                let j = choose|j: int| 0 <= j < s@.len() && s@[j].candidate == who;
                assert(ranks(s@)[j] == ranks(s@)[i as int]);
                if j < i {
                    assert(ranks(s@)[j] < ranks(s@)[i as int]);
                } else if j > i {
                    assert(ranks(s@)[i as int] < ranks(s@)[j]);
                }
            }
            return Some(s[i].release);
        }
        i = i + 1;
    }
    None
}

/// The sum of the amounts of `reqs`, each addition saturating.
fn saturating_total(reqs: &Vec<ReleaseRequest>) -> (r: Balance)
    ensures
        r == sat_sum(reqs@),
{
    let mut total: u64 = 0;
    let mut i: usize = 0;
    while i < reqs.len()
        invariant
            i <= reqs@.len(),
            total == sat_sum(reqs@.take(i as int)),
        decreases reqs@.len() - i,
    {
        proof {
            assert(reqs@.take(i + 1).drop_last() =~= reqs@.take(i as int));
        }
        total = total.saturating_add(reqs[i].amount);
        i = i + 1;
    }
    proof {
        assert(reqs@.take(reqs@.len() as int) =~= reqs@);
    }
    total
}

/// The sum of the amounts of `s` is at most `s.len()` times the largest amount.
proof fn lemma_exact_sum_bound(s: Seq<ReleaseRequest>)
    ensures
        0 <= exact_sum(s) <= s.len() * 0xffff_ffff_ffff_ffffint,
    decreases s.len(),
{
    if s.len() > 0 {
        lemma_exact_sum_bound(s.drop_last());
    }
}

/// The sum of the amounts of `reqs`, exactly.
fn exact_total(reqs: &Vec<ReleaseRequest>) -> (r: u128)
    ensures
        r == exact_sum(reqs@),
{
    let mut total: u128 = 0;
    let mut i: usize = 0;
    while i < reqs.len()
        invariant
            i <= reqs@.len(),
            total == exact_sum(reqs@.take(i as int)),
        decreases reqs@.len() - i,
    {
        proof {
            assert(reqs@.take(i + 1).drop_last() =~= reqs@.take(i as int));
            lemma_exact_sum_bound(reqs@.take(i + 1));
            assert(i + 1 <= usize::MAX);
        }
        total = total + reqs[i].amount as u128;
        i = i + 1;
    }
    proof {
        assert(reqs@.take(reqs@.len() as int) =~= reqs@);
    }
    total
}

/// Checks each stake from before, in order.
fn check_stakes(prev: &Vec<StakeEntry>, store: &MigrationStore) -> (r: Option<PostUpgradeError>)
    requires
        store@.wf(),
    ensures
        r == first_failure(prev@, stake_check(store@)),
{
    let ghost f = stake_check(store@);
    let mut i: usize = 0;
    while i < prev.len()
        invariant
            i <= prev@.len(),
            store@.wf(),
            f == stake_check(store@),
            first_failure(prev@.take(i as int), f) is None,
        decreases prev@.len() - i,
    {
        let e = prev[i];
        let now = find_stake_record(&store.candidate_stake, e.candidate, e.staker);
        let amount = match now {
            Some(StakeValue::Old { stake, .. }) => stake,
            Some(StakeValue::Migrated { stake }) => stake,
            None => 0,
        };
        let before = match e.value {
            StakeValue::Old { stake, .. } => stake,
            StakeValue::Migrated { stake } => stake,
        };
        let r = if before != amount {
            Some(PostUpgradeError::StakeChanged)
        } else {
            match now {
                Some(StakeValue::Old { .. }) => Some(PostUpgradeError::CheckpointNotZero),
                _ => None,
            }
        };
        proof {
            assert(prev@.take(i + 1).drop_last() =~= prev@.take(i as int));
            assert(r == f(prev@[i as int]));
        }
        if r.is_some() {
            proof {
                lemma_first_failure_prefix(prev@, f, i + 1);
            }
            return r;
        }
        i = i + 1;
    }
    proof {
        assert(prev@.take(prev@.len() as int) =~= prev@);
    }
    None
}

/// Checks each release queue from before, in order.
fn check_releases(prev: &Vec<QueueEntry>, store: &MigrationStore) -> (r: Option<PostUpgradeError>)
    requires
        store@.wf(),
    ensures
        r == first_failure(queue_views(prev@), release_check(store@)),
{
    let ghost f = release_check(store@);
    let ghost ps = queue_views(prev@);
    proof {
        assert(queue_views(store.release_queues@) == store@.release_queues);
    }
    let mut i: usize = 0;
    while i < prev.len()
        invariant
            i <= prev@.len(),
            store@.wf(),
            ps == queue_views(prev@),
            queue_views(store.release_queues@) == store@.release_queues,
            f == release_check(store@),
            first_failure(ps.take(i as int), f) is None,
        decreases prev@.len() - i,
    {
        let staker = prev[i].staker;
        let frozen = store.ledger.balance_frozen(crate::types::FreezeReason::Releasing, staker);
        let r = if frozen != 0 {
            Some(PostUpgradeError::ReleaseFreezeNotZero)
        } else {
            let (now_len, now_total) = match find_queue(&store.release_queues, staker) {
                Some(q) => (store.release_queues[q].requests.len(), saturating_total(&store.release_queues[q].requests)),
                None => (0, 0),
            };
            let before_total = saturating_total(&prev[i].requests);
            let locked = store.get_locked(staker);
            if prev[i].requests.len() < now_len {
                Some(PostUpgradeError::MoreReleaseRequests)
            } else if before_total < now_total {
                Some(PostUpgradeError::ReleasingGrew)
            } else if locked.releasing < now_total {
                Some(PostUpgradeError::ReleasingNotLocked)
            } else {
                None
            }
        };
        proof {
            assert(ps.take(i + 1).drop_last() =~= ps.take(i as int));
            assert(ps[i as int] == prev@[i as int]@);
            assert(r == f(ps[i as int]));
        }
        if r.is_some() {
            proof {
                lemma_first_failure_prefix(ps, f, i + 1);
            }
            return r;
        }
        i = i + 1;
    }
    proof {
        assert(ps.take(ps.len() as int) =~= ps);
    }
    None
}

/// Checks each bond from before, in order.
fn check_bonds(prev: &Vec<BondEntry>, store: &MigrationStore) -> (r: Option<PostUpgradeError>)
    ensures
        r == first_failure(prev@, bond_check(store@)),
{
    let ghost f = bond_check(store@);
    let mut i: usize = 0;
    while i < prev.len()
        invariant
            i <= prev@.len(),
            f == bond_check(store@),
            first_failure(prev@.take(i as int), f) is None,
        decreases prev@.len() - i,
    {
        let b = prev[i];
        let frozen = store.ledger.balance_frozen(crate::types::FreezeReason::CandidacyBond, b.candidate);
        let locked = store.get_locked(b.candidate).candidacy_bond;
        let r = if frozen != 0 {
            Some(PostUpgradeError::BondFreezeNotZero)
        } else if locked != b.bond && locked != 0 {
            Some(PostUpgradeError::BondChanged)
        } else {
            None
        };
        proof {
            assert(prev@.take(i + 1).drop_last() =~= prev@.take(i as int));
            assert(r == f(prev@[i as int]));
        }
        if r.is_some() {
            proof {
                lemma_first_failure_prefix(prev@, f, i + 1);
            }
            return r;
        }
        i = i + 1;
    }
    proof {
        assert(prev@.take(prev@.len() as int) =~= prev@);
    }
    None
}

/// Checks each pending bond release from before, in order.
fn check_bond_releases(prev: &Vec<BondReleaseEntry>, store: &MigrationStore) -> (r: Option<PostUpgradeError>)
    requires
        store@.wf(),
    ensures
        r == first_failure(prev@, bond_release_check(store@)),
{
    let ghost f = bond_release_check(store@);
    let mut i: usize = 0;
    while i < prev.len()
        invariant
            i <= prev@.len(),
            store@.wf(),
            f == bond_release_check(store@),
            first_failure(prev@.take(i as int), f) is None,
        decreases prev@.len() - i,
    {
        let e = prev[i];
        let frozen = store.ledger.balance_frozen(crate::types::FreezeReason::Releasing, e.candidate);
        let now = find_bond_release(&store.bond_releases, e.candidate);
        let r = if frozen != 0 {
            Some(PostUpgradeError::BondReleaseFreezeNotZero)
        } else {
            match now {
                Some(n) => if n.bond != e.release.bond || n.block != e.release.block {
                    Some(PostUpgradeError::BondReleaseChanged)
                } else {
                    None
                },
                None => None,
            }
        };
        proof {
            assert(prev@.take(i + 1).drop_last() =~= prev@.take(i as int));
            assert(r == f(prev@[i as int]));
        }
        if r.is_some() {
            proof {
                lemma_first_failure_prefix(prev@, f, i + 1);
            }
            return r;
        }
        i = i + 1;
    }
    proof {
        assert(prev@.take(prev@.len() as int) =~= prev@);
    }
    None
}

/// Checks each auto-compounding preference from before, in order.
fn check_autocompound(prev: &Vec<AutoCompoundEntry>, store: &MigrationStore) -> (r: Option<PostUpgradeError>)
    ensures
        r == first_failure(prev@, autocompound_check(store@)),
{
    let ghost f = autocompound_check(store@);
    let mut i: usize = 0;
    while i < prev.len()
        invariant
            i <= prev@.len(),
            f == autocompound_check(store@),
            first_failure(prev@.take(i as int), f) is None,
        decreases prev@.len() - i,
    {
        let e = prev[i];
        let compounds = match store.auto_compound_settings.get(&e.staker) {
            Some(b) => *b,
            None => false,
        };
        let r = if compounds != !e.percentage.is_zero() {
            Some(PostUpgradeError::AutoCompoundChanged)
        } else {
            None
        };
        proof {
            assert(prev@.take(i + 1).drop_last() =~= prev@.take(i as int));
            assert(r == f(prev@[i as int]));
        }
        if r.is_some() {
            proof {
                lemma_first_failure_prefix(prev@, f, i + 1);
            }
            return r;
        }
        i = i + 1;
    }
    proof {
        assert(prev@.take(prev@.len() as int) =~= prev@);
    }
    None
}

/// Whether the releasing balance `locked` of `who` is the sum of its pending releases.
fn releasing_matches_exec(store: &MigrationStore, who: AccountId, locked: LockedBalance) -> (r: bool)
    requires
        store@.wf(),
        store@.locked_balances.contains_key(who),
        locked == store@.locked_balances[who],
    ensures
        r == releasing_matches(store@, who),
{
    let bond: u128 = match find_bond_release(&store.bond_releases, who) {
        Some(b) => b.bond as u128,
        None => 0,
    };
    proof {
        assert(queue_views(store.release_queues@) == store@.release_queues);
    }
    let queued: u128 = match find_queue(&store.release_queues, who) {
        Some(q) => {
            let n_requests: usize = store.release_queues[q].requests.len();
            let t = exact_total(&store.release_queues[q].requests);
            proof {
                let n = store.release_queues@[q as int].requests@.len();
                lemma_exact_sum_bound(store.release_queues@[q as int].requests@);
                assert(n <= usize::MAX);
                assert(n * 0xffff_ffff_ffff_ffffint <= 0xffff_ffff_ffff_ffffint * 0xffff_ffff_ffff_ffffint)
                    by (nonlinear_arith)
                    requires
                        n <= 0xffff_ffff_ffff_ffffint,
                ;
            }
            t
        },
        None => 0,
    };
    locked.releasing as u128 == bond + queued
}

/// Whether some locked balance does not match the pending releases of its account.
fn check_locked(store: &MigrationStore) -> (r: bool)
    requires
        store@.wf(),
    ensures
        r == exists|w: AccountId| #[trigger] store@.locked_balances.contains_key(w) && !releasing_matches(store@, w),
{
    let ghost m = store.locked_balances@;
    let ghost whole = IteratorSpec::remaining(&vstd::std_specs::hash::spec_keys_iter(&store.locked_balances)).unref();
    assert(whole.to_set() == m.dom());
    for who in it: store.locked_balances.keys()
        invariant
            store@.wf(),
            m == store.locked_balances@,
            whole.to_set() == m.dom(),
            it.seq().unref() == whole,
            forall|j: int| 0 <= j < it.index() ==> releasing_matches(store@, #[trigger] whole[j]),
    {
        proof {
            assert(whole[it.index()] == *who);
            assert(whole.to_set().contains(*who));
        }
        match store.locked_balances.get(who) {
            Some(l) => {
                if !releasing_matches_exec(store, *who, *l) {
                    return true;
                }
            },
            None => {},
        }
    }
    proof {
        assert forall|w: AccountId| #[trigger] m.contains_key(w) implies releasing_matches(store@, w) by {
            assert(whole.to_set().contains(w));
            let j = choose|j: int| 0 <= j < whole.len() && whole[j] == w;
            assert(releasing_matches(store@, whole[j]));
        }
    }
    false
}

/// A copy of a list of plain values.
fn copy_list<T: Copy>(v: &Vec<T>) -> (r: Vec<T>)
    ensures
        r@ == v@,
{
    let mut out: Vec<T> = Vec::new();
    let mut i: usize = 0;
    while i < v.len()
        invariant
            i <= v@.len(),
            out@ == v@.take(i as int),
        decreases v@.len() - i,
    {
        out.push(v[i]);
        proof {
            assert(v@.take(i + 1) =~= v@.take(i as int).push(v@[i as int]));
        }
        i = i + 1;
    }
    proof {
        assert(v@.take(v@.len() as int) =~= v@);
    }
    out
}

/// A copy of a list of release queues.
fn copy_queues(v: &Vec<QueueEntry>) -> (r: Vec<QueueEntry>)
    ensures
        queue_views(r@) == queue_views(v@),
{
    let mut out: Vec<QueueEntry> = Vec::new();
    let mut i: usize = 0;
    while i < v.len()
        invariant
            i <= v@.len(),
            out@.len() == i,
            forall|j: int| 0 <= j < i ==> (#[trigger] out@[j])@ == v@[j]@,
        decreases v@.len() - i,
    {
        let requests = copy_list(&v[i].requests);
        out.push(QueueEntry { staker: v[i].staker, requests });
        i = i + 1;
    }
    proof {
        assert(queue_views(out@) =~= queue_views(v@));
    }
    out
}

impl PreUpgradeState {
    /// The release queues of the snapshot, as values.
    pub open spec fn release_views(self) -> Seq<QueueView> {
        queue_views(self.releases@)
    }

    /// The first reason, in the order of the checks, why `v` is not what the migration
    /// should have made of the state this snapshot was taken of; `None` when it is.
    pub open spec fn post_upgrade_error(self, v: StoreView) -> Option<PostUpgradeError> {
        if v.storage_version != 2 {
            Some(PostUpgradeError::StorageVersion)
        } else if self.candidate_stakes@.len() != v.candidate_stake.len() {
            Some(PostUpgradeError::StakeCount)
        } else if first_failure(self.candidate_stakes@, stake_check(v)) is Some {
            first_failure(self.candidate_stakes@, stake_check(v))
        } else if first_failure(self.release_views(), release_check(v)) is Some {
            first_failure(self.release_views(), release_check(v))
        } else if first_failure(self.bonds@, bond_check(v)) is Some {
            first_failure(self.bonds@, bond_check(v))
        } else if self.bond_releases@.len() < v.bond_releases.len() {
            Some(PostUpgradeError::MoreBondReleases)
        } else if first_failure(self.bond_releases@, bond_release_check(v)) is Some {
            first_failure(self.bond_releases@, bond_release_check(v))
        } else if exists|w: AccountId| #[trigger] v.locked_balances.contains_key(w) && !releasing_matches(v, w) {
            Some(PostUpgradeError::ReleasingMismatch)
        } else if first_failure(self.autocompound@, autocompound_check(v)) is Some {
            first_failure(self.autocompound@, autocompound_check(v))
        } else if v.claimable_rewards != 0 {
            Some(PostUpgradeError::RewardsNotReset)
        } else {
            None
        }
    }
}

impl LazyMigrationV1ToV2 {
    /// Takes the snapshot of the state that the check after the migration compares with:
    /// the stakes, auto-compounding preferences, release queues and pending bond releases,
    /// and the frozen bond of each candidate.
    pub fn pre_upgrade(store: &MigrationStore) -> (r: PreUpgradeState)
        ensures
            r.candidate_stakes@ == store@.candidate_stake,
            r.autocompound@ == store@.auto_compound,
            queue_views(r.releases@) == store@.release_queues,
            r.bonds@ == store@.candidates.map_values(
                |c: AccountId| BondEntry { candidate: c, bond: store@.account(c).bond },
            ),
            r.bond_releases@ == store@.bond_releases,
    {
        let mut bonds: Vec<BondEntry> = Vec::new();
        let mut i: usize = 0;
        let ghost want = store@.candidates.map_values(
            |c: AccountId| BondEntry { candidate: c, bond: store@.account(c).bond },
        );
        while i < store.candidates.len()
            invariant
                i <= store.candidates@.len(),
                want == store@.candidates.map_values(
                    |c: AccountId| BondEntry { candidate: c, bond: store@.account(c).bond },
                ),
                bonds@ == want.take(i as int),
            decreases store.candidates@.len() - i,
        {
            let c = store.candidates[i];
            let bond = store.ledger.balance_frozen(crate::types::FreezeReason::CandidacyBond, c);
            bonds.push(BondEntry { candidate: c, bond });
            proof {
                assert(want.take(i + 1) =~= want.take(i as int).push(want[i as int]));
            }
            i = i + 1;
        }
        proof {
            assert(want.take(want.len() as int) =~= want);
            assert(queue_views(store.release_queues@) == store@.release_queues);
        }
        PreUpgradeState {
            candidate_stakes: copy_list(&store.candidate_stake),
            autocompound: copy_list(&store.auto_compound),
            releases: copy_queues(&store.release_queues),
            bonds,
            bond_releases: copy_list(&store.bond_releases),
        }
    }

    /// Checks the state after the migration against the snapshot taken before it: the
    /// storage version is 2; the stakes are the same, in the new layout; nothing is frozen
    /// for releasing or as candidacy bond any more, and what was is locked instead; release
    /// queues and pending bond releases did not grow; each locked releasing balance is the sum
    /// of the pending releases of its account; auto-compounding settings match the
    /// preferences; claimable rewards are zero. Fails with the first check that does not hold.
    pub fn post_upgrade(prev: &PreUpgradeState, store: &MigrationStore) -> (r: Result<(), PostUpgradeError>)
        requires
            store@.wf(),
        ensures
            r == match prev.post_upgrade_error(store@) {
                None => Ok(()),
                Some(e) => Err(e),
            },
    {
        if store.storage_version != Self::id().version_to as u16 {
            return Err(PostUpgradeError::StorageVersion);
        }
        if prev.candidate_stakes.len() != store.candidate_stake.len() {
            return Err(PostUpgradeError::StakeCount);
        }
        if let Some(e) = check_stakes(&prev.candidate_stakes, store) {
            return Err(e);
        }
        if let Some(e) = check_releases(&prev.releases, store) {
            return Err(e);
        }
        if let Some(e) = check_bonds(&prev.bonds, store) {
            return Err(e);
        }
        if prev.bond_releases.len() < store.bond_releases.len() {
            return Err(PostUpgradeError::MoreBondReleases);
        }
        if let Some(e) = check_bond_releases(&prev.bond_releases, store) {
            return Err(e);
        }
        if check_locked(store) {
            return Err(PostUpgradeError::ReleasingMismatch);
        }
        if let Some(e) = check_autocompound(&prev.autocompound, store) {
            return Err(e);
        }
        if store.claimable_rewards != 0 {
            return Err(PostUpgradeError::RewardsNotReset);
        }
        Ok(())
    }
}

} // verus!
