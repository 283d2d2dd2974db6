//! Session hooks: block authorship, rewards handed out block after block, and the
//! bookkeeping at the start and end of sessions.

use vstd::prelude::*;

use crate::pallet::{Pallet, ProducedBlocks};
use crate::rewards::{sat_mul, saturating_mul};
use crate::types::{AccountId, BlockNumber, Event, SessionIndex};

verus! {

broadcast use vstd::std_specs::hash::group_hash_axioms;

/// The position of the first record of `session` (and of `author`, when given), or -1.
pub open spec fn first_produced(s: Seq<ProducedBlocks>, session: SessionIndex, author: Option<AccountId>) -> int {
    if exists|j: int| 0 <= j < s.len() && #[trigger] s[j].session == session && (author is None || s[j].author
        == author->0) {
        choose|j: int|
            0 <= j < s.len() && #[trigger] s[j].session == session && (author is None || s[j].author
                == author->0) && forall|k: int|
                0 <= k < j ==> !(#[trigger] s[k].session == session && (author is None || s[k].author
                    == author->0))
    } else {
        -1
    }
}

/// The position of the first record of `session` (and of `author`, when given).
pub fn find_produced(s: &Vec<ProducedBlocks>, session: SessionIndex, author: Option<AccountId>) -> (r: Option<usize>)
    ensures
        match r {
            Some(j) => j == first_produced(s@, session, author) && j < s@.len(),
            None => first_produced(s@, session, author) == -1,
        },
{
    let mut j: usize = 0;
    while j < s.len()
        invariant
            j <= s@.len(),
            forall|k: int|
                0 <= k < j ==> !(#[trigger] s@[k].session == session && (author is None || s@[k].author
                    == author->0)),
        decreases s@.len() - j,
    {
        let matches_author = match author {
            Some(a) => s[j].author == a,
            None => true,
        };
        if s[j].session == session && matches_author {
            proof {
                let f = first_produced(s@, session, author);
                assert(f >= 0);
                if f < j {
                } else if f > j {
                }
            }
            return Some(j);
        }
        j = j + 1;
    }
    None
}

impl Pallet {
    /// The blocks counted for a session, once a block was authored by `author`: an
    /// invulnerable's block counts only in the total, a candidate's also as rewardable.
    pub open spec fn counted_blocks(self, session: SessionIndex, invulnerable: bool) -> (u32, u32) {
        let t = self.total_blocks_of(session);
        if invulnerable {
            (t.0.saturating_add(1), t.1)
        } else {
            (t.0.saturating_add(1), t.1.saturating_add(1))
        }
    }

    /// Records that `author` authored the current block: its last authored block is now, the
    /// block counts for the current session, and, when the author is not an invulnerable, it
    /// counts as produced by the author (invulnerables get no rewards).
    pub fn note_author(&mut self, author: AccountId)
        requires
            old(self).wf(),
        ensures
            final(self).wf(),
            ({
                let cs = old(self).current_session;
                let inv = old(self).invulnerables@.contains(author);
                let pb = old(self).produced_blocks@;
                let j = first_produced(pb, cs, Some(author));
                &&& final(self).last_authored_block@ == old(self).last_authored_block@.insert(
                    author,
                    old(self).block_number,
                )
                &&& final(self).total_blocks@ == old(self).total_blocks@.insert(cs, old(self).counted_blocks(cs, inv))
                &&& inv ==> final(self).produced_blocks@ == pb
                &&& !inv && j >= 0 ==> final(self).produced_blocks@ == pb.update(
                    j,
                    ProducedBlocks { session: cs, author, blocks: pb[j].blocks.saturating_add(1) },
                )
                &&& !inv && j < 0 ==> final(self).produced_blocks@ == pb.push(
                    ProducedBlocks { session: cs, author, blocks: 1 },
                )
                &&& *final(self) == (Pallet {
                    last_authored_block: final(self).last_authored_block,
                    total_blocks: final(self).total_blocks,
                    produced_blocks: final(self).produced_blocks,
                    ..*old(self)
                })
            }),
    {
        let cs = self.current_session;
        let now = self.block_number;
        self.last_authored_block.insert(author, now);
        let t: (u32, u32) = match self.total_blocks.get(&cs) {
            Some(t) => *t,
            None => (0, 0),
        };
        if self.is_invulnerable(author) {
            self.total_blocks.insert(cs, (t.0.saturating_add(1), t.1));
        } else {
            match find_produced(&self.produced_blocks, cs, Some(author)) {
                Some(j) => {
                    let b = self.produced_blocks[j].blocks;
                    self.produced_blocks.set(
                        j,
                        ProducedBlocks { session: cs, author, blocks: b.saturating_add(1) },
                    );
                },
                None => {
                    self.produced_blocks.push(ProducedBlocks { session: cs, author, blocks: 1 });
                },
            }
            self.total_blocks.insert(cs, (t.0.saturating_add(1), t.1.saturating_add(1)));
        }
    }

    /// `after` is this state once the record at position `j` of the produced blocks was
    /// taken out.
    pub open spec fn produced_taken(self, after: Self, j: int) -> bool {
        &&& after.produced_blocks@ == self.produced_blocks@.remove(j)
        &&& after == (Pallet { produced_blocks: after.produced_blocks, ..self })
    }

    /// `after` is this state once one collator of `session` was rewarded, with result `r`: the
    /// first record of blocks produced in the session is taken out and its author rewarded
    /// for them (see `do_reward_collator`); with no such record nothing changes.
    pub open spec fn one_collator_rewarded(self, after: Self, session: SessionIndex, r: (u32, u32)) -> bool {
        let j = first_produced(self.produced_blocks@, session, None);
        let p = self.produced_blocks@[j];
        &&& j < 0 ==> after == self && r == (0u32, 0u32)
        &&& j >= 0 ==> exists|mid: Pallet|
            {
                &&& #[trigger] self.produced_taken(mid, j)
                &&& mid.rewards_skipped(p.author, p.blocks, session) ==> after == mid && r == (0u32, 0u32)
                &&& !mid.rewards_skipped(p.author, p.blocks, session) ==> mid.collator_rewarded(
                    after,
                    p.author,
                    p.blocks,
                    session,
                    r,
                )
            }
    }

    /// Rewards one collator of `session`: the first record of blocks produced in the session is
    /// taken out and its author rewarded for them (see `do_reward_collator`). Returns the
    /// number of stakes rewarded and of rewards paid.
    pub fn reward_one_collator(&mut self, session: SessionIndex) -> (r: (u32, u32))
        requires
            old(self).wf(),
        ensures
            final(self).wf(),
            old(self).one_collator_rewarded(*final(self), session, r),
    {
        match find_produced(&self.produced_blocks, session, None) {
            None => (0, 0),
            Some(j) => {
                let p = self.produced_blocks.remove(j);
                let ghost mid = *self;
                let r = self.do_reward_collator(p.author, p.blocks, session);
                proof {
                    assert(old(self).produced_taken(mid, j as int));
                }
                r
            },
        }
    }

    /// The hook run at the start of every block: during a session, one collator of the
    /// previous session is rewarded (see `reward_one_collator`). Returns the number of stakes
    /// rewarded and of rewards paid.
    pub fn on_initialize(&mut self) -> (r: (u32, u32))
        requires
            old(self).wf(),
        ensures
            final(self).wf(),
            old(self).current_session == 0 ==> *final(self) == *old(self) && r == (0u32, 0u32),
            old(self).current_session > 0 ==> old(self).one_collator_rewarded(
                *final(self),
                (old(self).current_session - 1) as u32,
                r,
            ),
    {
        let current = self.current_session;
        if current > 0 {
            self.reward_one_collator(current - 1)
        } else {
            (0, 0)
        }
    }

    /// Moves the chain to block `n`.
    pub fn set_block_number(&mut self, n: BlockNumber)
        requires
            old(self).wf(),
            n + old(self).config.max_delay() <= u64::MAX,
        ensures
            final(self).wf(),
            *final(self) == (Pallet { block_number: n, ..*old(self) }),
    {
        self.block_number = n;
    }

    /// The hook run when session `index` starts: its block counters start at zero, it becomes
    /// the current session, and the counters, rewards and produced blocks of the session two
    /// before are dropped.
    pub fn start_session(&mut self, index: SessionIndex)
        requires
            old(self).wf(),
        ensures
            final(self).wf(),
            final(self).current_session == index,
            index <= 1 ==> final(self).total_blocks@ == old(self).total_blocks@.insert(index, (0u32, 0u32)),
            index <= 1 ==> final(self).rewards == old(self).rewards,
            index <= 1 ==> final(self).produced_blocks == old(self).produced_blocks,
            index > 1 ==> final(self).total_blocks@ == old(self).total_blocks@.insert(index, (0u32, 0u32)).remove(
                (index - 2) as u32,
            ),
            index > 1 ==> final(self).rewards@ == old(self).rewards@.remove((index - 2) as u32),
            index > 1 ==> final(self).produced_blocks@ == old(self).produced_blocks@.filter(
                |p: ProducedBlocks| p.session != (index - 2) as u32,
            ),
            *final(self) == (Pallet {
                current_session: index,
                total_blocks: final(self).total_blocks,
                rewards: final(self).rewards,
                produced_blocks: final(self).produced_blocks,
                ..*old(self)
            }),
    {
        self.total_blocks.insert(index, (0, 0));
        self.current_session = index;
        if index > 1 {
            let last = index - 2;
            self.total_blocks.remove(&last);
            self.rewards.remove(&last);
            let mut kept: Vec<ProducedBlocks> = Vec::new();
            let mut k: usize = 0;
            let ghost pb = self.produced_blocks@;
            let ghost pred = |p: ProducedBlocks| p.session != last;
            assert(pb.take(0) =~= Seq::<ProducedBlocks>::empty());
            while k < self.produced_blocks.len()
                invariant
                    k <= pb.len(),
                    self.produced_blocks@ == pb,
                    pred == (|p: ProducedBlocks| p.session != last),
                    kept@ == pb.take(k as int).filter(pred),
                decreases pb.len() - k,
            {
                let p = self.produced_blocks[k];
                assert(pb.take(k as int + 1) =~= pb.take(k as int).push(p));
                proof {
                    pb.take(k as int).lemma_filter_push(p, pred);
                    assert(pred(p) == (p.session != last));
                }
                if p.session != last {
                    kept.push(p);
                }
                k = k + 1;
            }
            assert(pb.take(pb.len() as int) =~= pb);
            self.produced_blocks = kept;
        }
    }

    /// The hook run when session `index` ends: the extra reward for the blocks of the session
    /// (per-block extra reward times blocks produced, saturating) is moved from the extra
    /// reward pot to the reward pot when extra rewards are on (a failed transfer is skipped),
    /// and what the reward pot can then spend (keeping it alive) becomes the session's rewards.
    pub fn end_session(&mut self, index: SessionIndex)
        requires
            old(self).wf(),
        ensures
            final(self).wf(),
            ({
                let pot = old(self).spec_account_id() as u64;
                let extra_pot = old(self).spec_extra_reward_account_id() as u64;
                let extra = sat_mul(old(self).extra_reward, old(self).total_blocks_of(index).0 as u64);
                let total = final(self).ledger.spec_reducible(pot, true);
                &&& old(self).extra_reward != 0 ==> old(self).ledger.transferred(
                    final(self).ledger,
                    extra_pot,
                    pot,
                    extra,
                    false,
                )
                &&& old(self).extra_reward == 0 ==> final(self).ledger == old(self).ledger
                &&& final(self).rewards@ == old(self).rewards@.insert(index, total)
                &&& final(self).events@ == old(self).events@.push(Event::SessionEnded { index, rewards: total })
                &&& *final(self) == (Pallet {
                    ledger: final(self).ledger,
                    rewards: final(self).rewards,
                    events: final(self).events,
                    ..*old(self)
                })
            }),
    {
        let pot = self.account_id();
        let per_block = self.extra_reward;
        if per_block != 0 {
            let produced: u32 = match self.total_blocks.get(&index) {
                Some(t) => t.0,
                None => 0,
            };
            let extra = saturating_mul(per_block, produced as u64);
            let extra_pot = self.extra_reward_account_id();
            let _ = self.ledger.transfer(extra_pot, pot, extra, false);
        }
        let total = self.ledger.reducible_balance(pot, true);
        self.rewards.insert(index, total);
        self.deposit_event(Event::SessionEnded { index, rewards: total });
    }
}

} // verus!
