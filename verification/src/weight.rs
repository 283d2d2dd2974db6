//! Weights and the meter that a multi-block migration spends them from.
//!
//! A weight has two components, computation time and proof size; a meter holds what was
//! consumed so far and the limit it may reach.

use vstd::prelude::*;

verus! {

/// An amount of work: computation time and proof size.
#[derive(Clone, Copy, Debug, PartialEq, Eq, Structural)]
pub struct Weight {
    /// Computation time.
    pub ref_time: u64,
    /// Size of the proof.
    pub proof_size: u64,
}

impl Weight {
    /// Both components are at most those of `limit`.
    pub open spec fn all_lte(self, limit: Weight) -> bool {
        self.ref_time <= limit.ref_time && self.proof_size <= limit.proof_size
    }

    /// The component-wise sum, or `None` when a component overflows.
    pub open spec fn spec_checked_add(self, other: Weight) -> Option<Weight> {
        if self.ref_time + other.ref_time > u64::MAX || self.proof_size + other.proof_size > u64::MAX {
            None
        } else {
            Some(
                Weight {
                    ref_time: (self.ref_time + other.ref_time) as u64,
                    proof_size: (self.proof_size + other.proof_size) as u64,
                },
            )
        }
    }

    /// The component-wise sum, each component saturating.
    pub open spec fn spec_saturating_add(self, other: Weight) -> Weight {
        Weight {
            ref_time: self.ref_time.saturating_add(other.ref_time),
            proof_size: self.proof_size.saturating_add(other.proof_size),
        }
    }

    /// The component-wise product with `n`, each component saturating.
    pub open spec fn spec_saturating_mul(self, n: u64) -> Weight {
        Weight {
            ref_time: if self.ref_time * n > u64::MAX { u64::MAX } else { (self.ref_time * n) as u64 },
            proof_size: if self.proof_size * n > u64::MAX {
                u64::MAX
            } else {
                (self.proof_size * n) as u64
            },
        }
    }

    /// The weight of nothing.
    pub fn zero() -> (r: Weight)
        ensures
            r == (Weight { ref_time: 0, proof_size: 0 }),
    {
        Weight { ref_time: 0, proof_size: 0 }
    }

    /// The component-wise sum, or `None` when a component overflows.
    pub fn checked_add(&self, other: &Weight) -> (r: Option<Weight>)
        ensures
            r == self.spec_checked_add(*other),
    {
        match self.ref_time.checked_add(other.ref_time) {
            None => None,
            Some(t) => match self.proof_size.checked_add(other.proof_size) {
                None => None,
                Some(p) => Some(Weight { ref_time: t, proof_size: p }),
            },
        }
    }

    /// The component-wise sum, each component saturating.
    pub fn saturating_add(self, other: Weight) -> (r: Weight)
        ensures
            r == self.spec_saturating_add(other),
    {
        Weight {
            ref_time: self.ref_time.saturating_add(other.ref_time),
            proof_size: self.proof_size.saturating_add(other.proof_size),
        }
    }

    /// The component-wise product with `n`, each component saturating.
    pub fn saturating_mul(self, n: u64) -> (r: Weight)
        ensures
            r == self.spec_saturating_mul(n),
    {
        let t = match self.ref_time.checked_mul(n) {
            Some(x) => x,
            None => u64::MAX,
        };
        let p = match self.proof_size.checked_mul(n) {
            Some(x) => x,
            None => u64::MAX,
        };
        Weight { ref_time: t, proof_size: p }
    }

    /// Both components are at most those of `limit`.
    pub fn all_lte_exec(&self, limit: &Weight) -> (r: bool)
        ensures
            r == self.all_lte(*limit),
    {
        self.ref_time <= limit.ref_time && self.proof_size <= limit.proof_size
    }
}

/// Tracks the weight consumed against a limit.
#[derive(Clone, Copy, Debug, PartialEq, Eq, Structural)]
pub struct WeightMeter {
    /// The weight consumed so far.
    pub consumed: Weight,
    /// The most that may be consumed.
    pub limit: Weight,
}

impl WeightMeter {
    /// `w` can be consumed: adding it overflows no component and stays within the limit.
    pub open spec fn spec_can_consume(self, w: Weight) -> bool {
        match self.consumed.spec_checked_add(w) {
            Some(t) => t.all_lte(self.limit),
            None => false,
        }
    }

    /// This meter once `w` was consumed (saturating).
    pub open spec fn spec_consume(self, w: Weight) -> WeightMeter {
        WeightMeter { consumed: self.consumed.spec_saturating_add(w), ..self }
    }

    /// A meter that has consumed nothing and may consume up to `limit`.
    pub fn with_limit(limit: Weight) -> (r: WeightMeter)
        ensures
            r == (WeightMeter { consumed: Weight { ref_time: 0, proof_size: 0 }, limit }),
    {
        WeightMeter { consumed: Weight::zero(), limit }
    }

    /// Whether `w` can be consumed.
    pub fn can_consume(&self, w: Weight) -> (r: bool)
        ensures
            r == self.spec_can_consume(w),
    {
        match self.consumed.checked_add(&w) {
            Some(t) => t.all_lte_exec(&self.limit),
            None => false,
        }
    }

    /// Consumes `w` if it can be consumed; otherwise fails and consumes nothing.
    pub fn try_consume(&mut self, w: Weight) -> (r: Result<(), ()>)
        ensures
            r is Ok <==> old(self).spec_can_consume(w),
            r is Ok ==> *final(self) == old(self).spec_consume(w),
            r is Err ==> *final(self) == *old(self),
    {
        match self.consumed.checked_add(&w) {
            None => Err(()),
            Some(t) => {
                if t.all_lte_exec(&self.limit) {
                    self.consumed = t;
                    Ok(())
                } else {
                    Err(())
                }
            },
        }
    }

    /// Consumes `w`, whether or not it fits (saturating).
    pub fn consume(&mut self, w: Weight)
        ensures
            *final(self) == old(self).spec_consume(w),
    {
        self.consumed = self.consumed.saturating_add(w);
    }
}

} // verus!
