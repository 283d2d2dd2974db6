//! Fixed-point fractions used to split rewards: percentages and parts per billion.
//!
//! The arithmetic itself is that of `sp_arithmetic`; the functions here state what it
//! computes.

use sp_arithmetic::PerThing;
use vstd::prelude::*;

verus! {

/// One whole in parts per billion.
pub const BILLION: u32 = 1_000_000_000u32;

/// A percentage, in whole percent points. Values above 100 count as 100.
#[derive(Clone, Copy, Debug, PartialEq, Eq, Structural)]
pub struct Percent {
    pub parts: u8,
}

/// A fraction in parts per billion. Values above one billion count as one whole.
#[derive(Clone, Copy, Debug, PartialEq, Eq, Structural)]
pub struct Perbill {
    pub parts: u32,
}

/// Calls `sp_arithmetic::Percent::from_parts(parts).mul_floor(x)`. `from_parts` clamps the
/// parts to 100 and `mul_floor` computes `x * parts / 100` rounded down without overflow
/// (`(x / 100) * parts + (x % 100) * parts / 100` in its source), which is the exact floor.
#[verifier::external_body]
fn percent_mul_floor(parts: u8, x: u64) -> (r: u64)
    ensures
        r == x * clamp_percent(parts) / 100,
{
    sp_arithmetic::Percent::from_parts(parts).mul_floor(x)
}

/// Calls `sp_arithmetic::Perbill::from_parts(parts).mul_floor(x)`: the parts are clamped to
/// one billion and the product `x * parts / 1_000_000_000` is rounded down exactly.
#[verifier::external_body]
fn perbill_mul_floor(parts: u32, x: u64) -> (r: u64)
    ensures
        r == x * clamp_perbill(parts) / (BILLION as int),
{
    sp_arithmetic::Perbill::from_parts(parts).mul_floor(x)
}

/// Calls `sp_arithmetic::Perbill::from_rational(p, q)` and returns its parts. The source
/// rounds `1_000_000_000 * p / q` down, and gives one whole when `q` is zero or `p > q`.
#[verifier::external_body]
fn perbill_from_rational(p: u64, q: u64) -> (r: u32)
    ensures
        r == spec_perbill_from_rational(p as int, q as int),
{
    sp_arithmetic::Perbill::from_rational(p, q).deconstruct()
}

/// The percentage points that `parts` stands for.
pub open spec fn clamp_percent(parts: u8) -> int {
    if parts <= 100 { parts as int } else { 100 }
}

/// The parts per billion that `parts` stands for.
pub open spec fn clamp_perbill(parts: u32) -> int {
    if parts <= BILLION { parts as int } else { BILLION as int }
}

/// The fraction `p / q` in parts per billion, rounded down; one whole when `q` is zero or
/// `p > q`.
pub open spec fn spec_perbill_from_rational(p: int, q: int) -> int {
    if q == 0 || p > q { BILLION as int } else { (BILLION as int) * p / q }
}

impl Percent {
    /// The percentage in points, between 0 and 100.
    pub open spec fn points(self) -> int {
        clamp_percent(self.parts)
    }

    /// Builds a percentage, saturating at 100.
    pub fn from_parts(parts: u8) -> (r: Percent)
        ensures
            r.parts as int == clamp_percent(parts),
    {
        if parts <= 100 {
            Percent { parts }
        } else {
            Percent { parts: 100 }
        }
    }

    /// Zero percent.
    pub fn zero() -> (r: Percent)
        ensures
            r.parts == 0,
    {
        Percent { parts: 0 }
    }

    /// Whether this is zero percent.
    pub fn is_zero(&self) -> (r: bool)
        ensures
            r == (self.parts == 0),
    {
        self.parts == 0
    }

    /// `x` times this percentage, rounded down.
    pub fn mul_floor(&self, x: u64) -> (r: u64)
        ensures
            r == x * self.points() / 100,
            r <= x,
    {
        let r: u64 = percent_mul_floor(self.parts, x);
        proof {
            lemma_mul_div_le(x as int, self.points(), 100);
        }
        r
    }
}

impl Perbill {
    /// The fraction in parts per billion, between 0 and one billion.
    pub open spec fn billionths(self) -> int {
        clamp_perbill(self.parts)
    }

    /// The fraction `p / q` rounded down to parts per billion; one whole when `q` is zero or
    /// `p > q`.
    pub fn from_rational(p: u64, q: u64) -> (r: Perbill)
        ensures
            r.parts as int == spec_perbill_from_rational(p as int, q as int),
    {
        Perbill { parts: perbill_from_rational(p, q) }
    }

    /// `x` times this fraction, rounded down.
    pub fn mul_floor(&self, x: u64) -> (r: u64)
        ensures
            r == x * self.billionths() / (BILLION as int),
            r <= x,
    {
        let r: u64 = perbill_mul_floor(self.parts, x);
        proof {
            lemma_mul_div_le(x as int, self.billionths(), BILLION as int);
        }
        r
    }
}

/// A fraction from `from_rational` of non-negative numbers is between zero and one whole.
pub proof fn lemma_perbill_from_rational_bounds(p: int, q: int)
    requires
        0 <= p,
        0 <= q,
    ensures
        0 <= spec_perbill_from_rational(p, q) <= BILLION as int,
{
    if q != 0 && p <= q {
        lemma_mul_div_le(BILLION as int, p, q);
    }
}

/// `x * a / d` does not exceed `x` when `0 <= a <= d`.
pub proof fn lemma_mul_div_le(x: int, a: int, d: int)
    requires
        0 <= x,
        0 <= a <= d,
        0 < d,
    ensures
        0 <= x * a / d <= x,
{
    assert(x * a <= x * d) by (nonlinear_arith)
        requires
            0 <= x,
            a <= d,
    ;
    assert(0 <= x * a) by (nonlinear_arith)
        requires
            0 <= x,
            0 <= a,
    ;
    assert(x * d / d == x) by (nonlinear_arith)
        requires
            0 < d,
    ;
    assert(x * a / d <= x * d / d) by (nonlinear_arith)
        requires
            x * a <= x * d,
            0 < d,
    ;
    assert(0 <= x * a / d) by (nonlinear_arith)
        requires
            0 <= x * a,
            0 < d,
    ;
}

} // verus!
