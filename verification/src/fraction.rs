use vstd::prelude::*;

verus! {

/// An exact non-negative quotient `num / den`, kept as it was computed, not reduced.
///
/// A zero denominator stands for a quotient that is not defined.
#[derive(Clone, Copy, Debug, PartialEq, Eq, Structural)]
pub struct Fraction {
    pub num: u32,
    pub den: u32,
}

impl Fraction {
    /// The quotient has a value.
    pub open spec fn defined(self) -> bool {
        self.den > 0
    }

    /// The quotient has a value, and that value is at most `bound`.
    pub open spec fn at_most(self, bound: int) -> bool {
        self.den > 0 && self.num <= bound * self.den
    }

    /// The quotient has a value, and that value is less than `bound`.
    pub open spec fn below(self, bound: int) -> bool {
        self.den > 0 && self.num < bound * self.den
    }

    /// Tells whether the quotient has a value that is at most `bound`.
    pub fn is_at_most(self, bound: u32) -> (ok: bool)
        ensures
            ok == self.at_most(bound as int),
    {
        proof {
            assert(0 <= bound * self.den <= 0xffff_ffff * 0xffff_ffff) by (nonlinear_arith)
                requires
                    0 <= bound <= 0xffff_ffff,
                    0 <= self.den <= 0xffff_ffff,
            ;
        }
        let limit: u64 = (bound as u64) * (self.den as u64);
        self.den > 0 && (self.num as u64) <= limit
    }

    /// The quotient one.
    pub fn one() -> (z: Fraction)
        ensures
            z == (Fraction { num: 1, den: 1 }),
    {
        Fraction { num: 1, den: 1 }
    }

    /// The quotient zero.
    pub fn zero() -> (z: Fraction)
        ensures
            z == (Fraction { num: 0, den: 1 }),
    {
        Fraction { num: 0, den: 1 }
    }
}

/// A product of two non-negative numbers is at most the product of their bounds.
pub proof fn lemma_product_bound(a: int, b: int, top_a: int, top_b: int)
    requires
        0 <= a <= top_a,
        0 <= b <= top_b,
    ensures
        0 <= a * b <= top_a * top_b,
{
    assert(0 <= a * b <= top_a * top_b) by (nonlinear_arith)
        requires
            0 <= a <= top_a,
            0 <= b <= top_b,
    ;
}

} // verus!
