//! Exact fractions of two machine integers.

use vstd::prelude::*;

verus! {

/// The fraction `num / den`. It is kept as it was built, not in lowest terms.
#[derive(Copy, Clone, PartialEq, Eq, Structural, Debug)]
pub struct Ratio {
    pub num: u64,
    pub den: u64,
}

impl Ratio {
    /// The fraction 1 / 1.
    pub fn one() -> (unit: Ratio)
        ensures
            unit.num == 1,
            unit.den == 1,
    {
        Ratio { num: 1, den: 1 }
    }

    /// The product of two fractions: numerator by numerator, denominator by
    /// denominator.
    pub fn times(&self, other: &Ratio) -> (product: Ratio)
        requires
            self.num * other.num <= u64::MAX,
            self.den * other.den <= u64::MAX,
        ensures
            product.num == self.num * other.num,
            product.den == self.den * other.den,
    {
        Ratio { num: self.num * other.num, den: self.den * other.den }
    }
}

} // verus!
