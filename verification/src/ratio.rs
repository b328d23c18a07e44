//! Exact fractions.

use vstd::prelude::*;

verus! {

/// The fraction `num / den`. Two ratios are equal where both numbers are;
/// nothing is cancelled.
#[derive(Clone, Copy, Debug, PartialEq, Eq, Structural)]
pub struct Ratio {
    pub num: i128,
    pub den: i128,
}

impl Ratio {
    /// The denominator is positive.
    pub open spec fn wf(self) -> bool {
        self.den > 0
    }

    /// The fraction lies between zero and one, both included.
    pub open spec fn is_unit(self) -> bool {
        self.den > 0 && 0 <= self.num <= self.den
    }

    pub fn new(num: i128, den: i128) -> (r: Self)
        ensures
            r == (Ratio { num, den }),
    {
        Ratio { num, den }
    }
}

} // verus!
