use vstd::prelude::*;

verus! {

/// A probability written as the fraction `numerator / denominator`.
///
/// It is a valid probability when the denominator is positive and the
/// fraction is at most one.
#[derive(Clone, Copy, Debug, PartialEq, Eq, Structural)]
pub struct Probability {
    pub numerator: u32,
    pub denominator: u32,
}

impl Probability {
    pub open spec fn is_valid(self) -> bool {
        self.denominator > 0 && self.numerator <= self.denominator
    }

    pub open spec fn is_never(self) -> bool {
        self.numerator == 0
    }

    pub open spec fn is_certain(self) -> bool {
        self.numerator == self.denominator
    }

    pub fn new(numerator: u32, denominator: u32) -> (r: Probability)
        ensures
            r.numerator == numerator,
            r.denominator == denominator,
    {
        Probability { numerator, denominator }
    }

    /// Whether the fraction lies in `[0, 1]`.
    pub fn check_valid(&self) -> (r: bool)
        ensures
            r == self.is_valid(),
    {
        self.denominator > 0 && self.numerator <= self.denominator
    }
}

} // verus!
