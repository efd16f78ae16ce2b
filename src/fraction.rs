use vstd::prelude::*;

verus! {

/// An exact rational number `num / den`. Well formed when `den > 0`.
#[derive(Debug, Clone, Copy, PartialEq, Eq, Structural)]
pub struct Fraction {
    pub num: i64,
    pub den: u64,
}

impl Fraction {
    pub open spec fn wf(&self) -> bool {
        self.den > 0
    }

    /// Both fractions stand for the same rational number.
    pub open spec fn same_value(&self, other: Fraction) -> bool {
        self.num as int * other.den as int == other.num as int * self.den as int
    }

    /// This fraction is strictly below the other one (both well formed).
    pub open spec fn less_than(&self, other: Fraction) -> bool {
        (self.num as int * other.den as int) < other.num as int * self.den as int
    }

    /// The fraction `num / den`, or `None` for a zero denominator.
    pub fn new(num: i64, den: u64) -> (r: Option<Fraction>)
        ensures
            den == 0 ==> r is None,
            den > 0 ==> r == Some(Fraction { num, den }),
    {
        if den == 0 {
            None
        } else {
            Some(Fraction { num, den })
        }
    }

    /// The whole number `n`.
    pub fn whole(n: i64) -> (r: Fraction)
        ensures
            r == (Fraction { num: n, den: 1 }),
            r.wf(),
    {
        Fraction { num: n, den: 1 }
    }
}

} // verus!
