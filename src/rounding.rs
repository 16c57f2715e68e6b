//! How far the true value may lie from a reported whole count.

use crate::fraction::{gcd, Real};
use crate::interval::RealInterval;
use vstd::prelude::*;

verus! {

/// A rounding mode already applied to a count, or still to be applied to it.
#[derive(Clone, Copy, Debug, PartialEq, Eq, Structural)]
pub enum Rounding {
    /// Truncated down: the true value lies in `[count, count + 1)`.
    Truncated,
    /// To be rounded to nearest: the true value lies in `[count - 1/2, count + 1/2)`.
    WillRound,
}

impl Rounding {
    /// The lower end of the offset interval, as numerator and denominator.
    pub open spec fn lo_frac(self) -> (int, int) {
        match self {
            Rounding::Truncated => (0, 1),
            Rounding::WillRound => (-1, 2),
        }
    }

    /// The upper end of the offset interval, as numerator and denominator.
    pub open spec fn hi_frac(self) -> (int, int) {
        match self {
            Rounding::Truncated => (1, 1),
            Rounding::WillRound => (1, 2),
        }
    }

    /// The interval of offsets that this mode adds around a count.
    pub fn offsets(&self) -> (r: RealInterval)
        ensures
            r.valid(),
            r.0.is_frac(self.lo_frac().0, self.lo_frac().1),
            r.1.is_frac(self.hi_frac().0, self.hi_frac().1),
            r.0.frac() == self.lo_frac(),
            r.1.frac() == self.hi_frac(),
    {
        match self {
            Rounding::Truncated => RealInterval::new(&Real::zero(), &Real::one()),
            Rounding::WillRound => {
                let lo = Real::new(-1, 2);
                let hi = Real::new(1, 2);
                proof {
                    reveal_with_fuel(gcd, 4);
                    assert(gcd(1, 2) == 1);
                }
                proof {
                    let (a, b, c, d) = (lo.num(), lo.den(), hi.num(), hi.den());
                    assert(a * hi.den() <= hi.num() * lo.den()) by (nonlinear_arith)
                        requires
                            a * 2 == -1 * b,
                            c * 2 == 1 * d,
                            b > 0,
                            d > 0,
                            a == lo.num(),
                            b == lo.den(),
                            c == hi.num(),
                            d == hi.den(),
                    ;
                }
                RealInterval::new(&lo, &hi)
            },
        }
    }
}

} // verus!
