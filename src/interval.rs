//! Half-open intervals `[lo, hi)` of exact fractions.

use crate::fraction::{
    add_fits_frac, diff_of, prod_of, quot_of, sum_of, ArithError, Real,
};
use vstd::prelude::*;

verus! {

/// The interval `[self.0, self.1)`. Only its size and overlaps matter to callers,
/// so open and closed ends are not told apart.
#[derive(Clone, Copy, Debug, PartialEq, Eq, Structural)]
pub struct RealInterval(pub Real, pub Real);

impl RealInterval {
    /// Both ends are well-formed fractions.
    pub open spec fn wf(self) -> bool {
        self.0.wf() && self.1.wf()
    }

    /// Well-formed and not reversed.
    pub open spec fn valid(self) -> bool {
        self.wf() && self.0.le(self.1)
    }

    /// The interval `[lo, hi)`; a reversed pair is not an interval.
    pub fn new(lo: &Real, hi: &Real) -> (r: RealInterval)
        requires
            lo.wf(),
            hi.wf(),
            lo.le(*hi),
        ensures
            r.valid(),
            r.0 == *lo,
            r.1 == *hi,
    {
        RealInterval(*lo, *hi)
    }

    /// `hi - lo`, never negative.
    pub fn size(&self) -> (r: Result<Real, ArithError>)
        requires
            self.valid(),
        ensures
            r matches Ok(s) ==> s.wf() && s.is_diff(self.1, self.0) && s.num() >= 0,
            r matches Ok(s) ==> s.frac() == diff_of(self.1.frac(), self.0.frac()),
            r matches Err(e) ==> e == ArithError::Overflow,
            Real::add_fits(self.1, self.0) ==> r is Ok,
    {
        let r = self.1.sub(&self.0);
        if let Ok(s) = r {
            proof {
                let (sn, sd) = (s.num(), s.den());
                let (hn, hd, ln, ld) = (self.1.num(), self.1.den(), self.0.num(), self.0.den());
                assert(sn * (hd * ld) == (hn * ld - ln * hd) * sd);
                assert(ln * hd <= hn * ld);
                assert(sn >= 0) by (nonlinear_arith)
                    requires
                        sn * (hd * ld) == (hn * ld - ln * hd) * sd,
                        ln * hd <= hn * ld,
                        hd > 0,
                        ld > 0,
                        sd > 0,
                ;
            }
        }
        r
    }

    /// `[max(lo, lo'), max(that, min(hi, hi')))`: where the two do not overlap the
    /// result is the empty interval at the larger lower end, never a reversed one.
    pub fn intersection_with(&self, other: &RealInterval) -> (r: RealInterval)
        requires
            self.wf(),
            other.wf(),
        ensures
            r.valid(),
            r.0 == self.0.max_of(other.0),
            r.1 == r.0.max_of(self.1.min_of(other.1)),
    {
        let lo = self.0.max(&other.0);
        let hi = self.1.min(&other.1);
        let top = lo.max(&hi);
        proof {
            let (a, b) = (lo.num() * hi.den(), hi.num() * lo.den());
            if !hi.lt(lo) {
                assert(a <= b);
            }
        }
        RealInterval(lo, top)
    }

    /// Both ends moved by the integer `n`.
    pub fn add_int(&self, n: i64) -> (r: Result<RealInterval, ArithError>)
        requires
            self.wf(),
        ensures
            r matches Ok(i) ==> i.wf() && i.0.is_frac(self.0.num() + n * self.0.den(), self.0.den())
                && i.1.is_frac(self.1.num() + n * self.1.den(), self.1.den()),
            r matches Err(e) ==> e == ArithError::Overflow,
            r matches Ok(i) ==> i.0.frac() == sum_of(self.0.frac(), (n as int, 1int)) && i.1.frac()
                == sum_of(self.1.frac(), (n as int, 1int)),
            add_fits_frac(self.0.frac(), (n as int, 1int)) && add_fits_frac(self.1.frac(), (n as int, 1int))
                ==> r is Ok,
    {
        let k = Real::from_int(n);
        assert(k.frac() == (n as int, 1int));
        let lo = self.0.add(&k)?;
        let hi = self.1.add(&k)?;
        Ok(RealInterval(lo, hi))
    }

    /// `[lo - hi', hi - lo')`. Subtracting half-open intervals this way yields an open
    /// lower end; only sizes are read downstream, so this is kept as it is.
    pub fn sub(&self, o: &RealInterval) -> (r: Result<RealInterval, ArithError>)
        requires
            self.wf(),
            o.wf(),
        ensures
            r matches Ok(i) ==> i.wf() && i.0.is_diff(self.0, o.1) && i.1.is_diff(self.1, o.0),
            r matches Err(e) ==> e == ArithError::Overflow,
            r matches Ok(i) ==> i.0.frac() == diff_of(self.0.frac(), o.1.frac()) && i.1.frac() == diff_of(
                self.1.frac(),
                o.0.frac(),
            ),
            Real::add_fits(self.0, o.1) && Real::add_fits(self.1, o.0) ==> r is Ok,
    {
        let lo = self.0.sub(&o.1)?;
        let hi = self.1.sub(&o.0)?;
        Ok(RealInterval(lo, hi))
    }

    /// Both ends multiplied by `k`.
    pub fn mul(&self, k: &Real) -> (r: Result<RealInterval, ArithError>)
        requires
            self.wf(),
            k.wf(),
        ensures
            r matches Ok(i) ==> i.wf() && i.0.is_prod(self.0, *k) && i.1.is_prod(self.1, *k),
            r matches Err(e) ==> e == ArithError::Overflow,
            r matches Ok(i) ==> i.0.frac() == prod_of(self.0.frac(), k.frac()) && i.1.frac() == prod_of(
                self.1.frac(),
                k.frac(),
            ),
            Real::mul_fits(self.0, *k) && Real::mul_fits(self.1, *k) ==> r is Ok,
    {
        let lo = self.0.mul(k)?;
        let hi = self.1.mul(k)?;
        Ok(RealInterval(lo, hi))
    }

    /// Both ends divided by `k`; dividing by zero is an error.
    pub fn div(&self, k: &Real) -> (r: Result<RealInterval, ArithError>)
        requires
            self.wf(),
            k.wf(),
        ensures
            k.num() == 0 ==> r == Err::<RealInterval, ArithError>(ArithError::DivisionByZero),
            r matches Ok(i) ==> i.wf() && i.0.is_quot(self.0, *k) && i.1.is_quot(self.1, *k),
            r matches Err(e) ==> (e == ArithError::DivisionByZero || e == ArithError::Overflow),
            r matches Ok(i) ==> i.0.frac() == quot_of(self.0.frac(), k.frac()) && i.1.frac() == quot_of(
                self.1.frac(),
                k.frac(),
            ),
            k.num() != 0 && Real::div_fits(self.0, *k) && Real::div_fits(self.1, *k) ==> r is Ok,
    {
        let lo = self.0.div(k)?;
        let hi = self.1.div(k)?;
        Ok(RealInterval(lo, hi))
    }
}

} // verus!
