//! A whole count of a unit under a rounding mode, and the interval it stands for.

use crate::fraction::{abs, mul_fits_frac, prod_of, lemma_frac_eq_trans, lemma_frac_lt_congr, lemma_frac_mul_congr, ArithError, Real};
use crate::interval::RealInterval;
use crate::rounding::Rounding;
use crate::unit::{lemma_span_parts, Unit};
use vstd::prelude::*;

verus! {

/// `count` of `unit`, rounded as `rounding` says.
#[derive(Clone, Debug)]
pub struct Approximation {
    count: i64,
    unit: Unit,
    rounding: Rounding,
}

impl Approximation {
    pub closed spec fn count_spec(self) -> int {
        self.count as int
    }

    pub closed spec fn unit_spec(self) -> Unit {
        self.unit
    }

    pub closed spec fn rounding_spec(self) -> Rounding {
        self.rounding
    }

    /// `count × many` in lowest terms.
    pub open spec fn many_exact(self) -> (int, int) {
        prod_of(self.unit_spec().many().frac(), (self.count_spec(), 1int))
    }

    /// The ends of what this stands for, in lowest terms, as `interval` computes them.
    pub open spec fn span_exact(self) -> ((int, int), (int, int)) {
        self.unit_spec().span_exact(self.count_spec(), self.rounding_spec())
    }

    /// Computing what this stands for stays within `i64`.
    pub open spec fn fits(self) -> bool {
        self.unit_spec().span_fits(self.count_spec(), self.rounding_spec())
    }

    /// The lower end of what this stands for, as numerator and denominator.
    pub open spec fn lo_frac(self) -> (int, int) {
        self.unit_spec().span_lo(self.count_spec(), self.rounding_spec())
    }

    /// The upper end of what this stands for, as numerator and denominator.
    pub open spec fn hi_frac(self) -> (int, int) {
        self.unit_spec().span_hi(self.count_spec(), self.rounding_spec())
    }

    pub fn new(count: i64, unit: &Unit, rounding: Rounding) -> (r: Approximation)
        ensures
            r.count_spec() == count,
            r.unit_spec().same(*unit),
            r.rounding_spec() == rounding,
    {
        Approximation { count, unit: unit.duplicate(), rounding }
    }

    pub fn count(&self) -> (r: i64)
        ensures
            r == self.count_spec(),
    {
        self.count
    }

    pub fn rounding(&self) -> (r: Rounding)
        ensures
            r == self.rounding_spec(),
    {
        self.rounding
    }

    pub fn unit(&self) -> (r: Unit)
        ensures
            r.same(self.unit_spec()),
    {
        self.unit.duplicate()
    }

    /// `count × many`: the count in reference units.
    pub fn many(&self) -> (r: Result<Real, ArithError>)
        requires
            self.unit_spec().wf(),
        ensures
            r matches Ok(v) ==> v.wf() && v.is_frac(
                self.unit_spec().many().num() * self.count_spec(),
                self.unit_spec().many().den(),
            ),
            r matches Ok(v) ==> v.frac() == self.many_exact(),
            r matches Err(e) ==> e == ArithError::Overflow,
            abs(self.unit_spec().many().num() * self.count_spec()) <= i64::MAX ==> r is Ok,
    {
        let k = Real::from_int(self.count);
        proof {
            assert(self.unit.many().den() * k.den() == self.unit.many().den());
            assert(self.unit.many().num() * k.num() == self.unit.many().num() * self.count);
        }
        let r = self.unit.count().mul(&k);
        if let Ok(v) = r {
            proof {
                let m = self.unit_spec().many();
                assert(v.num() * (m.den() * 1) == (m.num() * self.count) * v.den());
                assert(m.den() * 1 == m.den());
            }
        }
        r
    }

    /// `count × many × base`: the distance itself.
    pub fn distance(&self) -> (r: Result<Real, ArithError>)
        requires
            self.unit_spec().wf(),
        ensures
            r matches Ok(v) ==> v.wf() && v.is_frac(
                self.unit_spec().many().num() * self.count_spec() * self.unit_spec().base_size().num(),
                self.unit_spec().many().den() * self.unit_spec().base_size().den(),
            ),
            r matches Ok(v) ==> v.frac() == prod_of(self.many_exact(), self.unit_spec().base_size().frac()),
            r matches Err(e) ==> e == ArithError::Overflow,
            abs(self.unit_spec().many().num() * self.count_spec()) <= i64::MAX && mul_fits_frac(
                self.many_exact(),
                self.unit_spec().base_size().frac(),
            ) ==> r is Ok,
    {
        let m = self.many()?;
        let r = m.mul(self.unit.base());
        if let Ok(v) = r {
            proof {
                let (mu, b) = (self.unit_spec().many(), self.unit_spec().base_size());
                lemma_frac_mul_congr(m.num(), m.den(), mu.num() * self.count, mu.den(), b.num(), b.den(), b.num(), b.den());
                assert(m.den() * b.den() > 0) by (nonlinear_arith)
                    requires m.den() > 0, b.den() > 0;
                lemma_frac_eq_trans(
                    v.num(), v.den(), m.num() * b.num(), m.den() * b.den(),
                    mu.num() * self.count * b.num(), mu.den() * b.den(),
                );
            }
        }
        r
    }

    /// `(offsets + count) × size`: the interval that this count stands for, which has a
    /// positive size.
    pub fn interval(&self) -> (r: Result<RealInterval, ArithError>)
        requires
            self.unit_spec().wf(),
        ensures
            r matches Ok(i) ==> {
                &&& i.valid()
                &&& i.0.lt(i.1)
                &&& i.0.is_frac(self.lo_frac().0, self.lo_frac().1)
                &&& i.1.is_frac(self.hi_frac().0, self.hi_frac().1)
            },
            r matches Ok(i) ==> i.0.frac() == self.span_exact().0 && i.1.frac() == self.span_exact().1,
            r matches Err(e) ==> e == ArithError::Overflow,
            self.fits() ==> r is Ok,
    {
        let size = self.unit.distance()?;
        let offsets = self.rounding.offsets();
        let shifted = offsets.add_int(self.count)?;
        let i = shifted.mul(&size)?;
        proof {
            let n = self.count as int;
            let (p, q) = self.unit_spec().size_frac();
            let (rl0, rl1) = self.rounding.lo_frac();
            let (rh0, rh1) = self.rounding.hi_frac();
            let o = offsets;
            assert(q > 0 && p > 0) by (nonlinear_arith)
                requires
                    q == self.unit_spec().many().den() * self.unit_spec().base_size().den(),
                    p == self.unit_spec().many().num() * self.unit_spec().base_size().num(),
                    self.unit_spec().many().den() > 0,
                    self.unit_spec().base_size().den() > 0,
                    p > 0,
            ;
            // Lower end.
            assert((o.0.num() + n * o.0.den()) * rl1 == (n * rl1 + rl0) * o.0.den()) by (nonlinear_arith)
                requires o.0.num() * rl1 == rl0 * o.0.den();
            lemma_frac_eq_trans(shifted.0.num(), shifted.0.den(), o.0.num() + n * o.0.den(), o.0.den(), n * rl1 + rl0, rl1);
            lemma_frac_mul_congr(shifted.0.num(), shifted.0.den(), n * rl1 + rl0, rl1, size.num(), size.den(), p, q);
            assert(shifted.0.den() * size.den() > 0) by (nonlinear_arith)
                requires shifted.0.den() > 0, size.den() > 0;
            lemma_frac_eq_trans(
                i.0.num(), i.0.den(), shifted.0.num() * size.num(), shifted.0.den() * size.den(),
                (n * rl1 + rl0) * p, rl1 * q,
            );
            // Upper end.
            assert((o.1.num() + n * o.1.den()) * rh1 == (n * rh1 + rh0) * o.1.den()) by (nonlinear_arith)
                requires o.1.num() * rh1 == rh0 * o.1.den();
            lemma_frac_eq_trans(shifted.1.num(), shifted.1.den(), o.1.num() + n * o.1.den(), o.1.den(), n * rh1 + rh0, rh1);
            lemma_frac_mul_congr(shifted.1.num(), shifted.1.den(), n * rh1 + rh0, rh1, size.num(), size.den(), p, q);
            assert(shifted.1.den() * size.den() > 0) by (nonlinear_arith)
                requires shifted.1.den() > 0, size.den() > 0;
            lemma_frac_eq_trans(
                i.1.num(), i.1.den(), shifted.1.num() * size.num(), shifted.1.den() * size.den(),
                (n * rh1 + rh0) * p, rh1 * q,
            );
            // The lower end lies below the upper one.
            lemma_span_parts(self.unit_spec(), n, self.rounding);
            lemma_frac_lt_congr(
                i.0.num(), i.0.den(), (n * rl1 + rl0) * p, rl1 * q,
                i.1.num(), i.1.den(), (n * rh1 + rh0) * p, rh1 * q,
            );
        }
        Ok(i)
    }
}

/// One input and the output chosen for it.
#[derive(Clone, Debug)]
pub struct Answer {
    pub input: Approximation,
    pub output: Approximation,
}

impl Answer {
    pub fn new(input: &Approximation, output: &Approximation) -> (r: Answer)
        ensures
            r.input.count_spec() == input.count_spec(),
            r.input.unit_spec().same(input.unit_spec()),
            r.input.rounding_spec() == input.rounding_spec(),
            r.output.count_spec() == output.count_spec(),
            r.output.unit_spec().same(output.unit_spec()),
            r.output.rounding_spec() == output.rounding_spec(),
    {
        Answer { input: input.duplicate(), output: output.duplicate() }
    }
}

impl Approximation {
    /// A copy with the same count, unit and rounding.
    pub fn duplicate(&self) -> (r: Approximation)
        ensures
            r.count_spec() == self.count_spec(),
            r.unit_spec().same(self.unit_spec()),
            r.rounding_spec() == self.rounding_spec(),
    {
        Approximation { count: self.count, unit: self.unit.duplicate(), rounding: self.rounding }
    }
}

} // verus!
