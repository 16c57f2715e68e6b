//! Named units of distance, and the counts of a unit that can stand for an interval.

use crate::fraction::{
    add_fits_frac, diff_of, div_fits_frac, mul_fits_frac, prod_of, quot_of, round_fits_frac, sum_of,
    ArithError, Real,
};
use crate::interval::RealInterval;
use crate::overlap::flt;
use crate::rounding::Rounding;
use vstd::prelude::*;

verus! {

/// A unit of distance: one of it is `count × base`, where `base` is the size of a
/// reference unit and `count` how many of those it holds.
#[derive(Clone, Debug)]
pub struct Unit {
    name: String,
    count: Real,
    base: Real,
}

/// If `cn / cd == m / k`, then comparing `x / od` against it is comparing `x * k`
/// against `m * od`.
proof fn lemma_cross(x: int, od: int, cn: int, cd: int, m: int, k: int)
    requires
        cn * k == m * cd,
        k > 0,
        cd > 0,
    ensures
        (x * cd >= cn * od) == (x * k >= m * od),
        (x * cd <= cn * od) == (x * k <= m * od),
{
    assert(x * cd * k == x * k * cd) by (nonlinear_arith);
    assert(cn * od * k == m * od * cd) by (nonlinear_arith)
        requires
            cn * k == m * cd,
    ;
    assert((x * cd >= cn * od) == (x * cd * k >= cn * od * k)) by (nonlinear_arith)
        requires
            k > 0,
    ;
    assert((x * cd <= cn * od) == (x * cd * k <= cn * od * k)) by (nonlinear_arith)
        requires
            k > 0,
    ;
    assert((x * k >= m * od) == (x * k * cd >= m * od * cd)) by (nonlinear_arith)
        requires
            cd > 0,
    ;
    assert((x * k <= m * od) == (x * k * cd <= m * od * cd)) by (nonlinear_arith)
        requires
            cd > 0,
    ;
}

/// If `x / d == y / e`, then `x / d` and `y / e` compare alike against `m / k`.
proof fn lemma_swap(x: int, d: int, y: int, e: int, k: int, m: int)
    requires
        x * e == y * d,
        d > 0,
        e > 0,
    ensures
        (x * k >= m * d) == (y * k >= m * e),
        (x * k <= m * d) == (y * k <= m * e),
{
    assert(x * k * e == y * k * d) by (nonlinear_arith)
        requires
            x * e == y * d,
    ;
    assert((x * k >= m * d) == (x * k * e >= m * d * e)) by (nonlinear_arith)
        requires
            e > 0,
    ;
    assert((x * k <= m * d) == (x * k * e <= m * d * e)) by (nonlinear_arith)
        requires
            e > 0,
    ;
    assert((y * k >= m * e) == (y * k * d >= m * e * d)) by (nonlinear_arith)
        requires
            d > 0,
    ;
    assert((y * k <= m * e) == (y * k * d <= m * e * d)) by (nonlinear_arith)
        requires
            d > 0,
    ;
    assert(m * d * e == m * e * d) by (nonlinear_arith);
}

/// An integer is at least the ceiling of `c / d` exactly when it is at least `c / d`.
proof fn lemma_ceil(n: int, a: int, c: int, d: int)
    requires
        d > 0,
        (a - 1) * d < c <= a * d,
    ensures
        (a <= n) == (n * d >= c),
{
    if a <= n {
        assert(a * d <= n * d) by (nonlinear_arith)
            requires
                a <= n,
                d > 0,
        ;
    } else {
        assert(n * d <= (a - 1) * d) by (nonlinear_arith)
            requires
                n <= a - 1,
                d > 0,
        ;
    }
}

/// An integer is at most the floor of `c / d` exactly when it is at most `c / d`.
proof fn lemma_floor(n: int, b: int, c: int, d: int)
    requires
        d > 0,
        b * d <= c < (b + 1) * d,
    ensures
        (n <= b) == (n * d <= c),
{
    if n <= b {
        assert(n * d <= b * d) by (nonlinear_arith)
            requires
                n <= b,
                d > 0,
        ;
    } else {
        assert((b + 1) * d <= n * d) by (nonlinear_arith)
            requires
                b + 1 <= n,
                d > 0,
        ;
    }
}

/// The ends of what `n` of `u` under `r` stands for have positive denominators, and the
/// lower lies below the upper.
pub proof fn lemma_span_parts(u: Unit, n: int, r: Rounding)
    requires
        u.wf(),
    ensures
        u.span_lo(n, r).1 > 0,
        u.span_hi(n, r).1 > 0,
        flt(u.span_lo(n, r), u.span_hi(n, r)),
{
    let (p, q) = u.size_frac();
    let (rl0, rl1) = r.lo_frac();
    let (rh0, rh1) = r.hi_frac();
    assert(q > 0 && p > 0) by (nonlinear_arith)
        requires
            q == u.many().den() * u.base_size().den(),
            p == u.many().num() * u.base_size().num(),
            u.many().den() > 0,
            u.base_size().den() > 0,
            p > 0,
    ;
    assert(rl1 * q > 0 && rh1 * q > 0) by (nonlinear_arith)
        requires
            rl1 > 0,
            rh1 > 0,
            q > 0,
    ;
    assert(((n * rl1 + rl0) * p) * (rh1 * q) == ((n * rl1 + rl0) * rh1) * (p * q)) by (nonlinear_arith);
    assert(((n * rh1 + rh0) * p) * (rl1 * q) == ((n * rh1 + rh0) * rl1) * (p * q)) by (nonlinear_arith);
    assert((n * rl1 + rl0) * rh1 < (n * rh1 + rh0) * rl1) by (nonlinear_arith)
        requires
            rl0 * rh1 < rh0 * rl1,
    ;
    assert(p * q > 0) by (nonlinear_arith)
        requires
            p > 0,
            q > 0,
    ;
    assert(((n * rl1 + rl0) * rh1) * (p * q) < ((n * rh1 + rh0) * rl1) * (p * q)) by (nonlinear_arith)
        requires
            (n * rl1 + rl0) * rh1 < (n * rh1 + rh0) * rl1,
            p * q > 0,
    ;
}

impl Unit {
    pub closed spec fn name_view(self) -> Seq<char> {
        self.name@
    }

    /// How many reference units one of this unit holds.
    pub closed spec fn many(self) -> Real {
        self.count
    }

    /// The size of the reference unit.
    pub closed spec fn base_size(self) -> Real {
        self.base
    }

    /// The same name and factors.
    pub open spec fn same(self, o: Unit) -> bool {
        &&& self.name_view() == o.name_view()
        &&& self.many() == o.many()
        &&& self.base_size() == o.base_size()
    }

    /// Both factors well-formed, and a positive size.
    pub open spec fn wf(self) -> bool {
        &&& self.many().wf()
        &&& self.base_size().wf()
        &&& self.many().num() * self.base_size().num() > 0
    }

    /// The size of one of this unit, `count × base`, as numerator and denominator.
    pub open spec fn size_frac(self) -> (int, int) {
        (
            self.many().num() * self.base_size().num(),
            self.many().den() * self.base_size().den(),
        )
    }

    /// The size of one of this unit in lowest terms, as `distance` computes it.
    pub open spec fn size_exact(self) -> (int, int) {
        prod_of(self.many().frac(), self.base_size().frac())
    }

    /// Computing the size stays within `i64`.
    pub open spec fn size_fits(self) -> bool {
        mul_fits_frac(self.many().frac(), self.base_size().frac())
    }

    /// The ends of what `n` of this unit under `r` stands for, in lowest terms, as
    /// `Approximation::interval` computes them: `(offsets + n) × size`.
    pub open spec fn span_exact(self, n: int, r: Rounding) -> ((int, int), (int, int)) {
        (
            prod_of(sum_of(r.lo_frac(), (n, 1int)), self.size_exact()),
            prod_of(sum_of(r.hi_frac(), (n, 1int)), self.size_exact()),
        )
    }

    /// Computing what `n` of this unit under `r` stands for stays within `i64`.
    pub open spec fn span_fits(self, n: int, r: Rounding) -> bool {
        &&& self.size_fits()
        &&& add_fits_frac(r.lo_frac(), (n, 1int))
        &&& add_fits_frac(r.hi_frac(), (n, 1int))
        &&& mul_fits_frac(sum_of(r.lo_frac(), (n, 1int)), self.size_exact())
        &&& mul_fits_frac(sum_of(r.hi_frac(), (n, 1int)), self.size_exact())
    }

    /// Every step of `count_range` on `[lo, hi)` under `r` stays within `i64`: the size,
    /// the two divisions, the two subtractions and the rounding of the two ends.
    pub open spec fn range_fits(self, lo: (int, int), hi: (int, int), r: Rounding) -> bool {
        let s = self.size_exact();
        let q0 = quot_of(lo, s);
        let q1 = quot_of(hi, s);
        &&& self.size_fits()
        &&& div_fits_frac(lo, s)
        &&& div_fits_frac(hi, s)
        &&& add_fits_frac(q0, r.hi_frac())
        &&& add_fits_frac(q1, r.lo_frac())
        &&& round_fits_frac(diff_of(q0, r.hi_frac()))
        &&& round_fits_frac(diff_of(q1, r.lo_frac()))
    }

    /// The lower end of what `n` of this unit under `r` stands for, `(n + lo) × size`.
    pub open spec fn span_lo(self, n: int, r: Rounding) -> (int, int) {
        (
            (n * r.lo_frac().1 + r.lo_frac().0) * self.size_frac().0,
            r.lo_frac().1 * self.size_frac().1,
        )
    }

    /// The upper end of what `n` of this unit under `r` stands for, `(n + hi) × size`.
    pub open spec fn span_hi(self, n: int, r: Rounding) -> (int, int) {
        (
            (n * r.hi_frac().1 + r.hi_frac().0) * self.size_frac().0,
            r.hi_frac().1 * self.size_frac().1,
        )
    }

    /// What `n` of this unit under `r` stands for meets the closed hull of `[lo, hi)`: it
    /// neither ends below `i`'s lower end nor starts above its upper end.
    pub open spec fn meets(self, n: int, r: Rounding, lo: (int, int), hi: (int, int)) -> bool {
        &&& lo.0 * self.span_hi(n, r).1 <= self.span_hi(n, r).0 * lo.1
        &&& self.span_lo(n, r).0 * hi.1 <= hi.0 * self.span_lo(n, r).1
    }

    /// A unit named `name` of size `count × base`; the size must be positive.
    pub fn new(name: &str, count: &Real, base: &Real) -> (r: Unit)
        requires
            count.wf(),
            base.wf(),
            count.num() * base.num() > 0,
        ensures
            r.wf(),
            r.name_view() == name@,
            r.many() == *count,
            r.base_size() == *base,
    {
        Unit { name: name.to_owned(), count: *count, base: *base }
    }

    pub fn name(&self) -> (r: String)
        ensures
            r@ == self.name_view(),
    {
        self.name.clone()
    }

    pub fn count(&self) -> (r: &Real)
        ensures
            *r == self.many(),
    {
        &self.count
    }

    pub fn base(&self) -> (r: &Real)
        ensures
            *r == self.base_size(),
    {
        &self.base
    }

    /// A copy with the same name and factors.
    pub fn duplicate(&self) -> (r: Unit)
        ensures
            r.same(*self),
    {
        Unit { name: self.name.clone(), count: self.count, base: self.base }
    }

    /// The size of one of this unit, `count × base`.
    pub fn distance(&self) -> (r: Result<Real, ArithError>)
        requires
            self.wf(),
        ensures
            r matches Ok(s) ==> s.wf() && s.num() > 0 && s.is_frac(
                self.size_frac().0,
                self.size_frac().1,
            ),
            r matches Ok(s) ==> s.frac() == self.size_exact(),
            r matches Err(e) ==> e == ArithError::Overflow,
            self.size_fits() ==> r is Ok,
    {
        let r = self.count.mul(&self.base);
        if let Ok(s) = r {
            proof {
                let (sn, sd, p, q) = (s.num(), s.den(), self.size_frac().0, self.size_frac().1);
                assert(q > 0) by (nonlinear_arith)
                    requires q == self.many().den() * self.base_size().den(), self.many().den() > 0, self.base_size().den() > 0;
                assert(sn > 0) by (nonlinear_arith)
                    requires
                        sn * q == p * sd,
                        p > 0,
                        q > 0,
                        sd > 0,
                ;
            }
        }
        r
    }

    /// The inclusive range `(first, last)` of the counts of this unit that, rounded as
    /// `rounding` says, could stand for a value in `interval`: the interval is divided
    /// by this unit's size, the offsets are taken off, and the ends are rounded inwards.
    /// A count lies in it exactly when what it stands for meets the interval.
    pub fn count_range(&self, interval: &RealInterval, rounding: Rounding) -> (r: Result<
        (i64, i64),
        ArithError,
    >)
        requires
            self.wf(),
            interval.valid(),
            interval.0.lt(interval.1),
        ensures
            r matches Ok(p) ==> forall|n: int|
                (p.0 <= n <= p.1) <==> #[trigger] self.meets(n, rounding, interval.0.frac(), interval.1.frac()),
            r matches Err(e) ==> e == ArithError::Overflow,
            self.range_fits(interval.0.frac(), interval.1.frac(), rounding) ==> r is Ok,
    {
        let size = self.distance()?;
        let scaled = match interval.div(&size) {
            Ok(s) => s,
            Err(_) => {
                return Err(ArithError::Overflow);
            },
        };
        let offsets = rounding.offsets();
        let counts = scaled.sub(&offsets)?;
        let first = counts.0.ceil()?;
        let last = counts.1.floor()?;
        proof {
            let (sz, sd) = (size.num(), size.den());
            let (p, q) = self.size_frac();
            let (ln, ld, hn, hd) = (interval.0.num(), interval.0.den(), interval.1.num(), interval.1.den());
            let (qln, qld, qhn, qhd) = (scaled.0.num(), scaled.0.den(), scaled.1.num(), scaled.1.den());
            let (oln, old, ohn, ohd) = (offsets.0.num(), offsets.0.den(), offsets.1.num(), offsets.1.den());
            let (cln, cld, chn, chd) = (counts.0.num(), counts.0.den(), counts.1.num(), counts.1.den());
            let (rl0, rl1) = rounding.lo_frac();
            let (rh0, rh1) = rounding.hi_frac();
            assert(rl1 > 0 && rh1 > 0);
            assert(q > 0) by (nonlinear_arith)
                requires q == self.many().den() * self.base_size().den(), self.many().den() > 0, self.base_size().den() > 0;
            assert(qld * ohd > 0 && qhd * old > 0) by (nonlinear_arith)
                requires qld > 0, ohd > 0, qhd > 0, old > 0;
            assert(ld * sz > 0 && hd * sz > 0) by (nonlinear_arith)
                requires ld > 0, hd > 0, sz > 0;
            assert forall|n: int| (first <= n <= last) <==> #[trigger] self.meets(n, rounding, interval.0.frac(), interval.1.frac()) by {
                // Lower end: n >= ceil((ln/ld) / size - oh).
                lemma_ceil(n, first as int, cln, cld);
                lemma_cross(n, 1, cln, cld, qln * ohd - ohn * qld, qld * ohd);
                assert((n * (qld * ohd) >= qln * ohd - ohn * qld) == ((n * ohd + ohn) * qld >= qln * ohd)) by (nonlinear_arith);
                lemma_cross(n * ohd + ohn, ohd, qln, qld, ln * sd, ld * sz);
                assert((n * ohd + ohn) * rh1 == (n * rh1 + rh0) * ohd) by (nonlinear_arith)
                    requires ohn * rh1 == rh0 * ohd;
                lemma_swap(n * ohd + ohn, ohd, n * rh1 + rh0, rh1, ld * sz, ln * sd);
                assert(((n * rh1 + rh0) * (ld * sz) >= (ln * sd) * rh1) == (((n * rh1 + rh0) * ld) * sz >= (ln * rh1) * sd)) by (nonlinear_arith);
                lemma_cross((n * rh1 + rh0) * ld, ln * rh1, sz, sd, p, q);
                assert((((n * rh1 + rh0) * ld) * sz >= (ln * rh1) * sd) == (((n * rh1 + rh0) * ld) * p >= (ln * rh1) * q)) by (nonlinear_arith)
                    requires sz * q == p * sd, q > 0, sd > 0;
                assert((((n * rh1 + rh0) * ld) * p >= (ln * rh1) * q) == (ln * (rh1 * q) <= ((n * rh1 + rh0) * p) * ld)) by (nonlinear_arith);
                // Upper end: n <= floor((hn/hd) / size - ol).
                lemma_floor(n, last as int, chn, chd);
                assert((n * chd <= chn) == (n * (qhd * old) <= qhn * old - oln * qhd)) by (nonlinear_arith)
                    requires chn * (qhd * old) == (qhn * old - oln * qhd) * chd, chd > 0, qhd > 0, old > 0;
                assert((n * (qhd * old) <= qhn * old - oln * qhd) == ((n * old + oln) * qhd <= qhn * old)) by (nonlinear_arith);
                lemma_cross(n * old + oln, old, qhn, qhd, hn * sd, hd * sz);
                assert((n * old + oln) * rl1 == (n * rl1 + rl0) * old) by (nonlinear_arith)
                    requires oln * rl1 == rl0 * old;
                lemma_swap(n * old + oln, old, n * rl1 + rl0, rl1, hd * sz, hn * sd);
                assert(((n * rl1 + rl0) * (hd * sz) <= (hn * sd) * rl1) == (((n * rl1 + rl0) * hd) * sz <= (hn * rl1) * sd)) by (nonlinear_arith);
                assert((((n * rl1 + rl0) * hd) * sz <= (hn * rl1) * sd) == (((n * rl1 + rl0) * hd) * p <= (hn * rl1) * q)) by (nonlinear_arith)
                    requires sz * q == p * sd, q > 0, sd > 0;
                assert((((n * rl1 + rl0) * hd) * p <= (hn * rl1) * q) == (((n * rl1 + rl0) * p) * hd <= hn * (rl1 * q))) by (nonlinear_arith);
            }
        }
        Ok((first, last))
    }
}

} // verus!
