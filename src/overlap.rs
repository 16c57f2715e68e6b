//! How well two intervals overlap, as the size of their intersection over the larger size.

use crate::fraction::{
    add_fits_frac, diff_of, div_fits_frac, lemma_frac_eq_trans, lemma_frac_lt_congr, lemma_regroup,
    ArithError, Real,
};
use crate::interval::RealInterval;
use vstd::arithmetic::mul::{
    lemma_mul_is_commutative, lemma_mul_is_distributive_sub_other_way,
};
use vstd::prelude::*;

verus! {

/// `a < b` for fractions `(numerator, denominator)` with positive denominators.
pub open spec fn flt(a: (int, int), b: (int, int)) -> bool {
    a.0 * b.1 < b.0 * a.1
}

/// `a <= b` for fractions with positive denominators.
pub open spec fn fle(a: (int, int), b: (int, int)) -> bool {
    a.0 * b.1 <= b.0 * a.1
}

/// The same value.
pub open spec fn feq(a: (int, int), b: (int, int)) -> bool {
    a.0 * b.1 == b.0 * a.1
}

/// The larger; `b` when they are equal.
pub open spec fn fmax(a: (int, int), b: (int, int)) -> (int, int) {
    if flt(b, a) {
        a
    } else {
        b
    }
}

/// The smaller; `b` when they are equal.
pub open spec fn fmin(a: (int, int), b: (int, int)) -> (int, int) {
    if flt(a, b) {
        a
    } else {
        b
    }
}

/// `a - b`.
pub open spec fn fsub(a: (int, int), b: (int, int)) -> (int, int) {
    (a.0 * b.1 - b.0 * a.1, a.1 * b.1)
}

/// `a / b`.
pub open spec fn fdiv(a: (int, int), b: (int, int)) -> (int, int) {
    (a.0 * b.1, a.1 * b.0)
}

/// The size of the intersection of `[alo, ahi)` and `[blo, bhi)`, clamped at zero, over
/// the larger of their two sizes.
pub open spec fn overlap_frac(alo: (int, int), ahi: (int, int), blo: (int, int), bhi: (int, int)) -> (int, int) {
    let lo = fmax(alo, blo);
    let hi = fmax(lo, fmin(ahi, bhi));
    fdiv(fsub(hi, lo), fmax(fsub(ahi, alo), fsub(bhi, blo)))
}

/// Every step of `overlap_of` stays within `i64`: the three sizes and the division.
pub open spec fn overlap_fits(alo: (int, int), ahi: (int, int), blo: (int, int), bhi: (int, int)) -> bool {
    let lo = fmax(alo, blo);
    let hi = fmax(lo, fmin(ahi, bhi));
    &&& add_fits_frac(hi, lo)
    &&& add_fits_frac(ahi, alo)
    &&& add_fits_frac(bhi, blo)
    &&& div_fits_frac(diff_of(hi, lo), fmax(diff_of(ahi, alo), diff_of(bhi, blo)))
}

proof fn lemma_max_min_congr(x: (int, int), y: (int, int), xx: (int, int), yy: (int, int))
    requires
        feq(x, xx),
        feq(y, yy),
        x.1 > 0,
        y.1 > 0,
        xx.1 > 0,
        yy.1 > 0,
    ensures
        feq(fmax(x, y), fmax(xx, yy)),
        feq(fmin(x, y), fmin(xx, yy)),
{
    lemma_frac_lt_congr(y.0, y.1, yy.0, yy.1, x.0, x.1, xx.0, xx.1);
    lemma_frac_lt_congr(x.0, x.1, xx.0, xx.1, y.0, y.1, yy.0, yy.1);
}

proof fn lemma_sub_congr(a: (int, int), b: (int, int), aa: (int, int), bb: (int, int))
    requires
        feq(a, aa),
        feq(b, bb),
    ensures
        feq(fsub(a, b), fsub(aa, bb)),
{
    lemma_sub_congr_ints(a.0, a.1, b.0, b.1, aa.0, aa.1, bb.0, bb.1);
}

proof fn lemma_sub_congr_ints(a0: int, a1: int, b0: int, b1: int, c0: int, c1: int, d0: int, d1: int)
    requires
        a0 * c1 == c0 * a1,
        b0 * d1 == d0 * b1,
    ensures
        (a0 * b1 - b0 * a1) * (c1 * d1) == (c0 * d1 - d0 * c1) * (a1 * b1),
{
    lemma_regroup(a0, b1, c1, d1);
    lemma_regroup(b0, a1, d1, c1);
    lemma_regroup(c0, d1, a1, b1);
    lemma_regroup(d0, c1, b1, a1);
    lemma_mul_is_distributive_sub_other_way(c1 * d1, a0 * b1, b0 * a1);
    lemma_mul_is_distributive_sub_other_way(a1 * b1, c0 * d1, d0 * c1);
    lemma_mul_is_commutative(b1, d1);
    lemma_mul_is_commutative(a1, c1);
    lemma_mul_is_commutative(c1, d1);
    lemma_mul_is_commutative(d1, b1);
}

proof fn lemma_div_congr(a: (int, int), b: (int, int), aa: (int, int), bb: (int, int))
    requires
        feq(a, aa),
        feq(b, bb),
    ensures
        feq(fdiv(a, b), fdiv(aa, bb)),
{
    assert((a.0 * b.1) * (aa.1 * bb.0) == (aa.0 * bb.1) * (a.1 * b.0)) by (nonlinear_arith)
        requires
            a.0 * aa.1 == aa.0 * a.1,
            b.0 * bb.1 == bb.0 * b.1,
    ;
}

proof fn lemma_pos_mul(a: int, b: int)
    requires
        a > 0,
        b > 0,
    ensures
        a * b > 0,
{
    assert(a * b > 0) by (nonlinear_arith)
        requires
            a > 0,
            b > 0,
    ;
}

/// `b - a` is positive when `a < b`.
proof fn lemma_sub_pos(a: (int, int), b: (int, int))
    requires
        flt(a, b),
        a.1 > 0,
        b.1 > 0,
    ensures
        fsub(b, a).0 > 0,
        fsub(b, a).1 > 0,
{
    lemma_pos_mul(b.1, a.1);
}

/// Comparisons chain, for positive denominators.
pub proof fn lemma_frac_trans(a: (int, int), b: (int, int), c: (int, int))
    requires
        a.1 > 0,
        b.1 > 0,
        c.1 > 0,
    ensures
        fle(a, b) && fle(b, c) ==> fle(a, c),
        fle(a, b) && flt(b, c) ==> flt(a, c),
        flt(a, b) && fle(b, c) ==> flt(a, c),
{
    let (a0, a1, b0, b1, c0, c1) = (a.0, a.1, b.0, b.1, c.0, c.1);
    assert(a0 * b1 * c1 == (a0 * b1) * c1 && b0 * a1 * c1 == (b0 * c1) * a1 && c0 * b1 * a1 == (c0 * a1) * b1) by (nonlinear_arith);
    assert((a0 * b1 <= b0 * a1) ==> a0 * b1 * c1 <= b0 * a1 * c1) by (nonlinear_arith)
        requires c1 > 0;
    assert((a0 * b1 < b0 * a1) ==> a0 * b1 * c1 < b0 * a1 * c1) by (nonlinear_arith)
        requires c1 > 0;
    assert((b0 * c1 <= c0 * b1) ==> b0 * c1 * a1 <= c0 * b1 * a1) by (nonlinear_arith)
        requires a1 > 0;
    assert((b0 * c1 < c0 * b1) ==> b0 * c1 * a1 < c0 * b1 * a1) by (nonlinear_arith)
        requires a1 > 0;
    assert((a0 * c1) * b1 <= (c0 * a1) * b1 ==> a0 * c1 <= c0 * a1) by (nonlinear_arith)
        requires b1 > 0;
    assert((a0 * c1) * b1 < (c0 * a1) * b1 ==> a0 * c1 < c0 * a1) by (nonlinear_arith)
        requires b1 > 0;
    assert(a0 * b1 * c1 == (a0 * c1) * b1) by (nonlinear_arith);
}

/// For intervals of positive size the overlap has a positive denominator.
pub proof fn lemma_overlap_den_pos(alo: (int, int), ahi: (int, int), blo: (int, int), bhi: (int, int))
    requires
        alo.1 > 0,
        ahi.1 > 0,
        blo.1 > 0,
        bhi.1 > 0,
        flt(alo, ahi),
        flt(blo, bhi),
    ensures
        overlap_frac(alo, ahi, blo, bhi).1 > 0,
{
    lemma_sub_pos(alo, ahi);
    lemma_sub_pos(blo, bhi);
    let lo = fmax(alo, blo);
    let hi = fmax(lo, fmin(ahi, bhi));
    lemma_pos_mul(hi.1, lo.1);
    lemma_pos_mul(fsub(hi, lo).1, fmax(fsub(ahi, alo), fsub(bhi, blo)).0);
}

/// Narrowing an interval does not widen it: `x - y <= xx - yy` when `x <= xx` and
/// `yy <= y`, strictly when either end moved.
pub proof fn lemma_sub_mono(x: (int, int), y: (int, int), xx: (int, int), yy: (int, int))
    requires
        x.1 > 0,
        y.1 > 0,
        xx.1 > 0,
        yy.1 > 0,
        fle(x, xx),
        fle(yy, y),
    ensures
        fle(fsub(x, y), fsub(xx, yy)),
        flt(x, xx) || flt(yy, y) ==> flt(fsub(x, y), fsub(xx, yy)),
{
    let (x0, x1, y0, y1, a0, a1, b0, b1) = (x.0, x.1, y.0, y.1, xx.0, xx.1, yy.0, yy.1);
    lemma_pos_mul(y1, b1);
    lemma_pos_mul(x1, a1);
    lemma_regroup(x0, y1, a1, b1);
    lemma_regroup(y0, x1, a1, b1);
    lemma_regroup(a0, b1, x1, y1);
    lemma_regroup(b0, a1, x1, y1);
    lemma_mul_is_distributive_sub_other_way(a1 * b1, x0 * y1, y0 * x1);
    lemma_mul_is_distributive_sub_other_way(x1 * y1, a0 * b1, b0 * a1);
    lemma_mul_is_commutative(y1, b1);
    lemma_mul_is_commutative(a1, b1);
    lemma_mul_is_commutative(x1, a1);
    lemma_mul_is_commutative(b1, x1);
    lemma_mul_is_commutative(a1, x1);
    lemma_mul_is_commutative(x1, y1);
    assert((x0 * a1) * (y1 * b1) <= (a0 * x1) * (y1 * b1)) by (nonlinear_arith)
        requires x0 * a1 <= a0 * x1, y1 * b1 > 0;
    assert((b0 * y1) * (x1 * a1) <= (y0 * b1) * (x1 * a1)) by (nonlinear_arith)
        requires b0 * y1 <= y0 * b1, x1 * a1 > 0;
    if x0 * a1 < a0 * x1 {
        assert((x0 * a1) * (y1 * b1) < (a0 * x1) * (y1 * b1)) by (nonlinear_arith)
            requires x0 * a1 < a0 * x1, y1 * b1 > 0;
    }
    if b0 * y1 < y0 * b1 {
        assert((b0 * y1) * (x1 * a1) < (y0 * b1) * (x1 * a1)) by (nonlinear_arith)
            requires b0 * y1 < y0 * b1, x1 * a1 > 0;
    }
    assert((x0 * y1) * (a1 * b1) == (x0 * a1) * (y1 * b1));
    assert((y0 * x1) * (a1 * b1) == (y0 * b1) * (x1 * a1)) by {
        lemma_regroup(y0, x1, b1, a1);
        lemma_mul_is_commutative(a1, b1);
        lemma_mul_is_commutative(x1, a1);
        lemma_regroup(y0, b1, x1, a1);
    }
    assert((a0 * b1) * (x1 * y1) == (a0 * x1) * (y1 * b1)) by {
        lemma_regroup(a0, b1, x1, y1);
        lemma_mul_is_commutative(b1, y1);
    }
    assert((b0 * a1) * (x1 * y1) == (b0 * y1) * (x1 * a1)) by {
        lemma_regroup(b0, a1, y1, x1);
        lemma_mul_is_commutative(x1, y1);
        lemma_mul_is_commutative(a1, x1);
    }
}

/// `a == b` and `b == c` give `a == c`, for positive denominators.
proof fn lemma_feq_trans(a: (int, int), b: (int, int), c: (int, int))
    requires
        feq(a, b),
        feq(b, c),
        b.1 > 0,
    ensures
        feq(a, c),
{
    lemma_frac_eq_trans(a.0, a.1, b.0, b.1, c.0, c.1);
}

/// The overlap of two intervals of positive size lies in `[0, 1]`, and is `1` exactly
/// when the two have the same ends.
pub proof fn lemma_overlap_bounds(alo: (int, int), ahi: (int, int), blo: (int, int), bhi: (int, int))
    requires
        alo.1 > 0,
        ahi.1 > 0,
        blo.1 > 0,
        bhi.1 > 0,
        flt(alo, ahi),
        flt(blo, bhi),
    ensures
        overlap_frac(alo, ahi, blo, bhi).1 > 0,
        0 <= overlap_frac(alo, ahi, blo, bhi).0 <= overlap_frac(alo, ahi, blo, bhi).1,
        (overlap_frac(alo, ahi, blo, bhi).0 == overlap_frac(alo, ahi, blo, bhi).1) == (feq(alo, blo)
            && feq(ahi, bhi)),
{
    lemma_overlap_den_pos(alo, ahi, blo, bhi);
    lemma_sub_pos(alo, ahi);
    lemma_sub_pos(blo, bhi);
    let lo = fmax(alo, blo);
    let mn = fmin(ahi, bhi);
    let hi = fmax(lo, mn);
    let top = fsub(hi, lo);
    let sa = fsub(ahi, alo);
    let sb = fsub(bhi, blo);
    let bottom = fmax(sa, sb);
    let o = overlap_frac(alo, ahi, blo, bhi);
    lemma_pos_mul(hi.1, lo.1);
    assert(fle(alo, lo) && fle(blo, lo));
    assert(fle(mn, ahi) && fle(mn, bhi));
    assert(fle(sa, bottom) && fle(sb, bottom));
    assert(bottom.0 > 0 && bottom.1 > 0);
    // The intersection is no wider than either interval.
    if flt(mn, lo) {
        assert(hi == lo);
        assert(top.0 == 0) by (nonlinear_arith)
            requires top.0 == lo.0 * lo.1 - lo.0 * lo.1;
        assert(flt(top, bottom)) by (nonlinear_arith)
            requires top.0 == 0, top.1 > 0, bottom.0 > 0, bottom.1 > 0;
        assert(fle(top, bottom));
    } else {
        assert(hi == mn);
        lemma_sub_mono(mn, lo, ahi, alo);
        lemma_sub_mono(mn, lo, bhi, blo);
        lemma_frac_trans(top, sa, bottom);
        lemma_frac_trans(top, sb, bottom);
        if !(feq(alo, blo) && feq(ahi, bhi)) {
            assert(flt(alo, lo) || flt(blo, lo) || flt(mn, ahi) || flt(mn, bhi));
            assert(flt(top, bottom));
        }
    }
    assert(top.0 >= 0);
    assert(o.0 >= 0) by (nonlinear_arith)
        requires o.0 == top.0 * bottom.1, top.0 >= 0, bottom.1 > 0;
    assert(o.0 <= o.1) by (nonlinear_arith)
        requires top.0 * bottom.1 <= bottom.0 * top.1, o.0 == top.0 * bottom.1, o.1 == top.1 * bottom.0;
    if feq(alo, blo) && feq(ahi, bhi) {
        lemma_frac_lt_congr(alo.0, alo.1, blo.0, blo.1, ahi.0, ahi.1, bhi.0, bhi.1);
        assert(feq(lo, alo));
        assert(feq(mn, ahi));
        lemma_frac_lt_congr(lo.0, lo.1, alo.0, alo.1, mn.0, mn.1, ahi.0, ahi.1);
        assert(hi == mn);
        lemma_sub_congr(mn, lo, ahi, alo);
        lemma_sub_congr(bhi, blo, ahi, alo);
        assert(feq(bottom, sa));
        assert(feq(sa, bottom)) by (nonlinear_arith)
            requires feq(bottom, sa);
        lemma_feq_trans(top, sa, bottom);
        assert(o.0 == o.1) by (nonlinear_arith)
            requires top.0 * bottom.1 == bottom.0 * top.1, o.0 == top.0 * bottom.1, o.1 == top.1 * bottom.0;
    } else {
        assert(flt(top, bottom));
        assert(o.0 != o.1) by (nonlinear_arith)
            requires top.0 * bottom.1 < bottom.0 * top.1, o.0 == top.0 * bottom.1, o.1 == top.1 * bottom.0;
    }
}

/// The overlap depends on the values of the four ends only.
pub proof fn lemma_overlap_congr(
    alo: (int, int),
    ahi: (int, int),
    blo: (int, int),
    bhi: (int, int),
    alo2: (int, int),
    ahi2: (int, int),
    blo2: (int, int),
    bhi2: (int, int),
)
    requires
        feq(alo, alo2),
        feq(ahi, ahi2),
        feq(blo, blo2),
        feq(bhi, bhi2),
        alo.1 > 0,
        ahi.1 > 0,
        blo.1 > 0,
        bhi.1 > 0,
        alo2.1 > 0,
        ahi2.1 > 0,
        blo2.1 > 0,
        bhi2.1 > 0,
    ensures
        feq(overlap_frac(alo, ahi, blo, bhi), overlap_frac(alo2, ahi2, blo2, bhi2)),
{
    lemma_max_min_congr(alo, blo, alo2, blo2);
    lemma_max_min_congr(ahi, bhi, ahi2, bhi2);
    let lo = fmax(alo, blo);
    let lo2 = fmax(alo2, blo2);
    let m = fmin(ahi, bhi);
    let m2 = fmin(ahi2, bhi2);
    lemma_max_min_congr(lo, m, lo2, m2);
    let hi = fmax(lo, m);
    let hi2 = fmax(lo2, m2);
    lemma_sub_congr(hi, lo, hi2, lo2);
    lemma_sub_congr(ahi, alo, ahi2, alo2);
    lemma_sub_congr(bhi, blo, bhi2, blo2);
    let sa = fsub(ahi, alo);
    let sb = fsub(bhi, blo);
    lemma_pos_mul(ahi.1, alo.1);
    lemma_pos_mul(bhi.1, blo.1);
    lemma_pos_mul(ahi2.1, alo2.1);
    lemma_pos_mul(bhi2.1, blo2.1);
    lemma_max_min_congr(sa, sb, fsub(ahi2, alo2), fsub(bhi2, blo2));
    lemma_div_congr(fsub(hi, lo), fmax(sa, sb), fsub(hi2, lo2), fmax(fsub(ahi2, alo2), fsub(bhi2, blo2)));
}

/// The overlap of `a` and `b`: the size of their intersection over the larger of their
/// sizes. Both must have a positive size. It lies in `[0, 1]`, and is `1` exactly when
/// the two intervals have the same ends.
pub fn overlap_of(a: &RealInterval, b: &RealInterval) -> (r: Result<Real, ArithError>)
    requires
        a.valid(),
        b.valid(),
        a.0.lt(a.1),
        b.0.lt(b.1),
    ensures
        r matches Ok(x) ==> x.wf() && feq(x.frac(), overlap_frac(a.0.frac(), a.1.frac(), b.0.frac(), b.1.frac())),
        r matches Ok(x) ==> 0 <= x.num() <= x.den(),
        r matches Ok(x) ==> (x.num() == x.den()) == (a.0.eqv(b.0) && a.1.eqv(b.1)),
        r matches Err(e) ==> e == ArithError::Overflow,
        overlap_fits(a.0.frac(), a.1.frac(), b.0.frac(), b.1.frac()) ==> r is Ok,
{
    let meet = a.intersection_with(b);
    let top = meet.size()?;
    let sa = a.size()?;
    let sb = b.size()?;
    let bottom = sa.max(&sb);
    proof {
        lemma_sub_pos(a.0.frac(), a.1.frac());
        lemma_sub_pos(b.0.frac(), b.1.frac());
        assert(sa.num() > 0) by (nonlinear_arith)
            requires
                sa.num() * (a.1.den() * a.0.den()) == (a.1.num() * a.0.den() - a.0.num() * a.1.den()) * sa.den(),
                a.1.num() * a.0.den() - a.0.num() * a.1.den() > 0,
                a.1.den() * a.0.den() > 0,
                sa.den() > 0,
        ;
        assert(sb.num() > 0) by (nonlinear_arith)
            requires
                sb.num() * (b.1.den() * b.0.den()) == (b.1.num() * b.0.den() - b.0.num() * b.1.den()) * sb.den(),
                b.1.num() * b.0.den() - b.0.num() * b.1.den() > 0,
                b.1.den() * b.0.den() > 0,
                sb.den() > 0,
        ;
    }
    let r = match top.div(&bottom) {
        Ok(x) => x,
        Err(_) => {
            return Err(ArithError::Overflow);
        },
    };
    proof {
        let (alo, ahi, blo, bhi) = (a.0.frac(), a.1.frac(), b.0.frac(), b.1.frac());
        lemma_pos_mul(ahi.1, alo.1);
        lemma_pos_mul(bhi.1, blo.1);
        lemma_max_min_congr(sa.frac(), sb.frac(), fsub(ahi, alo), fsub(bhi, blo));
        assert(feq(top.frac(), fsub(meet.1.frac(), meet.0.frac())));
        lemma_div_congr(top.frac(), bottom.frac(), fsub(meet.1.frac(), meet.0.frac()), fmax(fsub(ahi, alo), fsub(bhi, blo)));
        assert(meet.0.frac() == fmax(alo, blo));
        assert(meet.1.frac() == fmax(meet.0.frac(), fmin(ahi, bhi)));
        let o = overlap_frac(alo, ahi, blo, bhi);
        let t = fdiv(top.frac(), bottom.frac());
        assert(t.1 > 0) by (nonlinear_arith)
            requires t.1 == top.den() * bottom.num(), top.den() > 0, bottom.num() > 0;
        lemma_frac_eq_trans(r.num(), r.den(), t.0, t.1, o.0, o.1);
        lemma_overlap_bounds(alo, ahi, blo, bhi);
        lemma_frac_lt_congr(0, 1, 0, 1, r.num(), r.den(), o.0, o.1);
        lemma_frac_lt_congr(r.num(), r.den(), o.0, o.1, 1, 1, 1, 1);
    }
    Ok(r)
}

} // verus!
