//! Exact fractions over `i64`, always in lowest terms with a positive denominator.

use num::rational::Ratio;
use num::traits::{CheckedAdd, CheckedDiv, CheckedMul, CheckedSub};
use vstd::arithmetic::mul::{lemma_mul_is_associative, lemma_mul_is_commutative};
use vstd::prelude::*;

verus! {

/// Greatest common divisor of two naturals (Euclid).
pub open spec fn gcd(a: nat, b: nat) -> nat
    decreases b,
{
    if b == 0 {
        a
    } else {
        gcd(b, a % b)
    }
}

pub open spec fn abs(x: int) -> nat {
    if x < 0 {
        (-x) as nat
    } else {
        x as nat
    }
}

/// `n / d` in lowest terms with a positive denominator, for `d != 0`.
pub open spec fn reduce(n: int, d: int) -> (int, int) {
    let g = gcd(abs(n), abs(d)) as int;
    if d < 0 {
        ((-n) / g, (-d) / g)
    } else {
        (n / g, d / g)
    }
}

/// `p + q` in lowest terms, for fractions `(numerator, denominator)`.
pub open spec fn sum_of(p: (int, int), q: (int, int)) -> (int, int) {
    reduce(p.0 * q.1 + q.0 * p.1, p.1 * q.1)
}

/// `p - q` in lowest terms.
pub open spec fn diff_of(p: (int, int), q: (int, int)) -> (int, int) {
    reduce(p.0 * q.1 - q.0 * p.1, p.1 * q.1)
}

/// `p * q` in lowest terms.
pub open spec fn prod_of(p: (int, int), q: (int, int)) -> (int, int) {
    reduce(p.0 * q.0, p.1 * q.1)
}

/// `p / q` in lowest terms.
pub open spec fn quot_of(p: (int, int), q: (int, int)) -> (int, int) {
    reduce(p.0 * q.1, p.1 * q.0)
}

/// Neither cross product nor the common denominator of `p + q` or `p - q` leaves `i64`.
pub open spec fn add_fits_frac(p: (int, int), q: (int, int)) -> bool {
    &&& abs(p.0 * q.1) + abs(q.0 * p.1) <= i64::MAX
    &&& p.1 * q.1 <= i64::MAX
}

/// Neither product of `p * q` leaves `i64`.
pub open spec fn mul_fits_frac(p: (int, int), q: (int, int)) -> bool {
    &&& abs(p.0 * q.0) <= i64::MAX
    &&& p.1 * q.1 <= i64::MAX
}

/// Neither cross product of `p / q` leaves `i64`.
pub open spec fn div_fits_frac(p: (int, int), q: (int, int)) -> bool {
    &&& abs(p.0 * q.1) <= i64::MAX
    &&& abs(p.1 * q.0) <= i64::MAX
}

/// Rounding `p` down and up stays within `i64` (num-rational computes
/// `numer - denom` and `numer + denom` on the way).
pub open spec fn round_fits_frac(p: (int, int)) -> bool {
    &&& (p.0 < 0 ==> p.0 - p.1 >= i64::MIN)
    &&& (p.0 >= 0 ==> p.0 + p.1 <= i64::MAX)
}

/// Why an exact operation produced no value.
#[derive(Clone, Copy, Debug, PartialEq, Eq, Structural)]
pub enum ArithError {
    /// The divisor was exactly zero.
    DivisionByZero,
    /// A numerator or denominator left the range of `i64`.
    Overflow,
}

/// A rational number `numer / denom`.
#[derive(Clone, Copy, Debug, PartialEq, Eq, Structural)]
pub struct Real {
    numer: i64,
    denom: i64,
}

/// `a/ad <= b/bd`, for positive denominators.
pub open spec fn frac_le(a: int, ad: int, b: int, bd: int) -> bool {
    a * bd <= b * ad
}

/// `a/ad < b/bd`, for positive denominators.
pub open spec fn frac_lt(a: int, ad: int, b: int, bd: int) -> bool {
    a * bd < b * ad
}

impl Real {
    pub closed spec fn num(self) -> int {
        self.numer as int
    }

    pub closed spec fn den(self) -> int {
        self.denom as int
    }

    /// Numerator and denominator as a pair.
    pub open spec fn frac(self) -> (int, int) {
        (self.num(), self.den())
    }

    /// Lowest terms, positive denominator, both parts within `i64`.
    pub open spec fn wf(self) -> bool {
        &&& 0 < self.den() <= i64::MAX
        &&& i64::MIN <= self.num() <= i64::MAX
        &&& gcd(abs(self.num()), self.den() as nat) == 1
    }

    /// The value is exactly `n / d`.
    pub open spec fn is_frac(self, n: int, d: int) -> bool {
        self.num() * d == n * self.den()
    }

    pub open spec fn le(self, o: Real) -> bool {
        frac_le(self.num(), self.den(), o.num(), o.den())
    }

    pub open spec fn lt(self, o: Real) -> bool {
        frac_lt(self.num(), self.den(), o.num(), o.den())
    }

    /// The larger of the two; `o` when they are equal.
    pub open spec fn max_of(self, o: Real) -> Real {
        if o.lt(self) {
            self
        } else {
            o
        }
    }

    /// The smaller of the two; `o` when they are equal.
    pub open spec fn min_of(self, o: Real) -> Real {
        if self.lt(o) {
            self
        } else {
            o
        }
    }

    /// The same rational value.
    pub open spec fn eqv(self, o: Real) -> bool {
        self.num() * o.den() == o.num() * self.den()
    }

    /// `self == x + y`.
    pub open spec fn is_sum(self, x: Real, y: Real) -> bool {
        self.is_frac(x.num() * y.den() + y.num() * x.den(), x.den() * y.den())
    }

    /// `self == x - y`.
    pub open spec fn is_diff(self, x: Real, y: Real) -> bool {
        self.is_frac(x.num() * y.den() - y.num() * x.den(), x.den() * y.den())
    }

    /// `self == x * y`.
    pub open spec fn is_prod(self, x: Real, y: Real) -> bool {
        self.is_frac(x.num() * y.num(), x.den() * y.den())
    }

    /// `self == x / y`.
    pub open spec fn is_quot(self, x: Real, y: Real) -> bool {
        self.is_frac(x.num() * y.den(), x.den() * y.num())
    }

    /// Neither cross product nor the common denominator of `x + y` or `x - y` leaves `i64`.
    pub open spec fn add_fits(x: Real, y: Real) -> bool {
        add_fits_frac(x.frac(), y.frac())
    }

    /// Neither product of `x * y` leaves `i64`.
    pub open spec fn mul_fits(x: Real, y: Real) -> bool {
        mul_fits_frac(x.frac(), y.frac())
    }

    /// Neither cross product of `x / y` leaves `i64`.
    pub open spec fn div_fits(x: Real, y: Real) -> bool {
        div_fits_frac(x.frac(), y.frac())
    }
}

/// Sums are exact: if `x` is `a / b` and `y` is `c / d`, their sum as `add` gives it
/// is `(a·d + c·b) / (b·d)`, the value computed by hand, and `add` keeps it in lowest
/// terms.
pub proof fn lemma_sum_exact(x: Real, y: Real, s: Real, a: int, b: int, c: int, d: int)
    requires
        x.wf(),
        y.wf(),
        b != 0,
        d != 0,
        x.is_frac(a, b),
        y.is_frac(c, d),
        s.is_sum(x, y),
    ensures
        s.is_frac(a * d + c * b, b * d),
{
    let (xn, xd, yn, yd, sn, sd) = (x.num(), x.den(), y.num(), y.den(), s.num(), s.den());
    let (u, v, k) = (xn * yd, yn * xd, xd * yd);
    assert(sn * k == (u + v) * sd);
    lemma_regroup(xn, yd, b, d);
    lemma_regroup(a, xd, yd, d);
    lemma_mul_is_commutative(xd, d);
    lemma_regroup(a, d, xd, yd);
    assert(u * (b * d) == (a * d) * k);
    lemma_regroup(yn, xd, d, b);
    lemma_mul_is_commutative(d, b);
    lemma_regroup(c, yd, xd, b);
    lemma_mul_is_commutative(yd, xd);
    lemma_regroup(c, b, xd, yd);
    lemma_mul_is_commutative(xd, b);
    lemma_mul_is_commutative(yd, b);
    assert(v * (b * d) == (c * b) * k) by (nonlinear_arith)
        requires
            v == yn * xd,
            k == xd * yd,
            yn * d == c * yd,
            (yn * xd) * (d * b) == (yn * d) * (xd * b),
            (c * yd) * (xd * b) == (c * xd) * (yd * b),
            (c * b) * (xd * yd) == (c * xd) * (b * yd),
            d * b == b * d,
            yd * b == b * yd,
    ;
    assert((u + v) * (b * d) == (a * d + c * b) * k) by (nonlinear_arith)
        requires
            u * (b * d) == (a * d) * k,
            v * (b * d) == (c * b) * k,
    ;
    assert(k > 0) by (nonlinear_arith)
        requires
            xd > 0,
            yd > 0,
            k == xd * yd,
    ;
    assert((sn * (b * d)) * k == ((a * d + c * b) * sd) * k) by (nonlinear_arith)
        requires
            sn * k == (u + v) * sd,
            (u + v) * (b * d) == (a * d + c * b) * k,
    ;
    assert(sn * (b * d) == (a * d + c * b) * sd) by (nonlinear_arith)
        requires
            (sn * (b * d)) * k == ((a * d + c * b) * sd) * k,
            k > 0,
    ;
}

/// `(x * y) * (z * w) == (x * z) * (y * w)`.
pub proof fn lemma_regroup(x: int, y: int, z: int, w: int)
    ensures
        (x * y) * (z * w) == (x * z) * (y * w),
{
    lemma_mul_is_associative(x * y, z, w);
    lemma_mul_is_associative(x, y, z);
    lemma_mul_is_commutative(y, z);
    lemma_mul_is_associative(x, z, y);
    lemma_mul_is_associative(x * z, y, w);
}

/// If `a/da == b/db` and `b/db == c/dc`, then `a/da == c/dc`.
pub proof fn lemma_frac_eq_trans(a: int, da: int, b: int, db: int, c: int, dc: int)
    requires
        a * db == b * da,
        b * dc == c * db,
        db > 0,
    ensures
        a * dc == c * da,
{
    assert(a * dc * db == c * da * db) by (nonlinear_arith)
        requires
            a * db == b * da,
            b * dc == c * db,
    ;
    assert(a * dc == c * da) by (nonlinear_arith)
        requires
            a * dc * db == c * da * db,
            db > 0,
    ;
}

/// Products of equal fractions are equal.
pub proof fn lemma_frac_mul_congr(a: int, da: int, b: int, db: int, c: int, dc: int, d: int, dd: int)
    requires
        a * db == b * da,
        c * dd == d * dc,
    ensures
        (a * c) * (db * dd) == (b * d) * (da * dc),
{
    assert((a * c) * (db * dd) == (a * db) * (c * dd)) by (nonlinear_arith);
    assert((b * d) * (da * dc) == (b * da) * (d * dc)) by (nonlinear_arith);
}

/// Comparisons carry over between equal fractions with positive denominators.
pub proof fn lemma_frac_lt_congr(a: int, da: int, x: int, dx: int, b: int, db: int, y: int, dy: int)
    requires
        a * dx == x * da,
        b * dy == y * db,
        da > 0,
        db > 0,
        dx > 0,
        dy > 0,
    ensures
        (a * db < b * da) == (x * dy < y * dx),
        (a * db <= b * da) == (x * dy <= y * dx),
{
    assert((a * db) * (dx * dy) == (x * dy) * (da * db)) by (nonlinear_arith)
        requires
            a * dx == x * da,
    ;
    assert((b * da) * (dx * dy) == (y * dx) * (da * db)) by (nonlinear_arith)
        requires
            b * dy == y * db,
    ;
    assert(dx * dy > 0 && da * db > 0) by (nonlinear_arith)
        requires
            da > 0,
            db > 0,
            dx > 0,
            dy > 0,
    ;
    assert((a * db < b * da) == ((a * db) * (dx * dy) < (b * da) * (dx * dy))) by (nonlinear_arith)
        requires
            dx * dy > 0,
    ;
    assert((x * dy < y * dx) == ((x * dy) * (da * db) < (y * dx) * (da * db))) by (nonlinear_arith)
        requires
            da * db > 0,
    ;
    assert((a * db <= b * da) == ((a * db) * (dx * dy) <= (b * da) * (dx * dy))) by (nonlinear_arith)
        requires
            dx * dy > 0,
    ;
    assert((x * dy <= y * dx) == ((x * dy) * (da * db) <= (y * dx) * (da * db))) by (nonlinear_arith)
        requires
            da * db > 0,
    ;
}

proof fn lemma_gcd_one(a: nat)
    ensures
        gcd(a, 1) == 1,
{
    assert(a % 1 == 0);
    assert(gcd(1, 0) == 1);
}

/// Relies on num-rational's `Ratio::new`: it reduces `n / d` to lowest terms with a
/// positive denominator; it panics only for a zero denominator or when a negation
/// leaves `i64`, which the bounds here exclude.
#[verifier::external_body]
fn ratio_new(n: i64, d: i64) -> (r: Real)
    requires
        d != 0,
        n > i64::MIN,
        d > i64::MIN,
    ensures
        r.wf(),
        r.is_frac(n as int, d as int),
        r.frac() == reduce(n as int, d as int),
{
    let q = Ratio::new(n, d);
    Real { numer: *q.numer(), denom: *q.denom() }
}

/// Relies on num-rational's `CheckedAdd` for `Ratio<i64>`: the sum in lowest terms
/// (built with `Ratio::new` over the least common denominator); `None` only when the
/// common denominator, a scaled numerator or their sum leaves `i64`.
#[verifier::external_body]
fn ratio_checked_add(x: &Real, y: &Real) -> (r: Option<Real>)
    requires
        x.den() > 0,
        y.den() > 0,
    ensures
        r matches Some(s) ==> s.wf() && s.is_sum(*x, *y) && s.frac() == sum_of(x.frac(), y.frac()),
        Real::add_fits(*x, *y) ==> r is Some,
{
    let a = Ratio::new_raw(x.numer, x.denom);
    let b = Ratio::new_raw(y.numer, y.denom);
    a.checked_add(&b).map(|q| Real { numer: *q.numer(), denom: *q.denom() })
}

/// Relies on num-rational's `CheckedSub` for `Ratio<i64>`: the difference in lowest
/// terms (built as for `checked_add`); `None` only when the common denominator, a
/// scaled numerator or their difference leaves `i64`.
#[verifier::external_body]
fn ratio_checked_sub(x: &Real, y: &Real) -> (r: Option<Real>)
    requires
        x.den() > 0,
        y.den() > 0,
    ensures
        r matches Some(s) ==> s.wf() && s.is_diff(*x, *y) && s.frac() == diff_of(x.frac(), y.frac()),
        Real::add_fits(*x, *y) ==> r is Some,
{
    let a = Ratio::new_raw(x.numer, x.denom);
    let b = Ratio::new_raw(y.numer, y.denom);
    a.checked_sub(&b).map(|q| Real { numer: *q.numer(), denom: *q.denom() })
}

/// Relies on num-rational's `CheckedMul` for `Ratio<i64>`: the product in lowest terms
/// (cross-cancelled, then `Ratio::new`); `None` only when a cancelled product leaves `i64`.
#[verifier::external_body]
fn ratio_checked_mul(x: &Real, y: &Real) -> (r: Option<Real>)
    requires
        x.den() > 0,
        y.den() > 0,
    ensures
        r matches Some(s) ==> s.wf() && s.is_prod(*x, *y) && s.frac() == prod_of(x.frac(), y.frac()),
        Real::mul_fits(*x, *y) ==> r is Some,
{
    let a = Ratio::new_raw(x.numer, x.denom);
    let b = Ratio::new_raw(y.numer, y.denom);
    a.checked_mul(&b).map(|q| Real { numer: *q.numer(), denom: *q.denom() })
}

/// Relies on num-rational's `CheckedDiv` for `Ratio<i64>`: for a non-zero divisor the
/// quotient in lowest terms with a positive denominator (its own reduction, with checked
/// sign changes); `None` only when a cancelled product or a sign change leaves `i64`.
#[verifier::external_body]
fn ratio_checked_div(x: &Real, y: &Real) -> (r: Option<Real>)
    requires
        x.den() > 0,
        y.den() > 0,
        y.num() != 0,
        y.num() != i64::MIN,
    ensures
        r matches Some(s) ==> s.wf() && s.is_quot(*x, *y) && s.frac() == quot_of(x.frac(), y.frac()),
        Real::div_fits(*x, *y) ==> r is Some,
{
    let a = Ratio::new_raw(x.numer, x.denom);
    let b = Ratio::new_raw(y.numer, y.denom);
    a.checked_div(&b).map(|q| Real { numer: *q.numer(), denom: *q.denom() })
}

/// Relies on num-rational's `PartialOrd` for `Ratio<i64>` (through its exact `Ord::cmp`).
#[verifier::external_body]
fn ratio_lt(x: &Real, y: &Real) -> (r: bool)
    requires
        x.den() > 0,
        y.den() > 0,
    ensures
        r == x.lt(*y),
{
    Ratio::new_raw(x.numer, x.denom) < Ratio::new_raw(y.numer, y.denom)
}

/// Relies on min_max's `max` (`if a > b { a } else { b }`) over `Ratio<i64>`'s order.
#[verifier::external_body]
fn ratio_max(x: &Real, y: &Real) -> (r: Real)
    requires
        x.den() > 0,
        y.den() > 0,
    ensures
        r == (if y.lt(*x) { *x } else { *y }),
{
    let m = min_max::max(Ratio::new_raw(x.numer, x.denom), Ratio::new_raw(y.numer, y.denom));
    Real { numer: *m.numer(), denom: *m.denom() }
}

/// Relies on min_max's `min` (`if a < b { a } else { b }`) over `Ratio<i64>`'s order.
#[verifier::external_body]
fn ratio_min(x: &Real, y: &Real) -> (r: Real)
    requires
        x.den() > 0,
        y.den() > 0,
    ensures
        r == (if x.lt(*y) { *x } else { *y }),
{
    let m = min_max::min(Ratio::new_raw(x.numer, x.denom), Ratio::new_raw(y.numer, y.denom));
    Real { numer: *m.numer(), denom: *m.denom() }
}

/// Relies on num-rational's `Ratio::floor` and `to_integer`: the greatest integer not
/// above the value; for a negative value it computes `numer - denom`, then adds one,
/// kept in range here.
#[verifier::external_body]
fn ratio_floor(x: &Real) -> (r: i64)
    requires
        x.den() > 0,
        x.num() < 0 ==> x.num() - x.den() >= i64::MIN,
    ensures
        r * x.den() <= x.num() < (r + 1) * x.den(),
{
    Ratio::new_raw(x.numer, x.denom).floor().to_integer()
}

/// Relies on num-rational's `Ratio::ceil` and `to_integer`: the least integer not below
/// the value; for a non-negative value it computes `numer + denom`, then subtracts one,
/// kept in range here.
#[verifier::external_body]
fn ratio_ceil(x: &Real) -> (r: i64)
    requires
        x.den() > 0,
        x.num() >= 0 ==> x.num() + x.den() <= i64::MAX,
    ensures
        (r - 1) * x.den() < x.num() <= r * x.den(),
{
    Ratio::new_raw(x.numer, x.denom).ceil().to_integer()
}

/// Relies on num-integer's `Integer::gcd` for `i64` (Stein's algorithm): the
/// non-negative greatest common divisor; `i64::MIN` is kept out, where it may panic.
#[verifier::external_body]
fn int_gcd(a: i64, b: i64) -> (r: i64)
    requires
        a > i64::MIN,
        b > i64::MIN,
    ensures
        r as int == gcd(abs(a as int), abs(b as int)),
{
    num::Integer::gcd(&a, &b)
}

/// Whether `a` and `b` have no common divisor but one; `None` for `i64::MIN`.
pub fn coprime(a: i64, b: i64) -> (r: Option<bool>)
    ensures
        r is Some <==> (a > i64::MIN && b > i64::MIN),
        r matches Some(c) ==> c == (gcd(abs(a as int), abs(b as int)) == 1),
{
    if a == i64::MIN || b == i64::MIN {
        None
    } else {
        Some(int_gcd(a, b) == 1)
    }
}

impl Real {
    /// The integer `n`.
    pub fn from_int(n: i64) -> (r: Real)
        ensures
            r.wf(),
            r.num() == n,
            r.den() == 1,
    {
        proof {
            lemma_gcd_one(abs(n as int));
        }
        Real { numer: n, denom: 1 }
    }

    pub fn zero() -> (r: Real)
        ensures
            r.wf(),
            r.num() == 0,
            r.den() == 1,
    {
        Real::from_int(0)
    }

    pub fn one() -> (r: Real)
        ensures
            r.wf(),
            r.num() == 1,
            r.den() == 1,
    {
        Real::from_int(1)
    }

    /// The fraction `n / d` in lowest terms, for a non-zero denominator.
    pub fn new(n: i64, d: i64) -> (r: Real)
        requires
            d != 0,
            n > i64::MIN,
            d > i64::MIN,
        ensures
            r.wf(),
            r.is_frac(n as int, d as int),
            r.frac() == reduce(n as int, d as int),
    {
        ratio_new(n, d)
    }

    /// The fraction `n / d` in lowest terms.
    pub fn from_pair(n: i64, d: i64) -> (r: Result<Real, ArithError>)
        ensures
            d == 0 <==> r == Err::<Real, ArithError>(ArithError::DivisionByZero),
            r is Ok <==> (d != 0 && n > i64::MIN && d > i64::MIN),
            r matches Ok(x) ==> x.wf() && x.is_frac(n as int, d as int),
            r matches Err(e) ==> (e == ArithError::DivisionByZero || e == ArithError::Overflow),
    {
        if d == 0 {
            Err(ArithError::DivisionByZero)
        } else if n == i64::MIN || d == i64::MIN {
            Err(ArithError::Overflow)
        } else {
            Ok(Real::new(n, d))
        }
    }

    pub fn numer(&self) -> (r: i64)
        ensures
            r == self.num(),
    {
        self.numer
    }

    pub fn denom(&self) -> (r: i64)
        ensures
            r == self.den(),
    {
        self.denom
    }

    /// Whether the value is a whole number.
    pub fn is_integer(&self) -> (r: bool)
        ensures
            r == (self.den() == 1),
    {
        self.denom == 1
    }

    /// `self + o`.
    pub fn add(&self, o: &Real) -> (r: Result<Real, ArithError>)
        requires
            self.wf(),
            o.wf(),
        ensures
            r matches Ok(s) ==> s.wf() && s.is_sum(*self, *o) && s.frac() == sum_of(self.frac(), o.frac()),
            r matches Err(e) ==> e == ArithError::Overflow,
            Real::add_fits(*self, *o) ==> r is Ok,
    {
        match ratio_checked_add(self, o) {
            Some(s) => Ok(s),
            None => Err(ArithError::Overflow),
        }
    }

    /// `self - o`.
    pub fn sub(&self, o: &Real) -> (r: Result<Real, ArithError>)
        requires
            self.wf(),
            o.wf(),
        ensures
            r matches Ok(s) ==> s.wf() && s.is_diff(*self, *o) && s.frac() == diff_of(self.frac(), o.frac()),
            r matches Err(e) ==> e == ArithError::Overflow,
            Real::add_fits(*self, *o) ==> r is Ok,
    {
        match ratio_checked_sub(self, o) {
            Some(s) => Ok(s),
            None => Err(ArithError::Overflow),
        }
    }

    /// `self * o`.
    pub fn mul(&self, o: &Real) -> (r: Result<Real, ArithError>)
        requires
            self.wf(),
            o.wf(),
        ensures
            r matches Ok(s) ==> s.wf() && s.is_prod(*self, *o) && s.frac() == prod_of(self.frac(), o.frac()),
            r matches Err(e) ==> e == ArithError::Overflow,
            Real::mul_fits(*self, *o) ==> r is Ok,
    {
        match ratio_checked_mul(self, o) {
            Some(s) => Ok(s),
            None => Err(ArithError::Overflow),
        }
    }

    /// `self / o`; dividing by zero is an error.
    pub fn div(&self, o: &Real) -> (r: Result<Real, ArithError>)
        requires
            self.wf(),
            o.wf(),
        ensures
            o.num() == 0 <==> r == Err::<Real, ArithError>(ArithError::DivisionByZero),
            r matches Ok(s) ==> s.wf() && s.is_quot(*self, *o) && s.frac() == quot_of(self.frac(), o.frac()),
            r matches Err(e) ==> (e == ArithError::DivisionByZero || e == ArithError::Overflow),
            o.num() != 0 && Real::div_fits(*self, *o) ==> r is Ok,
    {
        if o.numer == 0 {
            Err(ArithError::DivisionByZero)
        } else if o.numer == i64::MIN {
            proof {
                let (d, m) = (self.den(), o.num());
                assert(abs(d * m) > i64::MAX) by (nonlinear_arith)
                    requires
                        d >= 1,
                        m == i64::MIN,
                        abs(d * m) == if d * m < 0 { -(d * m) } else { d * m },
                ;
            }
            Err(ArithError::Overflow)
        } else {
            match ratio_checked_div(self, o) {
                Some(s) => Ok(s),
                None => Err(ArithError::Overflow),
            }
        }
    }

    /// `self < o`.
    pub fn is_less_than(&self, o: &Real) -> (r: bool)
        requires
            self.wf(),
            o.wf(),
        ensures
            r == self.lt(*o),
    {
        ratio_lt(self, o)
    }

    /// The larger of the two; `o` when they are equal.
    pub fn max(&self, o: &Real) -> (r: Real)
        requires
            self.wf(),
            o.wf(),
        ensures
            r == self.max_of(*o),
    {
        ratio_max(self, o)
    }

    /// The smaller of the two; `o` when they are equal.
    pub fn min(&self, o: &Real) -> (r: Real)
        requires
            self.wf(),
            o.wf(),
        ensures
            r == self.min_of(*o),
    {
        ratio_min(self, o)
    }

    /// The greatest integer not above the value.
    pub fn floor(&self) -> (r: Result<i64, ArithError>)
        requires
            self.wf(),
        ensures
            r matches Ok(k) ==> k * self.den() <= self.num() < (k + 1) * self.den(),
            r is Err <==> self.num() - self.den() < i64::MIN,
            r matches Err(e) ==> e == ArithError::Overflow,
    {
        if self.numer < 0 && self.numer < i64::MIN + self.denom {
            Err(ArithError::Overflow)
        } else {
            Ok(ratio_floor(self))
        }
    }

    /// The least integer not below the value.
    pub fn ceil(&self) -> (r: Result<i64, ArithError>)
        requires
            self.wf(),
        ensures
            r matches Ok(k) ==> (k - 1) * self.den() < self.num() <= k * self.den(),
            r is Err <==> self.num() + self.den() > i64::MAX,
            r matches Err(e) ==> e == ArithError::Overflow,
    {
        if self.numer >= 0 && self.numer > i64::MAX - self.denom {
            Err(ArithError::Overflow)
        } else {
            Ok(ratio_ceil(self))
        }
    }
}

} // verus!
