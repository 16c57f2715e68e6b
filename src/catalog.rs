//! The units that distances are read in and written in.

use crate::fraction::{lemma_frac_lt_congr, Real};
use crate::overlap::fle;
use crate::unit::Unit;
use vstd::prelude::*;

verus! {

/// The fraction `n / d` for a positive denominator.
fn fraction(n: i64, d: i64) -> (r: Real)
    requires
        d > 0,
        n > i64::MIN,
    ensures
        r.wf(),
        r.is_frac(n as int, d as int),
        n > 0 ==> r.num() > 0,
{
    let x = Real::new(n, d);
    proof {
        if n > 0 {
            assert(x.num() > 0) by (nonlinear_arith)
                requires
                    x.num() * d == n * x.den(),
                    n > 0,
                    d > 0,
                    x.den() > 0,
            ;
        }
    }
    x
}

/// The unit `count × base` named `name`, for positive fractions.
fn unit_of(name: &str, count: (i64, i64), base: (i64, i64)) -> (r: Unit)
    requires
        count.0 > 0,
        count.1 > 0,
        base.0 > 0,
        base.1 > 0,
    ensures
        r.wf(),
        r.name_view() == name@,
        r.many().is_frac(count.0 as int, count.1 as int),
        r.base_size().is_frac(base.0 as int, base.1 as int),
{
    let c = fraction(count.0, count.1);
    let b = fraction(base.0, base.1);
    proof {
        assert(c.num() * b.num() > 0) by (nonlinear_arith)
            requires
                c.num() > 0,
                b.num() > 0,
        ;
    }
    Unit::new(name, &c, &b)
}

/// One mile, in kilometres, as numerator and denominator.
pub const MILE_NUMER: i64 = 1609344;

pub const MILE_DENOM: i64 = 1000000;

/// Units that input distances are counted in.
#[derive(Clone, Copy, Debug, PartialEq, Eq, Structural)]
pub enum UnitIn {
    Kms(),
    TenthKms(),
}

impl UnitIn {
    /// How many kilometres one of this unit holds.
    pub open spec fn count_frac(self) -> (int, int) {
        match self {
            UnitIn::Kms() => (1, 1),
            UnitIn::TenthKms() => (1, 10),
        }
    }

    /// The unit: a whole or a tenth of a kilometre.
    pub fn unit(&self) -> (r: Unit)
        ensures
            r.wf(),
            r.many().is_frac(self.count_frac().0, self.count_frac().1),
            r.base_size().is_frac(1, 1),
            r.name_view() == (match self {
                UnitIn::Kms() => "kms"@,
                UnitIn::TenthKms() => "tenth-km"@
            }),
    {
        match self {
            UnitIn::Kms() => unit_of("kms", (1, 1), (1, 1)),
            UnitIn::TenthKms() => unit_of("tenth-km", (1, 10), (1, 1)),
        }
    }
}

/// Units that input distances are counted in.
#[derive(Clone, Copy, Debug, PartialEq, Eq, Structural)]
pub enum InputUnit {
    Kms(),
    TenthKms(),
}

impl InputUnit {
    /// How many kilometres one of this unit holds.
    pub open spec fn count_frac(self) -> (int, int) {
        match self {
            InputUnit::Kms() => (1, 1),
            InputUnit::TenthKms() => (1, 10),
        }
    }

    /// The unit: a whole or a tenth of a kilometre.
    pub fn unit(&self) -> (r: Unit)
        ensures
            r.wf(),
            r.many().is_frac(self.count_frac().0, self.count_frac().1),
            r.base_size().is_frac(1, 1),
            r.name_view() == (match self {
                InputUnit::Kms() => "kms"@,
                InputUnit::TenthKms() => "tenth-km"@
            }),
    {
        match self {
            InputUnit::Kms() => unit_of("kms", (1, 1), (1, 1)),
            InputUnit::TenthKms() => unit_of("tenth-km", (1, 10), (1, 1)),
        }
    }
}

/// Units that answers are given in: a mile and its halves, quarters and eighths.
#[derive(Clone, Copy, Debug, PartialEq, Eq, Structural)]
pub enum OutputUnit {
    Mile(),
    HalfMile(),
    QuarterMile(),
    EighthMile(),
}

impl OutputUnit {
    /// How many miles one of this unit holds.
    pub open spec fn count_frac(self) -> (int, int) {
        match self {
            OutputUnit::Mile() => (1, 1),
            OutputUnit::HalfMile() => (1, 2),
            OutputUnit::QuarterMile() => (1, 4),
            OutputUnit::EighthMile() => (1, 8),
        }
    }

    /// The unit, measured in miles of 1.609344 km.
    pub fn unit(&self) -> (r: Unit)
        ensures
            r.wf(),
            r.many().is_frac(self.count_frac().0, self.count_frac().1),
            r.base_size().is_frac(MILE_NUMER as int, MILE_DENOM as int),
            r.name_view() == (match self {
                OutputUnit::Mile() => "mile"@,
                OutputUnit::HalfMile() => "half-mile"@,
                OutputUnit::QuarterMile() => "quarter-mile"@,
                OutputUnit::EighthMile() => "eighth-mile"@,
            }),
    {
        let mile = (MILE_NUMER, MILE_DENOM);
        match self {
            OutputUnit::Mile() => unit_of("mile", (1, 1), mile),
            OutputUnit::HalfMile() => unit_of("half-mile", (1, 2), mile),
            OutputUnit::QuarterMile() => unit_of("quarter-mile", (1, 4), mile),
            OutputUnit::EighthMile() => unit_of("eighth-mile", (1, 8), mile),
        }
    }
}

/// Every output unit, in declaration order.
pub open spec fn output_units() -> Seq<OutputUnit> {
    seq![OutputUnit::Mile(), OutputUnit::HalfMile(), OutputUnit::QuarterMile(), OutputUnit::EighthMile()]
}

/// Every output unit, in declaration order; each is a mile or a unit fraction of one.
pub fn all_units_out() -> (r: Vec<OutputUnit>)
    ensures
        r@ == output_units(),
{
    let r = vec![OutputUnit::Mile(), OutputUnit::HalfMile(), OutputUnit::QuarterMile(), OutputUnit::EighthMile()];
    assert(r@ == output_units());
    r
}

/// `n / d` with a positive denominator.
pub open spec fn signed_frac(n: int, d: int) -> (int, int) {
    if d < 0 {
        (-n, -d)
    } else {
        (n, d)
    }
}

/// Whether an output unit holds at least `n / d` of a mile.
pub open spec fn at_least(n: int, d: int) -> spec_fn(OutputUnit) -> bool {
    |o: OutputUnit| fle(signed_frac(n, d), o.count_frac())
}

/// The output units of at least `fraction.0 / fraction.1` of a mile each, in declaration
/// order.
pub fn no_less_than(fraction: (i64, i64)) -> (r: Vec<OutputUnit>)
    requires
        fraction.1 != 0,
        fraction.0 > i64::MIN,
        fraction.1 > i64::MIN,
    ensures
        r@ == output_units().filter(at_least(fraction.0 as int, fraction.1 as int)),
{
    let least = Real::new(fraction.0, fraction.1);
    let all = all_units_out();
    assert(all@ == output_units());
    let mut r: Vec<OutputUnit> = Vec::new();
    let mut i: usize = 0;
    while i < all.len()
        invariant
            0 <= i <= all@.len(),
            least.wf(),
            least.is_frac(fraction.0 as int, fraction.1 as int),
            fraction.1 != 0,
            r@ == all@.subrange(0, i as int).filter(at_least(fraction.0 as int, fraction.1 as int)),
        decreases all@.len() - i,
    {
        let o = all[i];
        let u = o.unit();
        let below = u.count().is_less_than(&least);
        proof {
            reveal(Seq::filter);
            assert(all@.subrange(0, i as int + 1).drop_last() == all@.subrange(0, i as int));
            let s = signed_frac(fraction.0 as int, fraction.1 as int);
            let (a, b) = (fraction.0 as int, fraction.1 as int);
            assert(least.num() * s.1 == s.0 * least.den()) by (nonlinear_arith)
                requires
                    least.num() * b == a * least.den(),
                    s == signed_frac(a, b),
            ;
            lemma_frac_lt_congr(
                u.many().num(), u.many().den(), o.count_frac().0, o.count_frac().1,
                least.num(), least.den(), s.0, s.1,
            );
            let cf = o.count_frac();
            assert(below == (u.many().num() * least.den() < least.num() * u.many().den()));
            assert(below == (cf.0 * s.1 < s.0 * cf.1));
            assert(at_least(a, b)(o) == !below);
            assert(all@.subrange(0, i as int + 1).last() == o);
        }
        if !below {
            r.push(o);
        }
        i = i + 1;
    }
    proof {
        assert(all@.subrange(0, all@.len() as int) == all@);
    }
    r
}

} // verus!
