use distance::approximation::{Answer, Approximation};
use distance::catalog::{all_units_out, no_less_than, InputUnit, OutputUnit, UnitIn};
use distance::fraction::{coprime, ArithError, Real};
use distance::interval::RealInterval;
use distance::overlap::overlap_of;
use distance::rounding::Rounding;
use distance::search::{better_of, find_best_answer, overlap_fraction};
use distance::unit::Unit;

fn frac(n: i64, d: i64) -> Real {
    Real::from_pair(n, d).unwrap()
}

fn parts(x: &Real) -> (i64, i64) {
    (x.numer(), x.denom())
}

fn interval(lo: (i64, i64), hi: (i64, i64)) -> RealInterval {
    RealInterval::new(&frac(lo.0, lo.1), &frac(hi.0, hi.1))
}

fn tenth_km_input(count: i64) -> Approximation {
    Approximation::new(count, &UnitIn::TenthKms().unit(), Rounding::Truncated)
}

#[test]
fn sum_is_exact_and_reduced() {
    let s = frac(1, 3).add(&frac(1, 6)).unwrap();
    assert_eq!(parts(&s), (1, 2));
    let s = frac(2, 7).add(&frac(-3, 5)).unwrap();
    assert_eq!(parts(&s), (-11, 35));
    let s = frac(1, 2).add(&frac(1, 2)).unwrap();
    assert_eq!(parts(&s), (1, 1));
}

#[test]
fn difference_product_quotient() {
    assert_eq!(parts(&frac(3, 4).sub(&frac(1, 4)).unwrap()), (1, 2));
    assert_eq!(parts(&frac(2, 3).mul(&frac(9, 4)).unwrap()), (3, 2));
    assert_eq!(parts(&frac(2, 3).div(&frac(-4, 9)).unwrap()), (-3, 2));
}

#[test]
fn construction_normalizes() {
    assert_eq!(frac(2, 4), frac(1, 2));
    assert_eq!(parts(&frac(2, 4)), (1, 2));
    assert_eq!(parts(&frac(-2, -4)), (1, 2));
    assert_eq!(parts(&frac(3, -6)), (-1, 2));
    assert_eq!(parts(&frac(0, -5)), (0, 1));
    assert_eq!(parts(&Real::from_int(7)), (7, 1));
}

#[test]
fn division_by_zero_is_an_error() {
    assert_eq!(Real::from_pair(1, 0), Err(ArithError::DivisionByZero));
    assert_eq!(frac(1, 2).div(&Real::zero()), Err(ArithError::DivisionByZero));
    let i = interval((0, 1), (1, 1));
    assert_eq!(i.div(&Real::zero()), Err(ArithError::DivisionByZero));
}

#[test]
fn overflow_is_reported() {
    assert_eq!(Real::from_pair(i64::MIN, 1), Err(ArithError::Overflow));
    let big = Real::from_int(i64::MAX);
    assert_eq!(big.add(&big), Err(ArithError::Overflow));
    assert_eq!(big.mul(&Real::from_int(2)), Err(ArithError::Overflow));
    assert_eq!(coprime(i64::MIN, 3), None);
}

#[test]
fn comparison_is_exact() {
    assert!(frac(1, 3).is_less_than(&frac(34, 100)));
    assert!(!frac(34, 100).is_less_than(&frac(1, 3)));
    assert!(!frac(1, 2).is_less_than(&frac(2, 4)));
    assert_eq!(frac(1, 3).max(&frac(1, 4)), frac(1, 3));
    assert_eq!(frac(1, 3).min(&frac(1, 4)), frac(1, 4));
}

#[test]
fn floor_and_ceil() {
    assert_eq!(frac(7, 2).floor(), Ok(3));
    assert_eq!(frac(7, 2).ceil(), Ok(4));
    assert_eq!(frac(-7, 2).floor(), Ok(-4));
    assert_eq!(frac(-7, 2).ceil(), Ok(-3));
    assert_eq!(Real::from_int(5).floor(), Ok(5));
    assert_eq!(Real::from_int(5).ceil(), Ok(5));
    assert!(frac(4, 2).is_integer());
    assert!(!frac(3, 2).is_integer());
}

#[test]
fn gcd_test() {
    assert_eq!(coprime(8, 3), Some(true));
    assert_eq!(coprime(8, 6), Some(false));
    assert_eq!(coprime(2, -3), Some(true));
}

#[test]
fn interval_size_and_shift() {
    let i = interval((1, 2), (7, 4));
    assert_eq!(parts(&i.size().unwrap()), (5, 4));
    let j = i.add_int(2).unwrap();
    assert_eq!((parts(&j.0), parts(&j.1)), ((5, 2), (15, 4)));
    let k = i.mul(&frac(2, 1)).unwrap();
    assert_eq!((parts(&k.0), parts(&k.1)), ((1, 1), (7, 2)));
    let d = i.div(&frac(1, 2)).unwrap();
    assert_eq!((parts(&d.0), parts(&d.1)), ((1, 1), (7, 2)));
    let z = interval((3, 1), (3, 1));
    assert_eq!(parts(&z.size().unwrap()), (0, 1));
}

#[test]
fn interval_subtraction_combines_opposite_ends() {
    let a = interval((1, 1), (3, 1));
    let b = interval((0, 1), (1, 2));
    let d = a.sub(&b).unwrap();
    assert_eq!((parts(&d.0), parts(&d.1)), ((1, 2), (3, 1)));
}

#[test]
fn intersection_overlapping_and_disjoint() {
    let a = interval((0, 1), (2, 1));
    let b = interval((1, 1), (3, 1));
    let m = a.intersection_with(&b);
    assert_eq!((parts(&m.0), parts(&m.1)), ((1, 1), (2, 1)));
    let c = interval((5, 1), (6, 1));
    let e = a.intersection_with(&c);
    assert_eq!((parts(&e.0), parts(&e.1)), ((5, 1), (5, 1)));
    assert_eq!(parts(&e.size().unwrap()), (0, 1));
}

#[test]
fn rounding_offsets() {
    let t = Rounding::Truncated.offsets();
    assert_eq!((parts(&t.0), parts(&t.1)), ((0, 1), (1, 1)));
    let w = Rounding::WillRound.offsets();
    assert_eq!((parts(&w.0), parts(&w.1)), ((-1, 2), (1, 2)));
}

#[test]
fn catalog_units() {
    let mile = OutputUnit::Mile().unit();
    assert_eq!(mile.name(), "mile");
    assert_eq!(parts(mile.count()), (1, 1));
    assert_eq!(parts(mile.base()), (25146, 15625));
    assert_eq!(parts(&mile.distance().unwrap()), (25146, 15625));
    let eighth = OutputUnit::EighthMile().unit();
    assert_eq!(eighth.name(), "eighth-mile");
    assert_eq!(parts(&eighth.distance().unwrap()), (12573, 62500));
    let tenth = InputUnit::TenthKms().unit();
    assert_eq!(tenth.name(), "tenth-km");
    assert_eq!(parts(tenth.count()), (1, 10));
    assert_eq!(UnitIn::Kms().unit().name(), "kms");
}

#[test]
fn output_unit_lists() {
    let all = all_units_out();
    assert_eq!(
        all,
        vec![OutputUnit::Mile(), OutputUnit::HalfMile(), OutputUnit::QuarterMile(), OutputUnit::EighthMile()]
    );
    assert_eq!(no_less_than((1, 8)), all);
    assert_eq!(no_less_than((1, 4)), vec![OutputUnit::Mile(), OutputUnit::HalfMile(), OutputUnit::QuarterMile()]);
    assert_eq!(no_less_than((1, 2)), vec![OutputUnit::Mile(), OutputUnit::HalfMile()]);
    assert_eq!(no_less_than((2, 1)), vec![]);
    assert_eq!(no_less_than((-1, -2)), vec![OutputUnit::Mile(), OutputUnit::HalfMile()]);
}

#[test]
fn approximation_values() {
    let a = tenth_km_input(15);
    assert_eq!(a.count(), 15);
    assert_eq!(a.rounding(), Rounding::Truncated);
    assert_eq!(a.unit().name(), "tenth-km");
    assert_eq!(parts(&a.many().unwrap()), (3, 2));
    assert_eq!(parts(&a.distance().unwrap()), (3, 2));
    let i = a.interval().unwrap();
    assert_eq!((parts(&i.0), parts(&i.1)), ((3, 2), (8, 5)));
    let m = Approximation::new(1, &OutputUnit::Mile().unit(), Rounding::WillRound);
    let j = m.interval().unwrap();
    assert_eq!((parts(&j.0), parts(&j.1)), ((12573, 15625), (37719, 15625)));
}

#[test]
fn count_range_for_a_mile() {
    let input = tenth_km_input(15).interval().unwrap();
    let mile = OutputUnit::Mile().unit();
    assert_eq!(mile.count_range(&input, Rounding::WillRound), Ok((1, 1)));
    let half = OutputUnit::HalfMile().unit();
    let narrow = tenth_km_input(16).interval().unwrap();
    assert_eq!(half.count_range(&narrow, Rounding::WillRound), Ok((2, 2)));
    let eighth = OutputUnit::EighthMile().unit();
    assert_eq!(eighth.count_range(&input, Rounding::Truncated), Ok((7, 7)));
}

#[test]
fn count_range_is_sound_and_complete_on_examples() {
    let input = tenth_km_input(15).interval().unwrap();
    for unit in all_units_out() {
        let u = unit.unit();
        for rounding in [Rounding::Truncated, Rounding::WillRound] {
            let (first, last) = u.count_range(&input, rounding).unwrap();
            for n in (first - 3)..=(last + 3) {
                let span = Approximation::new(n, &u, rounding).interval().unwrap();
                let meets = !input.1.is_less_than(&span.0) && !span.1.is_less_than(&input.0);
                assert_eq!(meets, first <= n && n <= last);
            }
        }
    }
}

#[test]
fn overlap_bounds_and_identity() {
    let a = interval((0, 1), (1, 1));
    let b = interval((1, 2), (3, 1));
    let o = overlap_of(&a, &b).unwrap();
    assert_eq!(parts(&o), (1, 5));
    assert_eq!(parts(&overlap_of(&a, &a).unwrap()), (1, 1));
    let c = interval((2, 1), (3, 1));
    assert_eq!(parts(&overlap_of(&a, &c).unwrap()), (0, 1));
    let inner = interval((1, 4), (1, 2));
    assert_eq!(parts(&overlap_of(&a, &inner).unwrap()), (1, 4));
}

#[test]
fn end_to_end_tenth_km_to_mile() {
    let input = tenth_km_input(15);
    let best = find_best_answer(&input, &vec![OutputUnit::Mile().unit()]).unwrap().unwrap();
    assert_eq!(best.input.count(), 15);
    assert_eq!(best.output.count(), 1);
    assert_eq!(best.output.unit().name(), "mile");
    assert_eq!(best.output.rounding(), Rounding::WillRound);
    assert_eq!(parts(&overlap_fraction(&best).unwrap()), (3125, 50292));
}

#[test]
fn no_answer_when_every_count_is_filtered() {
    let input = tenth_km_input(16);
    let result = find_best_answer(&input, &vec![OutputUnit::HalfMile().unit()]).unwrap();
    assert!(result.is_none());
    let none = find_best_answer(&input, &vec![]).unwrap();
    assert!(none.is_none());
}

#[test]
fn search_skips_counts_not_in_lowest_terms() {
    // Two half-miles, four quarter-miles and eight eighth-miles would fit best, but
    // each is a whole mile in disguise; a mile beats seven eighth-miles.
    let input = tenth_km_input(15);
    let units: Vec<Unit> = all_units_out().iter().map(|o| o.unit()).collect();
    let best = find_best_answer(&input, &units).unwrap().unwrap();
    assert_eq!(best.output.unit().name(), "mile");
    assert_eq!(best.output.count(), 1);
}

#[test]
fn search_is_deterministic() {
    let input = tenth_km_input(23);
    let units: Vec<Unit> = all_units_out().iter().map(|o| o.unit()).collect();
    let a = find_best_answer(&input, &units).unwrap().unwrap();
    let b = find_best_answer(&input, &units).unwrap().unwrap();
    assert_eq!(a.output.count(), b.output.count());
    assert_eq!(a.output.unit().name(), b.output.unit().name());
    assert_eq!(overlap_fraction(&a), overlap_fraction(&b));
}

#[test]
fn better_of_prefers_higher_overlap() {
    let input = tenth_km_input(15);
    let mile = OutputUnit::Mile().unit();
    let eighth = OutputUnit::EighthMile().unit();
    let worse = Answer::new(&input, &Approximation::new(7, &eighth, Rounding::WillRound));
    let better = Answer::new(&input, &Approximation::new(1, &mile, Rounding::WillRound));
    assert_eq!(parts(&overlap_fraction(&worse).unwrap()), (365, 8382));
    let kept = better_of(Some(worse), Some(better)).unwrap().unwrap();
    assert_eq!(kept.output.unit().name(), "mile");
    let only = better_of(None, Some(Answer::new(&input, &Approximation::new(1, &mile, Rounding::WillRound))));
    assert_eq!(only.unwrap().unwrap().output.count(), 1);
    assert!(better_of(None, None).unwrap().is_none());
}

#[test]
fn fraction_text() {
    assert_eq!(Real::from_int(3).to_text(), "3");
    assert_eq!(Real::from_int(-12).to_text(), "\u{2212}12");
    assert_eq!(frac(1, 2).to_text(), "\u{BD}");
    assert_eq!(frac(7, 8).to_text(), "\u{215E}");
    assert_eq!(frac(3, 2).to_text(), "1\u{2064}\u{BD}");
    assert_eq!(frac(-11, 4).to_text(), "\u{2212}2\u{2064}\u{BE}");
    assert_eq!(frac(5, 16).to_text(), "5\u{2044}16");
    assert_eq!(frac(37, 16).to_text(), "2\u{2064}5\u{2044}16");
    assert_eq!(Real::zero().to_text(), "0");
    assert_eq!(Rounding::WillRound.to_text(), "WillRound");
    assert_eq!(Rounding::Truncated.to_text(), "Truncated");
}

#[test]
fn exact_sum_of_reduced_fractions() {
    for (a, b, c, d) in [(1, 2, 1, 3), (-5, 6, 7, -10), (4, 8, 6, 12), (0, 3, 2, -4)] {
        let s = frac(a, b).add(&frac(c, d)).unwrap();
        let expected = frac(a * d + c * b, b * d);
        assert_eq!(s, expected);
    }
}

#[test]
fn interval_and_approximation_text() {
    let i = interval((3, 2), (8, 5));
    assert_eq!(i.to_text().unwrap(), "1\u{2064}\u{BD}+[0,\u{2152})");
    let a = tenth_km_input(15);
    assert_eq!(
        a.to_text().unwrap(),
        "Approximation { count: 15, unit: tenth-km, interval: 1\u{2064}\u{BD}+[0,\u{2152}), Truncated }"
    );
    let m = Approximation::new(1, &OutputUnit::Mile().unit(), Rounding::WillRound);
    let expected_m =
        "Approximation { count: 1, unit: mile, interval: 12573\u{2044}15625+[0,1\u{2064}9521\u{2044}15625), WillRound }";
    assert_eq!(m.to_text().unwrap(), expected_m);
    let answer = Answer::new(&a, &m);
    assert_eq!(
        answer.to_text().unwrap(),
        format!("Answer(input: {}, output: {})", a.to_text().unwrap(), expected_m)
    );
    let negative = Approximation::new(-2, &UnitIn::Kms().unit(), Rounding::Truncated);
    assert!(negative.to_text().unwrap().starts_with("Approximation { count: -2, unit: kms"));
}

#[test]
fn rounding_near_the_ends_of_i64_is_an_error() {
    let low = frac(i64::MIN + 1, 2);
    assert_eq!(low.floor(), Err(ArithError::Overflow));
    assert_eq!(low.ceil(), Ok(i64::MIN / 2 + 1));
    let high = frac(i64::MAX - 2, 3);
    assert_eq!(high.ceil(), Err(ArithError::Overflow));
    assert_eq!(high.floor(), Ok((i64::MAX - 2) / 3));
}

#[test]
fn dividing_by_a_minimal_numerator_is_an_error() {
    let y = Real::from_int(i64::MIN).div(&Real::from_int(3)).unwrap();
    assert_eq!(y.numer(), i64::MIN);
    assert_eq!(Real::zero().div(&y), Err(ArithError::Overflow));
}

#[test]
fn ties_between_different_answers_keep_the_first() {
    let input = tenth_km_input(15);
    let mile = OutputUnit::Mile().unit();
    let other = Unit::new("other-mile", mile.count(), mile.base());
    let first = Answer::new(&input, &Approximation::new(1, &mile, Rounding::WillRound));
    let second = Answer::new(&input, &Approximation::new(1, &other, Rounding::WillRound));
    assert_eq!(overlap_fraction(&first), overlap_fraction(&second));
    let kept = better_of(Some(first), Some(second)).unwrap().unwrap();
    assert_eq!(kept.output.unit().name(), "mile");
    let first = Answer::new(&input, &Approximation::new(1, &other, Rounding::WillRound));
    let second = Answer::new(&input, &Approximation::new(1, &mile, Rounding::WillRound));
    let kept = better_of(Some(first), Some(second)).unwrap().unwrap();
    assert_eq!(kept.output.unit().name(), "other-mile");
    let units = vec![other.duplicate(), mile.duplicate()];
    let best = find_best_answer(&input, &units).unwrap().unwrap();
    assert_eq!(best.output.unit().name(), "other-mile");
}
