//! Choosing, among the counts of the candidate units, the one whose interval best
//! overlaps the input's.

use crate::approximation::{Answer, Approximation};
use crate::fraction::{abs, coprime, gcd, lemma_frac_eq_trans, lemma_frac_lt_congr, ArithError, Real};
use crate::overlap::{
    fle, flt, lemma_frac_trans, lemma_overlap_congr, lemma_overlap_den_pos, overlap_fits, overlap_frac,
    overlap_of,
};
use crate::rounding::Rounding;
use crate::unit::{lemma_span_parts, Unit};
use vstd::prelude::*;

verus! {

/// The overlap of an answer's input and output.
pub open spec fn answer_score(a: Answer) -> (int, int) {
    overlap_frac(a.input.lo_frac(), a.input.hi_frac(), a.output.lo_frac(), a.output.hi_frac())
}

/// The overlap of `input` with `j` of `u`, to be rounded.
pub open spec fn score(input: Approximation, u: Unit, j: int) -> (int, int) {
    overlap_frac(
        input.lo_frac(),
        input.hi_frac(),
        u.span_lo(j, Rounding::WillRound),
        u.span_hi(j, Rounding::WillRound),
    )
}

/// `j` of `u` is in lowest terms: `j` shares no factor with the denominator of `u`'s count.
pub open spec fn in_lowest_terms(u: Unit, j: int) -> bool {
    gcd(abs(u.many().den()), abs(j)) == 1
}

/// `j` of the `i`-th unit is a candidate for `input`: what it stands for meets the
/// input's interval, and it is in lowest terms.
pub open spec fn is_candidate(input: Approximation, units: Seq<Unit>, i: int, j: int) -> bool {
    &&& 0 <= i < units.len()
    &&& units[i].meets(j, Rounding::WillRound, input.lo_frac(), input.hi_frac())
    &&& in_lowest_terms(units[i], j)
}

/// Candidates are visited unit by unit, and by increasing count within a unit.
pub open spec fn comes_before(i1: int, j1: int, i2: int, j2: int) -> bool {
    i1 < i2 || (i1 == i2 && j1 < j2)
}

/// The better of two optional answers: the one with the larger overlap, `x` on a tie.
pub open spec fn better_spec(x: Option<Answer>, y: Option<Answer>) -> Option<Answer> {
    match (x, y) {
        (None, _) => y,
        (_, None) => x,
        (Some(a), Some(b)) => if flt(answer_score(a), answer_score(b)) {
            y
        } else {
            x
        },
    }
}

/// Scoring an answer stays within `i64`: both intervals and their overlap.
pub open spec fn score_fits(a: Answer) -> bool {
    &&& a.input.fits()
    &&& a.output.fits()
    &&& overlap_fits(a.input.span_exact().0, a.input.span_exact().1, a.output.span_exact().0, a.output.span_exact().1)
}

/// Scoring `j` of `u`, to be rounded, against `input` stays within `i64`.
pub open spec fn candidate_fits(input: Approximation, u: Unit, j: int) -> bool {
    &&& u.span_fits(j, Rounding::WillRound)
    &&& overlap_fits(
        input.span_exact().0,
        input.span_exact().1,
        u.span_exact(j, Rounding::WillRound).0,
        u.span_exact(j, Rounding::WillRound).1,
    )
}

/// Every step of the search stays within `i64`: the input's interval, the range of
/// counts of each unit, the lowest-terms test of each count in a range, and the
/// scoring of each candidate.
pub open spec fn search_fits(input: Approximation, units: Seq<Unit>) -> bool {
    &&& input.fits()
    &&& forall|i: int|
        0 <= i < units.len() ==> #[trigger] units[i].range_fits(
            input.span_exact().0,
            input.span_exact().1,
            Rounding::WillRound,
        )
    &&& forall|i: int, j: int|
        0 <= i < units.len() && #[trigger] units[i].meets(j, Rounding::WillRound, input.lo_frac(), input.hi_frac())
            ==> j > i64::MIN
    &&& forall|i: int, j: int|
        #[trigger] is_candidate(input, units, i, j) ==> candidate_fits(input, units[i], j)
}

pub open spec fn answer_wf(a: Answer) -> bool {
    a.input.unit_spec().wf() && a.output.unit_spec().wf()
}

/// The ends of what an approximation stands for have positive denominators, and the
/// lower lies below the upper.
pub proof fn lemma_span_wf(a: Approximation)
    requires
        a.unit_spec().wf(),
    ensures
        a.lo_frac().1 > 0,
        a.hi_frac().1 > 0,
        flt(a.lo_frac(), a.hi_frac()),
{
    lemma_span_parts(a.unit_spec(), a.count_spec(), a.rounding_spec());
}

/// An answer's overlap has a positive denominator.
pub proof fn lemma_answer_score_den(a: Answer)
    requires
        answer_wf(a),
    ensures
        answer_score(a).1 > 0,
{
    lemma_span_wf(a.input);
    lemma_span_wf(a.output);
    lemma_overlap_den_pos(a.input.lo_frac(), a.input.hi_frac(), a.output.lo_frac(), a.output.hi_frac());
}

/// The overlap of an answer's input and output intervals.
pub fn overlap_fraction(answer: &Answer) -> (r: Result<Real, ArithError>)
    requires
        answer_wf(*answer),
    ensures
        r matches Ok(x) ==> x.wf() && x.frac().0 * answer_score(*answer).1 == answer_score(*answer).0 * x.den(),
        r matches Err(e) ==> e == ArithError::Overflow,
        score_fits(*answer) ==> r is Ok,
{
    let a = answer.input.interval()?;
    let b = answer.output.interval()?;
    let x = overlap_of(&a, &b)?;
    proof {
        lemma_span_wf(answer.input);
        lemma_span_wf(answer.output);
        lemma_overlap_congr(
            a.0.frac(), a.1.frac(), b.0.frac(), b.1.frac(),
            answer.input.lo_frac(), answer.input.hi_frac(), answer.output.lo_frac(), answer.output.hi_frac(),
        );
        lemma_overlap_den_pos(a.0.frac(), a.1.frac(), b.0.frac(), b.1.frac());
        let m = overlap_frac(a.0.frac(), a.1.frac(), b.0.frac(), b.1.frac());
        let s = answer_score(*answer);
        lemma_frac_eq_trans(x.num(), x.den(), m.0, m.1, s.0, s.1);
    }
    Ok(x)
}

/// The better of two optional answers, by the overlap of each one's input and output;
/// on equal overlaps the first is kept.
pub fn better_of(x: Option<Answer>, y: Option<Answer>) -> (r: Result<Option<Answer>, ArithError>)
    requires
        x matches Some(a) ==> answer_wf(a),
        y matches Some(b) ==> answer_wf(b),
    ensures
        r matches Ok(c) ==> c == better_spec(x, y),
        r matches Err(e) ==> e == ArithError::Overflow,
        x is None || y is None ==> r == Ok::<Option<Answer>, ArithError>(better_spec(x, y)),
        (x matches Some(a) ==> score_fits(a)) && (y matches Some(b) ==> score_fits(b)) ==> r is Ok,
{
    match (&x, &y) {
        (Some(a), Some(b)) => {
            let sa = overlap_fraction(a)?;
            let sb = overlap_fraction(b)?;
            let lt = sa.is_less_than(&sb);
            proof {
                lemma_answer_score_den(*a);
                lemma_answer_score_den(*b);
                lemma_frac_lt_congr(
                    sa.num(), sa.den(), answer_score(*a).0, answer_score(*a).1,
                    sb.num(), sb.den(), answer_score(*b).0, answer_score(*b).1,
                );
            }
            if lt {
                Ok(y)
            } else {
                Ok(x)
            }
        },
        (None, _) => Ok(y),
        (_, None) => Ok(x),
    }
}

/// `a` answers `input` with `j` of the `i`-th unit, to be rounded.
pub open spec fn answers_with(a: Answer, input: Approximation, units: Seq<Unit>, i: int, j: int) -> bool {
    &&& a.input.count_spec() == input.count_spec()
    &&& a.input.unit_spec().same(input.unit_spec())
    &&& a.input.rounding_spec() == input.rounding_spec()
    &&& a.output.count_spec() == j
    &&& a.output.unit_spec().same(units[i])
    &&& a.output.rounding_spec() == Rounding::WillRound
}

/// The `bi`-th unit's count `bj` scores at least as well as the `i`-th unit's count `j`,
/// and better if that one comes first.
pub open spec fn dominates(input: Approximation, units: Seq<Unit>, bi: int, bj: int, i: int, j: int) -> bool {
    &&& fle(score(input, units[i], j), score(input, units[bi], bj))
    &&& (comes_before(i, j, bi, bj) ==> flt(score(input, units[i], j), score(input, units[bi], bj)))
}

/// Every candidate before `(ci, cj)` is dominated by `(bi, bj)`.
pub open spec fn best_before(input: Approximation, units: Seq<Unit>, bi: int, bj: int, ci: int, cj: int) -> bool {
    forall|i: int, j: int|
        #![trigger is_candidate(input, units, i, j)]
        is_candidate(input, units, i, j) && comes_before(i, j, ci, cj) ==> dominates(input, units, bi, bj, i, j)
}

/// Every candidate of the first `ci` units is dominated by `(bi, bj)`.
pub open spec fn best_in_units(input: Approximation, units: Seq<Unit>, bi: int, bj: int, ci: int) -> bool {
    forall|i: int, j: int|
        #![trigger is_candidate(input, units, i, j)]
        is_candidate(input, units, i, j) && i < ci ==> dominates(input, units, bi, bj, i, j)
}

/// The `i`-th unit's count `j` is a candidate that dominates every candidate.
pub open spec fn is_best(input: Approximation, units: Seq<Unit>, i: int, j: int) -> bool {
    &&& is_candidate(input, units, i, j)
    &&& forall|i2: int, j2: int|
        #![trigger is_candidate(input, units, i2, j2)]
        is_candidate(input, units, i2, j2) ==> dominates(input, units, i, j, i2, j2)
}

/// `a` answers `input` with the best candidate.
pub open spec fn is_best_answer(a: Answer, input: Approximation, units: Seq<Unit>) -> bool {
    exists|i: int, j: int| #[trigger] is_best(input, units, i, j) && answers_with(a, input, units, i, j)
}

/// The search is deterministic: two answers that each are the best for the same input
/// and the same units, in the same order, give the same count of the same unit, rounded
/// the same way, for the same input.
pub proof fn lemma_best_answer_is_unique(a: Answer, b: Answer, input: Approximation, units: Seq<Unit>)
    requires
        input.unit_spec().wf(),
        forall|k: int| 0 <= k < units.len() ==> (#[trigger] units[k]).wf(),
        is_best_answer(a, input, units),
        is_best_answer(b, input, units),
    ensures
        a.output.count_spec() == b.output.count_spec(),
        a.output.unit_spec().same(b.output.unit_spec()),
        a.output.rounding_spec() == b.output.rounding_spec(),
        a.input.count_spec() == b.input.count_spec(),
        a.input.unit_spec().same(b.input.unit_spec()),
        a.input.rounding_spec() == b.input.rounding_spec(),
{
    let (i1, j1) = choose|i: int, j: int| #[trigger] is_best(input, units, i, j) && answers_with(a, input, units, i, j);
    let (i2, j2) = choose|i: int, j: int| #[trigger] is_best(input, units, i, j) && answers_with(b, input, units, i, j);
    lemma_best_is_unique(input, units, i1, j1, i2, j2);
}

/// At most one candidate dominates every candidate.
pub proof fn lemma_best_is_unique(input: Approximation, units: Seq<Unit>, i1: int, j1: int, i2: int, j2: int)
    requires
        input.unit_spec().wf(),
        forall|k: int| 0 <= k < units.len() ==> (#[trigger] units[k]).wf(),
        is_best(input, units, i1, j1),
        is_best(input, units, i2, j2),
    ensures
        i1 == i2,
        j1 == j2,
{
    let s1 = score(input, units[i1], j1);
    let s2 = score(input, units[i2], j2);
    lemma_score_den(input, units[i1], j1);
    lemma_score_den(input, units[i2], j2);
    assert(dominates(input, units, i1, j1, i2, j2));
    assert(dominates(input, units, i2, j2, i1, j1));
    lemma_frac_trans(s1, s2, s1);
    lemma_frac_trans(s2, s1, s2);
}

/// A candidate's score has a positive denominator.
proof fn lemma_score_den(input: Approximation, u: Unit, j: int)
    requires
        input.unit_spec().wf(),
        u.wf(),
    ensures
        score(input, u, j).1 > 0,
{
    lemma_span_wf(input);
    lemma_span_parts(u, j, Rounding::WillRound);
    lemma_overlap_den_pos(
        input.lo_frac(),
        input.hi_frac(),
        u.span_lo(j, Rounding::WillRound),
        u.span_hi(j, Rounding::WillRound),
    );
}

/// The best answer for `input` among the counts of `units`, each to be rounded: every
/// count whose interval meets the input's and that is in lowest terms for its unit is
/// scored by its overlap with the input, and the first of the highest scores wins,
/// counting unit by unit in the order given and by increasing count. `None` when no
/// count qualifies.
pub fn find_best_answer(input: &Approximation, units: &Vec<Unit>) -> (r: Result<Option<Answer>, ArithError>)
    requires
        input.unit_spec().wf(),
        forall|k: int| 0 <= k < units@.len() ==> (#[trigger] units@[k]).wf(),
    ensures
        r matches Ok(None) ==> forall|i: int, j: int| !is_candidate(*input, units@, i, j),
        r matches Ok(Some(a)) ==> is_best_answer(a, *input, units@),
        r matches Err(e) ==> e == ArithError::Overflow,
        search_fits(*input, units@) ==> r is Ok,
{
    let interval = input.interval()?;
    let mut best: Option<Answer> = None;
    let ghost mut bi: int = 0;
    let ghost mut bj: int = 0;
    let mut ui: usize = 0;
    while ui < units.len()
        invariant
            0 <= ui <= units@.len(),
            input.unit_spec().wf(),
            forall|k: int| 0 <= k < units@.len() ==> (#[trigger] units@[k]).wf(),
            interval.valid(),
            interval.0.lt(interval.1),
            interval.0.is_frac(input.lo_frac().0, input.lo_frac().1),
            interval.1.is_frac(input.hi_frac().0, input.hi_frac().1),
            interval.0.frac() == input.span_exact().0,
            interval.1.frac() == input.span_exact().1,
            best is None ==> forall|i: int, j: int|
                #![trigger is_candidate(*input, units@, i, j)]
                is_candidate(*input, units@, i, j) ==> i >= ui,
            best matches Some(a) ==> {
                &&& is_candidate(*input, units@, bi, bj)
                &&& bi < ui
                &&& answers_with(a, *input, units@, bi, bj)
                &&& best_in_units(*input, units@, bi, bj, ui as int)
            },
        decreases units@.len() - ui,
    {
        let unit = &units[ui];
        proof {
            if search_fits(*input, units@) {
                assert(units@[ui as int].range_fits(input.span_exact().0, input.span_exact().1, Rounding::WillRound));
            }
        }
        let (first, last) = unit.count_range(&interval, Rounding::WillRound)?;
        proof {
            lemma_span_wf(*input);
            assert forall|n: int| unit.meets(n, Rounding::WillRound, interval.0.frac(), interval.1.frac())
                == unit.meets(n, Rounding::WillRound, input.lo_frac(), input.hi_frac()) by {
                unit_meets_congr(*unit, n, interval.0.frac(), interval.1.frac(), input.lo_frac(), input.hi_frac());
            }
        }
        let mut k: i128 = first as i128;
        while k <= last as i128
            invariant
                first as int <= k <= last as int + 1 || (k == first && first > last),
                0 <= ui < units@.len(),
                unit == &units@[ui as int],
                input.unit_spec().wf(),
                forall|kk: int| 0 <= kk < units@.len() ==> (#[trigger] units@[kk]).wf(),
                forall|n: int| (first <= n <= last) <==> #[trigger] unit.meets(n, Rounding::WillRound, input.lo_frac(), input.hi_frac()),
                best is None ==> forall|i: int, j: int|
                    #![trigger is_candidate(*input, units@, i, j)]
                    is_candidate(*input, units@, i, j) ==> !comes_before(i, j, ui as int, k as int),
                best matches Some(a) ==> {
                    &&& is_candidate(*input, units@, bi, bj)
                    &&& comes_before(bi, bj, ui as int, k as int)
                    &&& answers_with(a, *input, units@, bi, bj)
                    &&& best_before(*input, units@, bi, bj, ui as int, k as int)
                },
            decreases last as int + 1 - k,
        {
            let j = k as i64;
            let keep = match coprime(unit.count().denom(), j) {
                Some(c) => c,
                None => {
                    proof {
                        assert(units@[ui as int].meets(j as int, Rounding::WillRound, input.lo_frac(), input.hi_frac()));
                    }
                    return Err(ArithError::Overflow);
                },
            };
            if keep {
                let output = Approximation::new(j, unit, Rounding::WillRound);
                let candidate = Answer::new(input, &output);
                proof {
                    assert(is_candidate(*input, units@, ui as int, j as int));
                }
                let ghost old_best = best;
                let ghost cand = candidate;
                proof {
                    if search_fits(*input, units@) {
                        assert(candidate_fits(*input, units@[ui as int], j as int));
                        assert(score_fits(cand));
                        if old_best is Some {
                            assert(candidate_fits(*input, units@[bi], bj));
                            assert(score_fits(old_best->Some_0));
                        }
                    }
                }
                best = better_of(best, Some(candidate))?;
                proof {
                    let (ci, cj) = (ui as int, j as int);
                    lemma_score_den(*input, units@[ci], cj);
                    assert(answer_score(cand) == score(*input, units@[ci], cj));
                    match old_best {
                        None => {
                            bi = ci;
                            bj = cj;
                            assert forall|i: int, jj: int|
                                is_candidate(*input, units@, i, jj) && comes_before(i, jj, ci, cj + 1) implies
                                dominates(*input, units@, bi, bj, i, jj) by {
                                assert(!comes_before(i, jj, ci, cj));
                            }
                        },
                        Some(a) => {
                            lemma_score_den(*input, units@[bi], bj);
                            assert(answer_score(a) == score(*input, units@[bi], bj));
                            let (obi, obj) = (bi, bj);
                            if flt(score(*input, units@[obi], obj), score(*input, units@[ci], cj)) {
                                bi = ci;
                                bj = cj;
                            }
                            assert forall|i: int, jj: int|
                                is_candidate(*input, units@, i, jj) && comes_before(i, jj, ci, cj + 1) implies
                                dominates(*input, units@, bi, bj, i, jj) by {
                                lemma_score_den(*input, units@[i], jj);
                                lemma_frac_trans(score(*input, units@[i], jj), score(*input, units@[obi], obj), score(*input, units@[ci], cj));
                            }
                        },
                    }
                }
            } else {
                proof {
                    assert(!is_candidate(*input, units@, ui as int, j as int));
                }
            }
            k = k + 1;
        }
        proof {
            assert forall|i: int, j: int|
                #![trigger is_candidate(*input, units@, i, j)]
                is_candidate(*input, units@, i, j) && i == ui implies j < k by {
                assert(unit.meets(j, Rounding::WillRound, input.lo_frac(), input.hi_frac()));
            }
        }
        ui = ui + 1;
    }
    proof {
        if best is Some {
            let a = best->Some_0;
            assert(is_best(*input, units@, bi, bj));
            assert(answers_with(a, *input, units@, bi, bj));
        }
    }
    Ok(best)
}

/// Whether a count meets an interval depends on the values of its ends only.
proof fn unit_meets_congr(u: Unit, n: int, lo: (int, int), hi: (int, int), lo2: (int, int), hi2: (int, int))
    requires
        u.wf(),
        lo.1 > 0,
        hi.1 > 0,
        lo2.1 > 0,
        hi2.1 > 0,
        lo.0 * lo2.1 == lo2.0 * lo.1,
        hi.0 * hi2.1 == hi2.0 * hi.1,
    ensures
        u.meets(n, Rounding::WillRound, lo, hi) == u.meets(n, Rounding::WillRound, lo2, hi2),
{
    lemma_span_parts(u, n, Rounding::WillRound);
    let (sl, sh) = (u.span_lo(n, Rounding::WillRound), u.span_hi(n, Rounding::WillRound));
    lemma_frac_lt_congr(lo.0, lo.1, lo2.0, lo2.1, sh.0, sh.1, sh.0, sh.1);
    lemma_frac_lt_congr(sl.0, sl.1, sl.0, sl.1, hi.0, hi.1, hi2.0, hi2.1);
}

} // verus!
