//! Text for fractions: a minus sign, an integer part, and a vulgar-fraction glyph
//! where one exists.

use crate::approximation::{Answer, Approximation};
use crate::fraction::{abs, add_fits_frac, ArithError, Real};
use crate::interval::RealInterval;
use crate::rounding::Rounding;
use vstd::prelude::*;
use vstd::string::StringExecFns;

verus! {

/// The minus sign that precedes a negative value.
pub const MINUS_SIGN: char = '\u{2212}';

/// Joins a non-zero integer part to the fraction after it.
pub const INVISIBLE_PLUS: char = '\u{2064}';

/// Separates numerator and denominator where no glyph exists.
pub const FRACTION_SLASH: char = '\u{2044}';

/// The glyph of the proper fraction `n / d`, for the common ones in lowest terms.
pub open spec fn vulgar_spec(n: int, d: int) -> Option<char> {
    if n == 1 && d == 10 { Some('\u{2152}') }
    else if n == 1 && d == 9 { Some('\u{2151}') }
    else if n == 1 && d == 8 { Some('\u{215B}') }
    else if n == 1 && d == 7 { Some('\u{2150}') }
    else if n == 1 && d == 6 { Some('\u{2159}') }
    else if n == 1 && d == 5 { Some('\u{2155}') }
    else if n == 1 && d == 4 { Some('\u{BC}') }
    else if n == 1 && d == 3 { Some('\u{2153}') }
    else if n == 3 && d == 8 { Some('\u{215C}') }
    else if n == 2 && d == 5 { Some('\u{2156}') }
    else if n == 1 && d == 2 { Some('\u{BD}') }
    else if n == 3 && d == 5 { Some('\u{2157}') }
    else if n == 5 && d == 8 { Some('\u{215D}') }
    else if n == 2 && d == 3 { Some('\u{2154}') }
    else if n == 3 && d == 4 { Some('\u{BE}') }
    else if n == 4 && d == 5 { Some('\u{2158}') }
    else if n == 5 && d == 6 { Some('\u{215A}') }
    else if n == 7 && d == 8 { Some('\u{215E}') }
    else { None }
}

/// The decimal digit `d`.
pub open spec fn digit_spec(d: nat) -> char {
    if d == 0 { '0' }
    else if d == 1 { '1' }
    else if d == 2 { '2' }
    else if d == 3 { '3' }
    else if d == 4 { '4' }
    else if d == 5 { '5' }
    else if d == 6 { '6' }
    else if d == 7 { '7' }
    else if d == 8 { '8' }
    else { '9' }
}

/// The decimal digits of `n`, without leading zeros.
pub open spec fn decimal(n: nat) -> Seq<char>
    decreases n,
{
    if n < 10 {
        seq![digit_spec(n)]
    } else {
        decimal(n / 10).push(digit_spec(n % 10))
    }
}

/// A proper fraction `n / d`: its glyph, or `n⁄d`.
pub open spec fn fraction_text(n: nat, d: nat) -> Seq<char> {
    match vulgar_spec(n as int, d as int) {
        Some(c) => seq![c],
        None => decimal(n) + seq![FRACTION_SLASH] + decimal(d),
    }
}

/// The text of `x`: a minus sign if negative; then the whole value if it is an integer,
/// else the integer part (when not zero) joined to the fractional part.
pub open spec fn real_text(x: Real) -> Seq<char> {
    let sign = if x.num() < 0 { seq![MINUS_SIGN] } else { Seq::<char>::empty() };
    let m = abs(x.num());
    let d = x.den() as nat;
    if d == 1 {
        sign + decimal(m)
    } else {
        let whole = if m / d != 0 { decimal(m / d).push(INVISIBLE_PLUS) } else { Seq::<char>::empty() };
        sign + whole + fraction_text(m % d, d)
    }
}

/// The text of the integer `n`: an ASCII `-` if negative, then its digits.
pub open spec fn int_text(n: int) -> Seq<char> {
    (if n < 0 { seq!['-'] } else { Seq::<char>::empty() }) + decimal(abs(n))
}

/// The name of a rounding mode.
pub open spec fn rounding_text(r: Rounding) -> Seq<char> {
    match r {
        Rounding::Truncated => "Truncated"@,
        Rounding::WillRound => "WillRound"@,
    }
}

/// An interval as its lower end and its size: `lo+[0,size)`.
pub open spec fn interval_text(i: RealInterval, size: Real) -> Seq<char> {
    real_text(i.0) + "+[0,"@ + real_text(size) + ")"@
}

/// An approximation with the interval it stands for, `i`, of size `size`.
pub open spec fn approximation_text(a: Approximation, i: RealInterval, size: Real) -> Seq<char> {
    "Approximation { count: "@ + int_text(a.count_spec()) + ", unit: "@ + a.unit_spec().name_view()
        + ", interval: "@ + interval_text(i, size) + ", "@ + rounding_text(a.rounding_spec()) + " }"@
}

/// `t` is the text of `a`: its interval is the one that `a` stands for, and that
/// interval's size is exact.
pub open spec fn is_approximation_text(t: Seq<char>, a: Approximation) -> bool {
    exists|i: RealInterval, size: Real|
        {
            &&& i.wf()
            &&& i.0.is_frac(a.lo_frac().0, a.lo_frac().1)
            &&& i.1.is_frac(a.hi_frac().0, a.hi_frac().1)
            &&& size.wf()
            &&& size.is_diff(i.1, i.0)
            &&& #[trigger] approximation_text(a, i, size) == t
        }
}

/// The glyph of the proper fraction `n / d`, if it has one.
pub fn vulgar(n: u64, d: u64) -> (r: Option<char>)
    ensures
        r == vulgar_spec(n as int, d as int),
{
    match (n, d) {
        (1, 10) => Some('\u{2152}'),
        (1, 9) => Some('\u{2151}'),
        (1, 8) => Some('\u{215B}'),
        (1, 7) => Some('\u{2150}'),
        (1, 6) => Some('\u{2159}'),
        (1, 5) => Some('\u{2155}'),
        (1, 4) => Some('\u{BC}'),
        (1, 3) => Some('\u{2153}'),
        (3, 8) => Some('\u{215C}'),
        (2, 5) => Some('\u{2156}'),
        (1, 2) => Some('\u{BD}'),
        (3, 5) => Some('\u{2157}'),
        (5, 8) => Some('\u{215D}'),
        (2, 3) => Some('\u{2154}'),
        (3, 4) => Some('\u{BE}'),
        (4, 5) => Some('\u{2158}'),
        (5, 6) => Some('\u{215A}'),
        (7, 8) => Some('\u{215E}'),
        _ => None,
    }
}

fn digit(d: u64) -> (r: char)
    requires
        d < 10,
    ensures
        r == digit_spec(d as nat),
{
    match d {
        0 => '0',
        1 => '1',
        2 => '2',
        3 => '3',
        4 => '4',
        5 => '5',
        6 => '6',
        7 => '7',
        8 => '8',
        _ => '9',
    }
}

/// Appends the decimal digits of `n`.
fn push_decimal(out: &mut Vec<char>, n: u64)
    ensures
        final(out)@ == old(out)@ + decimal(n as nat),
    decreases n,
{
    if n >= 10 {
        push_decimal(out, n / 10);
    }
    out.push(digit(n % 10));
    proof {
        if n >= 10 {
            assert(old(out)@ + decimal(n as nat) == (old(out)@ + decimal((n / 10) as nat)).push(digit_spec((n % 10) as nat)));
        } else {
            assert(decimal(n as nat) == seq![digit_spec(n as nat)]);
        }
    }
}

/// Relies on std's `FromIterator<char>` for `String`: the characters, in order.
#[verifier::external_body]
fn collect_text(chars: &Vec<char>) -> (r: String)
    ensures
        r@ == chars@,
{
    chars.iter().collect()
}

/// The text of `n`, as `int_text` describes it.
pub fn int_to_text(n: i64) -> (r: String)
    ensures
        r@ == int_text(n as int),
{
    let mut out: Vec<char> = Vec::new();
    if n < 0 {
        out.push('-');
    }
    let m: u64 = if n < 0 { (-(n as i128)) as u64 } else { n as u64 };
    push_decimal(&mut out, m);
    assert(out@ =~= int_text(n as int));
    collect_text(&out)
}

impl Real {
    /// The text of this value, as `real_text` describes it.
    pub fn to_text(&self) -> (r: String)
        requires
            self.wf(),
        ensures
            r@ == real_text(*self),
    {
        let n = self.numer();
        let d = self.denom() as u64;
        let mut out: Vec<char> = Vec::new();
        if n < 0 {
            out.push(MINUS_SIGN);
        }
        let m: u64 = if n < 0 { (-(n as i128)) as u64 } else { n as u64 };
        assert(m as nat == abs(self.num()));
        assert(out@ == (if self.num() < 0 { seq![MINUS_SIGN] } else { Seq::<char>::empty() }));
        if d == 1 {
            push_decimal(&mut out, m);
        } else {
            let whole = m / d;
            let part = m % d;
            if whole != 0 {
                push_decimal(&mut out, whole);
                out.push(INVISIBLE_PLUS);
            }
            match vulgar(part, d) {
                Some(c) => out.push(c),
                None => {
                    push_decimal(&mut out, part);
                    out.push(FRACTION_SLASH);
                    push_decimal(&mut out, d);
                },
            }
        }
        proof {
            let sign = if self.num() < 0 { seq![MINUS_SIGN] } else { Seq::<char>::empty() };
            if d != 1 {
                let whole = if (m / d) != 0 { decimal((m / d) as nat).push(INVISIBLE_PLUS) } else { Seq::<char>::empty() };
                assert(out@ =~= sign + whole + fraction_text((m % d) as nat, d as nat));
            } else {
                assert(out@ =~= sign + decimal(m as nat));
            }
        }
        collect_text(&out)
    }
}

impl Rounding {
    /// The name of this mode.
    pub fn to_text(&self) -> (r: String)
        ensures
            r@ == rounding_text(*self),
    {
        match self {
            Rounding::Truncated => "Truncated".to_owned(),
            Rounding::WillRound => "WillRound".to_owned(),
        }
    }
}

impl RealInterval {
    /// The text `lo+[0,size)`.
    pub fn to_text(&self) -> (r: Result<String, ArithError>)
        requires
            self.valid(),
        ensures
            r matches Ok(t) ==> exists|size: Real|
                size.wf() && size.is_diff(self.1, self.0) && #[trigger] interval_text(*self, size) == t@,
            r matches Err(e) ==> e == ArithError::Overflow,
            Real::add_fits(self.1, self.0) ==> r is Ok,
    {
        let size = self.size()?;
        let mut out = self.0.to_text();
        proof {
            reveal_strlit("+[0,");
            reveal_strlit(")");
        }
        out.append("+[0,");
        out.append(size.to_text().as_str());
        out.append(")");
        assert(interval_text(*self, size) =~= out@);
        Ok(out)
    }
}

impl Approximation {
    /// Computing the text stays within `i64`: the interval and its size.
    pub open spec fn text_fits(self) -> bool {
        self.fits() && add_fits_frac(self.span_exact().1, self.span_exact().0)
    }

    /// The text `Approximation { count: .., unit: .., interval: .., rounding }`.
    pub fn to_text(&self) -> (r: Result<String, ArithError>)
        requires
            self.unit_spec().wf(),
        ensures
            r matches Ok(t) ==> is_approximation_text(t@, *self),
            r matches Err(e) ==> e == ArithError::Overflow,
            self.text_fits() ==> r is Ok,
    {
        let i = self.interval()?;
        let size = i.size()?;
        let mut out = "Approximation { count: ".to_owned();
        out.append(int_to_text(self.count()).as_str());
        out.append(", unit: ");
        out.append(self.unit().name().as_str());
        out.append(", interval: ");
        let lo = i.0.to_text();
        out.append(lo.as_str());
        out.append("+[0,");
        out.append(size.to_text().as_str());
        out.append(")");
        out.append(", ");
        out.append(self.rounding().to_text().as_str());
        out.append(" }");
        proof {
            reveal_strlit("Approximation { count: ");
            reveal_strlit(", unit: ");
            reveal_strlit(", interval: ");
            reveal_strlit("+[0,");
            reveal_strlit(")");
            reveal_strlit(", ");
            reveal_strlit(" }");
            assert(approximation_text(*self, i, size) =~= out@);
        }
        Ok(out)
    }
}

impl Answer {
    /// The text `Answer(input: .., output: ..)`.
    pub fn to_text(&self) -> (r: Result<String, ArithError>)
        requires
            self.input.unit_spec().wf(),
            self.output.unit_spec().wf(),
        ensures
            self.input.text_fits() && self.output.text_fits() ==> r is Ok,
            r matches Ok(t) ==> exists|ti: Seq<char>, to: Seq<char>|
                {
                    &&& is_approximation_text(ti, self.input)
                    &&& is_approximation_text(to, self.output)
                    &&& #[trigger] ("Answer(input: "@ + ti + ", output: "@ + to + ")"@) == t@
                },
            r matches Err(e) ==> e == ArithError::Overflow,
    {
        let ti = self.input.to_text()?;
        let to = self.output.to_text()?;
        let mut out = "Answer(input: ".to_owned();
        out.append(ti.as_str());
        out.append(", output: ");
        out.append(to.as_str());
        out.append(")");
        proof {
            reveal_strlit("Answer(input: ");
            reveal_strlit(", output: ");
            reveal_strlit(")");
            assert(("Answer(input: "@ + ti@ + ", output: "@ + to@ + ")"@) =~= out@);
        }
        Ok(out)
    }
}

} // verus!
