//! Exact decimal numbers of any size.

use crate::digits::{
    all_digits, digits_of, lemma_magnitude_below, lemma_magnitude_push, lemma_pow10_positive,
    lemma_pow10_sum, magnitude, padded, pow10, product, relate, round_half_even, rounded, shifted,
    sum, Relation,
};
use crate::notation::{
    digit_char, digit_run, digit_values, is_digit_char, lemma_numeral_digits, numeral,
    numeral_value, read_digits, reversed, write_hundredths,
};
use vstd::arithmetic::div_mod::{
    lemma_fundamental_div_mod, lemma_fundamental_div_mod_converse, lemma_mod_bound,
};
use vstd::prelude::*;
use vstd::string::StrSliceExecFns;
use vstd::string::StringExecFns;

verus! {

/// What a decimal number is: `unscaled` units, each one ten to the power
/// minus `scale`. The number 1.21 is 121 units at scale 2, and also 1210 units
/// at scale 3.
pub struct Scaled {
    pub unscaled: int,
    pub scale: nat,
}

impl Scaled {
    /// The whole number `n`.
    pub open spec fn whole(n: int) -> Scaled {
        Scaled { unscaled: n, scale: 0 }
    }

    /// `size` units at `scale`, below zero if `negative`.
    pub open spec fn signed(negative: bool, size: nat, scale: nat) -> Scaled {
        Scaled { unscaled: if negative { -size } else { size as int }, scale }
    }

    /// The units without their sign.
    pub open spec fn size(self) -> nat {
        if self.unscaled < 0 {
            (-self.unscaled) as nat
        } else {
            self.unscaled as nat
        }
    }

    /// The product of two numbers.
    pub open spec fn times(self, other: Scaled) -> Scaled {
        Scaled { unscaled: self.unscaled * other.unscaled, scale: self.scale + other.scale }
    }

    /// This number is less than `other`.
    pub open spec fn below(self, other: Scaled) -> bool {
        self.unscaled * pow10(other.scale) < other.unscaled * pow10(self.scale)
    }

    /// This number and `other` are the same number, whatever their scales.
    pub open spec fn same(self, other: Scaled) -> bool {
        self.unscaled * pow10(other.scale) == other.unscaled * pow10(self.scale)
    }

    /// What an amount is multiplied by to grow by this many percent: one and
    /// a hundredth of this number. For 20 it is 1.20.
    pub open spec fn growth(self) -> Scaled {
        Scaled { unscaled: 100 * pow10(self.scale) + self.unscaled, scale: self.scale + 2 }
    }

    /// The number without its sign, in hundredths, rounded half to even.
    pub open spec fn hundredths(self) -> nat {
        if self.scale <= 2 {
            self.size() * pow10((2 - self.scale) as nat)
        } else {
            round_half_even(self.size(), (self.scale - 2) as nat)
        }
    }

    /// The number written with exactly two decimal places: a minus sign if it
    /// is below zero, the numeral of the whole part, a point, two digits.
    pub open spec fn fixed2(self) -> Seq<char> {
        let h = self.hundredths();
        let sign = if self.unscaled < 0 {
            seq!['-']
        } else {
            Seq::<char>::empty()
        };
        sign + numeral(h / 100) + seq!['.', digit_char(h / 10 % 10), digit_char(h % 10)]
    }

    /// The number that `text` spells, if it spells one: an optional minus
    /// sign, one or more digits, and optionally a point followed by one or
    /// more digits. Every digit after the point counts in the scale.
    pub open spec fn spelled(text: Seq<char>) -> Option<Scaled> {
        let negative = text.len() > 0 && text[0] == '-';
        let body = if negative {
            text.skip(1)
        } else {
            text
        };
        let whole = digit_run(body) as int;
        let rest = body.skip(whole);
        if whole == 0 {
            None
        } else if rest.len() == 0 {
            Some(Scaled::signed(negative, numeral_value(body), 0))
        } else if rest[0] == '.' && rest.len() >= 2 && digit_run(rest.skip(1)) == rest.len() - 1 {
            Some(
                Scaled::signed(
                    negative,
                    numeral_value(body.take(whole) + rest.skip(1)),
                    (rest.len() - 1) as nat,
                ),
            )
        } else {
            None
        }
    }
}

/// The text at two decimal places always ends in a point and two digits, and
/// before the point stand only digits, at least one, after a minus sign if
/// the number is below zero.
pub proof fn lemma_fixed2_shape(v: Scaled)
    ensures
        ({
            let text = v.fixed2();
            let first = if v.unscaled < 0 { 1int } else { 0int };
            &&& text.len() >= first + 4
            &&& v.unscaled < 0 ==> text[0] == '-'
            &&& forall|i: int| first <= i < text.len() - 3 ==> is_digit_char(#[trigger] text[i])
            &&& text[text.len() - 3] == '.'
            &&& is_digit_char(text[text.len() - 2])
            &&& is_digit_char(text[text.len() - 1])
        }),
{
    let h = v.hundredths();
    lemma_numeral_digits(h / 100);
    let sign = if v.unscaled < 0 { seq!['-'] } else { Seq::<char>::empty() };
    let whole = numeral(h / 100);
    let places = seq!['.', digit_char(h / 10 % 10), digit_char(h % 10)];
    let text = v.fixed2();
    assert(text =~= sign + whole + places);
    assert(text.len() == sign.len() + whole.len() + 3);
    assert forall|i: int| sign.len() <= i < text.len() - 3 implies is_digit_char(
        #[trigger] text[i],
    ) by {
        assert(text[i] == whole[i - sign.len()]);
    }
    assert(text[text.len() - 3] == places[0]);
    assert(text[text.len() - 2] == places[1]);
    assert(text[text.len() - 1] == places[2]);
}

/// Zeros added after the last decimal place leave the hundredths and the sign
/// as they were.
pub proof fn lemma_trailing_zeros(v: Scaled, k: nat)
    ensures
        ({
            let longer = Scaled { unscaled: v.unscaled * pow10(k), scale: v.scale + k };
            &&& longer.hundredths() == v.hundredths()
            &&& (longer.unscaled < 0 <==> v.unscaled < 0)
        }),
{
    let longer = Scaled { unscaled: v.unscaled * pow10(k), scale: v.scale + k };
    let m = v.size() as int;
    let t = pow10(k) as int;
    lemma_pow10_positive(k);
    assert(longer.size() == m * t && (longer.unscaled < 0 <==> v.unscaled < 0)) by (nonlinear_arith)
        requires
            t > 0,
            longer.unscaled == v.unscaled * t,
            m == (if v.unscaled < 0 { -v.unscaled } else { v.unscaled }),
            longer.size() == (if longer.unscaled < 0 { -longer.unscaled } else { longer.unscaled }),
    ;
    if v.scale + k <= 2 {
        let rest = (2 - v.scale - k) as nat;
        lemma_pow10_sum(k, rest);
        let r = pow10(rest) as int;
        assert((m * t) * r == m * (t * r)) by (nonlinear_arith);
    } else if v.scale <= 2 {
        let short = (2 - v.scale) as nat;
        let j = (v.scale + k - 2) as nat;
        lemma_pow10_sum(short, j);
        lemma_pow10_positive(j);
        let q = m * pow10(short);
        let unit = pow10(j) as int;
        assert(m * t == q * unit + 0) by (nonlinear_arith)
            requires
                t == pow10(short) * unit,
                q == m * pow10(short),
        ;
        lemma_fundamental_div_mod_converse(m * t, unit, q, 0);
    } else {
        let i = (v.scale - 2) as nat;
        lemma_pow10_sum(i, k);
        lemma_pow10_positive(i);
        let unit = pow10(i) as int;
        let q = m / unit;
        let r = m % unit;
        lemma_fundamental_div_mod(m, unit);
        lemma_mod_bound(m, unit);
        let wide = pow10(i + k) as int;
        assert(m * t == q * wide + r * t && 0 <= r * t < wide && ((2 * (r * t) > wide) <==> (2 * r
            > unit)) && ((2 * (r * t) == wide) <==> (2 * r == unit))) by (nonlinear_arith)
            requires
                m == unit * q + r,
                0 <= r < unit,
                wide == unit * t,
                t > 0,
        ;
        lemma_fundamental_div_mod_converse(m * t, wide, q, r * t);
    }
}

/// The text at two decimal places depends on the number alone: two ways of
/// writing the same number, with more or fewer zeros at the end, give the
/// same text.
pub proof fn lemma_fixed2_of_same(a: Scaled, b: Scaled)
    requires
        a.same(b),
    ensures
        a.fixed2() == b.fixed2(),
{
    if a.scale <= b.scale {
        lemma_same_is_trailing_zeros(a, b);
        lemma_trailing_zeros(a, (b.scale - a.scale) as nat);
    } else {
        lemma_same_is_trailing_zeros(b, a);
        lemma_trailing_zeros(b, (a.scale - b.scale) as nat);
    }
}

/// Of two ways of writing the same number, the one with the larger scale
/// has the units of the other followed by zeros.
proof fn lemma_same_is_trailing_zeros(a: Scaled, b: Scaled)
    requires
        a.same(b) || b.same(a),
        a.scale <= b.scale,
    ensures
        b == (Scaled {
            unscaled: a.unscaled * pow10((b.scale - a.scale) as nat),
            scale: a.scale + (b.scale - a.scale) as nat,
        }),
{
    let k = (b.scale - a.scale) as nat;
    lemma_pow10_sum(a.scale, k);
    lemma_pow10_positive(a.scale);
    let p = pow10(a.scale) as int;
    let t = pow10(k) as int;
    assert(b.unscaled == a.unscaled * t) by (nonlinear_arith)
        requires
            a.unscaled * (p * t) == b.unscaled * p,
            p > 0,
    ;
}

/// Being the same number is an equivalence.
pub proof fn lemma_same_is_equivalence(a: Scaled, b: Scaled, c: Scaled)
    ensures
        a.same(a),
        a.same(b) ==> b.same(a),
        a.same(b) && b.same(c) ==> a.same(c),
{
    if a.same(b) && b.same(c) {
        lemma_pow10_positive(b.scale);
        let pa = pow10(a.scale) as int;
        let pb = pow10(b.scale) as int;
        let pc = pow10(c.scale) as int;
        assert(a.unscaled * pc == c.unscaled * pa) by (nonlinear_arith)
            requires
                a.unscaled * pb == b.unscaled * pa,
                b.unscaled * pc == c.unscaled * pb,
                pb > 0,
        {
            assert((a.unscaled * pc) * pb == (a.unscaled * pb) * pc);
            assert((c.unscaled * pa) * pb == (c.unscaled * pb) * pa);
            assert((b.unscaled * pa) * pc == (b.unscaled * pc) * pa);
        }
    }
}

/// The product depends on the numbers alone, not on how they are written.
pub proof fn lemma_times_of_same(a: Scaled, a2: Scaled, b: Scaled, b2: Scaled)
    requires
        a.same(a2),
        b.same(b2),
    ensures
        a.times(b).same(a2.times(b2)),
{
    lemma_pow10_sum(a.scale, b.scale);
    lemma_pow10_sum(a2.scale, b2.scale);
    let pa = pow10(a.scale) as int;
    let pb = pow10(b.scale) as int;
    let qa = pow10(a2.scale) as int;
    let qb = pow10(b2.scale) as int;
    assert((a.unscaled * b.unscaled) * (qa * qb) == (a2.unscaled * b2.unscaled) * (pa * pb))
        by (nonlinear_arith)
        requires
            a.unscaled * qa == a2.unscaled * pa,
            b.unscaled * qb == b2.unscaled * pb,
    {
        assert((a.unscaled * b.unscaled) * (qa * qb) == (a.unscaled * qa) * (b.unscaled * qb));
        assert((a2.unscaled * b2.unscaled) * (pa * pb) == (a2.unscaled * pa) * (b2.unscaled * pb));
    }
}

/// The order depends on the numbers alone, not on how they are written.
pub proof fn lemma_below_of_same(a: Scaled, a2: Scaled, b: Scaled, b2: Scaled)
    requires
        a.same(a2),
        b.same(b2),
    ensures
        a.below(b) == a2.below(b2),
{
    lemma_pow10_positive(a.scale);
    lemma_pow10_positive(b.scale);
    lemma_pow10_positive(a2.scale);
    lemma_pow10_positive(b2.scale);
    let pa = pow10(a.scale) as int;
    let pb = pow10(b.scale) as int;
    let qa = pow10(a2.scale) as int;
    let qb = pow10(b2.scale) as int;
    let left = a.unscaled * pb;
    let right = b.unscaled * pa;
    let left2 = a2.unscaled * qb;
    let right2 = b2.unscaled * qa;
    assert(left * (qa * qb) == left2 * (pa * pb)) by (nonlinear_arith)
        requires
            left == a.unscaled * pb,
            left2 == a2.unscaled * qb,
            a.unscaled * qa == a2.unscaled * pa,
    {
        assert(left * (qa * qb) == (a.unscaled * qa) * (pb * qb));
        assert(left2 * (pa * pb) == (a2.unscaled * pa) * (pb * qb));
    }
    assert(right * (qa * qb) == right2 * (pa * pb)) by (nonlinear_arith)
        requires
            right == b.unscaled * pa,
            right2 == b2.unscaled * qa,
            b.unscaled * qb == b2.unscaled * pb,
    {
        assert(right * (qa * qb) == (b.unscaled * qb) * (pa * qa));
        assert(right2 * (pa * pb) == (b2.unscaled * pb) * (pa * qa));
    }
    let s = qa * qb;
    let t = pa * pb;
    assert(s > 0 && t > 0) by (nonlinear_arith)
        requires
            s == qa * qb,
            t == pa * pb,
            pa > 0,
            pb > 0,
            qa > 0,
            qb > 0,
    ;
    assert((left < right) == (left2 < right2)) by (nonlinear_arith)
        requires
            left * s == left2 * t,
            right * s == right2 * t,
            s > 0,
            t > 0,
    ;
}

/// The factor of growth depends on the number alone, not on how it is
/// written.
pub proof fn lemma_growth_of_same(a: Scaled, b: Scaled)
    requires
        a.same(b),
    ensures
        a.growth().same(b.growth()),
{
    lemma_pow10_sum(a.scale, 2);
    lemma_pow10_sum(b.scale, 2);
    assert(pow10(2) == 100) by {
        assert(pow10(0) == 1);
        assert(pow10(1) == 10 * pow10(0));
        assert(pow10(2) == 10 * pow10(1));
    }
    let pa = pow10(a.scale) as int;
    let pb = pow10(b.scale) as int;
    assert((100 * pa + a.unscaled) * (pb * 100) == (100 * pb + b.unscaled) * (pa * 100))
        by (nonlinear_arith)
        requires
            a.unscaled * pb == b.unscaled * pa,
    ;
}

/// An exact decimal number.
#[derive(Debug)]
pub struct Decimal {
    negative: bool,
    digits: Vec<u8>,
    scale: usize,
}

impl View for Decimal {
    type V = Scaled;

    closed spec fn view(&self) -> Scaled {
        Scaled::signed(self.negative, magnitude(self.digits@), self.scale as nat)
    }
}

impl Decimal {
    #[verifier::type_invariant]
    spec fn well_formed(self) -> bool {
        all_digits(self.digits@) && self.scale <= self.digits@.len()
    }

    /// `unscaled` units at `scale`: `Decimal::new(121, 2)` is 1.21.
    pub fn new(unscaled: i64, scale: u8) -> (d: Decimal)
        ensures
            d@ == (Scaled { unscaled: unscaled as int, scale: scale as nat }),
    {
        let negative = unscaled < 0;
        let wide: i128 = unscaled as i128;
        let size: u64 = if negative {
            (-wide) as u64
        } else {
            wide as u64
        };
        let digits = padded(digits_of(size), scale as usize);
        Decimal { negative, digits, scale: scale as usize }
    }

    /// The number that `text` spells, if it spells one.
    pub fn parse(text: &str) -> (d: Option<Decimal>)
        ensures
            match Scaled::spelled(text@) {
                Some(v) => d matches Some(x) && x@ == v,
                None => d is None,
            },
    {
        let n = text.unicode_len();
        let negative = n > 0 && text.get_char(0) == '-';
        let start: usize = if negative { 1 } else { 0 };
        let mut lined: Vec<u8> = Vec::new();
        let dot = read_digits(text, start, &mut lined);
        let ghost body = if negative { text@.skip(1) } else { text@ };
        let ghost rest = body.skip(dot - start);
        proof {
            assert(body =~= text@.skip(start as int));
            assert(digit_run(body) == dot - start);
            assert(rest =~= text@.skip(dot as int));
            assert(body.take(dot - start) =~= text@.subrange(start as int, dot as int));
            assert(lined@ =~= digit_values(text@.subrange(start as int, dot as int)));
        }
        if dot == start {
            return None;
        }
        if dot == n {
            let digits = reversed(&lined);
            proof {
                assert(rest.len() == 0);
                assert(body =~= text@.subrange(start as int, dot as int));
                assert(digits@ == digit_values(body).reverse());
            }
            return Some(Decimal { negative, digits, scale: 0 });
        }
        proof {
            assert(rest.len() > 0);
            assert(rest[0] == text@[dot as int]);
        }
        if text.get_char(dot) != '.' {
            return None;
        }
        let end = read_digits(text, dot + 1, &mut lined);
        proof {
            assert(rest.skip(1) =~= text@.skip(dot + 1));
            assert(digit_run(rest.skip(1)) == end - (dot + 1));
            assert(rest.len() == n - dot);
        }
        if end == dot + 1 || end != n {
            return None;
        }
        let digits = reversed(&lined);
        proof {
            assert(rest.skip(1) =~= text@.subrange(dot + 1, end as int));
            assert(lined@ =~= digit_values(body.take(dot - start) + rest.skip(1)));
        }
        Some(Decimal { negative, digits, scale: n - dot - 1 })
    }

    /// The product of this number and `other`.
    pub fn times(&self, other: &Decimal) -> (out: Decimal)
        ensures
            out@ == self@.times(other@),
    {
        proof {
            use_type_invariant(self);
            use_type_invariant(other);
        }
        let raw = padded(product(&self.digits, &other.digits), self.scale);
        let mut digits = raw;
        while digits.len() - self.scale < other.scale
            invariant
                all_digits(digits@),
                digits@.len() >= self.scale,
                magnitude(digits@) == magnitude(self.digits@) * magnitude(other.digits@),
            decreases other.scale - (digits.len() - self.scale),
        {
            proof {
                lemma_magnitude_push(digits@, 0);
                assert(0 * pow10(digits@.len()) == 0);
            }
            digits.push(0);
        }
        proof {
            let a = magnitude(self.digits@) as int;
            let b = magnitude(other.digits@) as int;
            assert((-a) * b == -(a * b)) by (nonlinear_arith);
            assert(a * (-b) == -(a * b)) by (nonlinear_arith);
            assert((-a) * (-b) == a * b) by (nonlinear_arith);
        }
        Decimal {
            negative: self.negative != other.negative,
            digits,
            scale: self.scale + other.scale,
        }
    }

    /// How this number stands to `other`.
    pub fn relation(&self, other: &Decimal) -> (r: Relation)
        ensures
            r is Below <==> self@.below(other@),
            r is Level <==> self@.same(other@),
            r is Above <==> other@.below(self@),
    {
        proof {
            use_type_invariant(self);
            use_type_invariant(other);
        }
        let mine = shifted(&self.digits, other.scale);
        let theirs = shifted(&other.digits, self.scale);
        let nothing: Vec<u8> = Vec::new();
        proof {
            let a = magnitude(self.digits@) as int;
            let b = magnitude(other.digits@) as int;
            let p = pow10(other.scale as nat) as int;
            let q = pow10(self.scale as nat) as int;
            assert((-a) * p == -(a * p)) by (nonlinear_arith);
            assert((-b) * q == -(b * q)) by (nonlinear_arith);
            assert(magnitude(nothing@) == 0);
        }
        if self.negative {
            if other.negative {
                relate(&theirs, &mine)
            } else {
                match relate(&mine, &nothing) {
                    Relation::Level => match relate(&theirs, &nothing) {
                        Relation::Level => Relation::Level,
                        _ => Relation::Below,
                    },
                    _ => Relation::Below,
                }
            }
        } else {
            if other.negative {
                match relate(&mine, &nothing) {
                    Relation::Level => match relate(&theirs, &nothing) {
                        Relation::Level => Relation::Level,
                        _ => Relation::Above,
                    },
                    _ => Relation::Above,
                }
            } else {
                relate(&mine, &theirs)
            }
        }
    }

    /// This number is less than `other`.
    pub fn below(&self, other: &Decimal) -> (yes: bool)
        ensures
            yes == self@.below(other@),
    {
        match self.relation(other) {
            Relation::Below => true,
            _ => false,
        }
    }

    /// The digits of the number without its sign, in hundredths, rounded
    /// half to even.
    fn hundredths_digits(&self) -> (out: Vec<u8>)
        ensures
            all_digits(out@),
            magnitude(out@) == self@.hundredths(),
    {
        proof {
            use_type_invariant(self);
        }
        if self.scale <= 2 {
            shifted(&self.digits, 2 - self.scale)
        } else {
            rounded(&self.digits, self.scale - 2)
        }
    }

    /// The number is below zero.
    fn is_below_zero(&self) -> (yes: bool)
        ensures
            yes == (self@.unscaled < 0),
    {
        proof {
            use_type_invariant(self);
        }
        let nothing: Vec<u8> = Vec::new();
        assert(magnitude(nothing@) == 0);
        if self.negative {
            match relate(&self.digits, &nothing) {
                Relation::Above => true,
                _ => false,
            }
        } else {
            false
        }
    }

    /// The number written with exactly two decimal places.
    pub fn to_fixed2(&self) -> (text: String)
        ensures
            text@ == self@.fixed2(),
    {
        let hundredths = self.hundredths_digits();
        let mut text = String::new();
        if self.is_below_zero() {
            text.append("-");
        }
        proof {
            reveal_strlit("-");
        }
        write_hundredths(&mut text, hundredths);
        proof {
            assert(text@ =~= self@.fixed2());
        }
        text
    }

    /// One and a hundredth of this number.
    pub(crate) fn growth(&self) -> (factor: Decimal)
        requires
            self@.unscaled >= 0,
        ensures
            factor@ == self@.growth(),
    {
        proof {
            use_type_invariant(self);
        }
        let unit = digits_of(100);
        proof {
            lemma_magnitude_below(unit@);
            assert(pow10(0) == 1);
            assert(pow10(1) == 10 * pow10(0));
            assert(pow10(2) == 10 * pow10(1));
            assert(unit@.len() >= 3);
            assert(pow10(self.scale as nat) * 100 == 100 * pow10(self.scale as nat));
        }
        let hundred = shifted(&unit, self.scale);
        let digits = padded(sum(&hundred, &self.digits), hundred.len());
        Decimal { negative: false, digits, scale: self.scale + 2 }
    }
}

impl PartialEq for Decimal {
    fn eq(&self, other: &Self) -> (same: bool) {
        match self.relation(other) {
            Relation::Level => true,
            _ => false,
        }
    }
}

impl vstd::std_specs::cmp::PartialEqSpecImpl for Decimal {
    open spec fn obeys_eq_spec() -> bool {
        true
    }

    open spec fn eq_spec(&self, other: &Self) -> bool {
        self@.same(other@)
    }
}

} // verus!
