//! Natural numbers of any size, written as decimal digits with the least
//! significant digit first.

use vstd::arithmetic::div_mod::lemma_fundamental_div_mod_converse;
use vstd::prelude::*;

verus! {

/// Ten to the power `n`.
pub open spec fn pow10(n: nat) -> nat
    decreases n,
{
    if n == 0 {
        1
    } else {
        10 * pow10((n - 1) as nat)
    }
}

/// Every element of `s` is a decimal digit.
pub open spec fn all_digits(s: Seq<u8>) -> bool {
    forall|i: int| 0 <= i < s.len() ==> s[i] < 10
}

/// The number that the digits `s` spell, least significant digit first.
pub open spec fn magnitude(s: Seq<u8>) -> nat
    decreases s.len(),
{
    if s.len() == 0 {
        0
    } else {
        magnitude(s.drop_last()) + s.last() as nat * pow10((s.len() - 1) as nat)
    }
}

/// The digit of `s` at place `i`, zero beyond its end.
pub open spec fn digit_at(s: Seq<u8>, i: int) -> nat {
    if 0 <= i < s.len() {
        s[i] as nat
    } else {
        0
    }
}

/// The number spelled by the `i` lowest digits of `s`.
pub open spec fn low_part(s: Seq<u8>, i: int) -> nat {
    if i <= 0 {
        0
    } else if i < s.len() {
        magnitude(s.take(i))
    } else {
        magnitude(s)
    }
}

/// A power of ten is never zero.
pub proof fn lemma_pow10_positive(n: nat)
    ensures
        pow10(n) > 0,
    decreases n,
{
    if n > 0 {
        lemma_pow10_positive((n - 1) as nat);
    }
}

/// Powers of ten multiply by adding their exponents.
pub proof fn lemma_pow10_sum(a: nat, b: nat)
    ensures
        pow10(a + b) == pow10(a) * pow10(b),
    decreases a,
{
    if a > 0 {
        lemma_pow10_sum((a - 1) as nat, b);
        let p = pow10((a - 1) as nat);
        let q = pow10(b);
        assert(pow10(a + b) == 10 * pow10((a + b - 1) as nat));
        assert((a + b - 1) as nat == (a - 1) as nat + b);
        assert(pow10(a) == 10 * p);
        assert(10 * (p * q) == (10 * p) * q) by (nonlinear_arith);
    } else {
        assert(pow10(a) == 1);
        assert(1 * pow10(b) == pow10(b));
    }
}

/// A digit added at the upper end counts at the place it takes.
pub proof fn lemma_magnitude_push(s: Seq<u8>, d: u8)
    ensures
        magnitude(s.push(d)) == magnitude(s) + d * pow10(s.len()),
{
    assert(s.push(d).drop_last() =~= s);
}

/// A number of `n` digits is below ten to the power `n`.
pub proof fn lemma_magnitude_below(s: Seq<u8>)
    requires
        all_digits(s),
    ensures
        magnitude(s) < pow10(s.len()),
    decreases s.len(),
{
    if s.len() > 0 {
        lemma_magnitude_below(s.drop_last());
        let p = pow10((s.len() - 1) as nat);
        let d = s.last() as nat;
        assert(d * p <= 9 * p) by (nonlinear_arith)
            requires
                d <= 9,
        ;
    }
}

/// One more digit of `s` adds that digit at its place.
pub proof fn lemma_low_part_step(s: Seq<u8>, i: int)
    requires
        0 <= i,
    ensures
        low_part(s, i + 1) == low_part(s, i) + digit_at(s, i) * pow10(i as nat),
{
    let p = pow10(i as nat);
    if i < s.len() {
        let upto = s.take(i + 1);
        assert(upto.drop_last() =~= s.take(i));
        assert(upto.last() == s[i]);
        assert(magnitude(upto) == magnitude(s.take(i)) + s[i] as nat * p);
        if i + 1 == s.len() {
            assert(upto =~= s);
        }
        if i == 0 {
            assert(magnitude(s.take(0)) == 0);
        }
    } else {
        assert(0 * p == 0);
    }
}

/// The `i` lowest digits of `s` spell a number below ten to the `i`.
pub proof fn lemma_low_part_below(s: Seq<u8>, i: int)
    requires
        all_digits(s),
        0 <= i,
    ensures
        low_part(s, i) < pow10(i as nat),
    decreases i,
{
    if i > 0 {
        lemma_low_part_below(s, i - 1);
        lemma_low_part_step(s, i - 1);
        let p = pow10((i - 1) as nat);
        let d = digit_at(s, i - 1);
        assert(d * p <= 9 * p) by (nonlinear_arith)
            requires
                d <= 9,
        ;
    }
}

/// The digits of `n`.
pub(crate) fn digits_of(n: u64) -> (out: Vec<u8>)
    ensures
        all_digits(out@),
        magnitude(out@) == n,
{
    let mut out: Vec<u8> = Vec::new();
    let mut rest: u64 = n;
    proof {
        assert(pow10(0) == 1);
        assert(rest * 1 == rest);
    }
    while rest > 0
        invariant
            all_digits(out@),
            magnitude(out@) + rest * pow10(out@.len()) == n,
        decreases rest,
    {
        let d: u8 = (rest % 10) as u8;
        proof {
            lemma_magnitude_push(out@, d);
            let p = pow10(out@.len());
            let q = (rest / 10) as nat;
            assert((10 * q + d) * p == d * p + q * (10 * p)) by (nonlinear_arith);
        }
        out.push(d);
        rest = rest / 10;
    }
    out
}

/// The digits of the sum of two numbers.
pub(crate) fn sum(a: &Vec<u8>, b: &Vec<u8>) -> (out: Vec<u8>)
    requires
        all_digits(a@),
        all_digits(b@),
    ensures
        all_digits(out@),
        magnitude(out@) == magnitude(a@) + magnitude(b@),
{
    let mut out: Vec<u8> = Vec::new();
    let mut carry: u8 = 0;
    let mut i: usize = 0;
    while i < a.len() || i < b.len() || carry > 0
        invariant
            all_digits(a@),
            all_digits(b@),
            all_digits(out@),
            out@.len() == i,
            carry <= 1,
            magnitude(out@) + carry * pow10(i as nat) == low_part(a@, i as int) + low_part(
                b@,
                i as int,
            ),
        decreases
                2 * (if i < a.len() { a.len() - i } else { 0 }) + 2 * (if i < b.len() {
                    b.len() - i
                } else {
                    0
                }) + carry,
    {
        let x: u8 = if i < a.len() { a[i] } else { 0 };
        let y: u8 = if i < b.len() { b[i] } else { 0 };
        let t: u8 = x + y + carry;
        let d: u8 = t % 10;
        proof {
            lemma_magnitude_push(out@, d);
            lemma_low_part_step(a@, i as int);
            lemma_low_part_step(b@, i as int);
            let p = pow10(i as nat);
            let c = (t / 10) as nat;
            assert(pow10((i + 1) as nat) == 10 * p);
            assert((x + y + carry) * p == x * p + y * p + carry * p) by (nonlinear_arith);
            assert((10 * c + d) * p == d * p + c * (10 * p)) by (nonlinear_arith);
        }
        out.push(d);
        carry = t / 10;
        i = out.len();
    }
    out
}

/// The digits of a number multiplied by the digit `d`.
pub(crate) fn scaled(a: &Vec<u8>, d: u8) -> (out: Vec<u8>)
    requires
        all_digits(a@),
        d < 10,
    ensures
        all_digits(out@),
        magnitude(out@) == magnitude(a@) * d,
{
    let mut out: Vec<u8> = Vec::new();
    let mut carry: u8 = 0;
    let mut i: usize = 0;
    proof {
        assert(0 * d == 0);
    }
    while i < a.len()
        invariant
            all_digits(a@),
            d < 10,
            all_digits(out@),
            out@.len() == i,
            i <= a.len(),
            carry <= 8,
            magnitude(out@) + carry * pow10(i as nat) == low_part(a@, i as int) * d,
        decreases a.len() - i,
    {
        let x: u8 = a[i];
        assert(x * d <= 81) by (nonlinear_arith)
            requires
                x <= 9,
                d <= 9,
        ;
        let t: u8 = x * d + carry;
        let low: u8 = t % 10;
        proof {
            lemma_magnitude_push(out@, low);
            lemma_low_part_step(a@, i as int);
            let p = pow10(i as nat);
            let c = (t / 10) as nat;
            let l = low_part(a@, i as int);
            assert(pow10((i + 1) as nat) == 10 * p);
            assert((10 * c + low) * p == low * p + c * (10 * p)) by (nonlinear_arith);
            assert((x * d + carry) * p == x * p * d + carry * p) by (nonlinear_arith);
            assert((l + x * p) * d == l * d + x * p * d) by (nonlinear_arith);
        }
        out.push(low);
        carry = t / 10;
        i = i + 1;
    }
    if carry > 0 {
        proof {
            lemma_magnitude_push(out@, carry);
        }
        out.push(carry);
    }
    out
}

/// The digits of a number multiplied by ten to the power `k`.
pub(crate) fn shifted(a: &Vec<u8>, k: usize) -> (out: Vec<u8>)
    requires
        all_digits(a@),
    ensures
        all_digits(out@),
        out@.len() == k + a@.len(),
        magnitude(out@) == magnitude(a@) * pow10(k as nat),
{
    let mut out: Vec<u8> = Vec::new();
    let mut i: usize = 0;
    while i < k
        invariant
            all_digits(out@),
            out@.len() == i,
            i <= k,
            magnitude(out@) == 0,
        decreases k - i,
    {
        proof {
            lemma_magnitude_push(out@, 0);
            assert(0 * pow10(i as nat) == 0);
        }
        out.push(0);
        i = i + 1;
    }
    let mut j: usize = 0;
    proof {
        assert(0 * pow10(k as nat) == 0);
    }
    while j < a.len()
        invariant
            all_digits(a@),
            all_digits(out@),
            out@.len() == k + j,
            j <= a.len(),
            magnitude(out@) == low_part(a@, j as int) * pow10(k as nat),
        decreases a.len() - j,
    {
        let x: u8 = a[j];
        proof {
            lemma_magnitude_push(out@, x);
            lemma_low_part_step(a@, j as int);
            lemma_pow10_sum(k as nat, j as nat);
            let p = pow10(k as nat);
            let q = pow10(j as nat);
            let l = low_part(a@, j as int);
            assert((l + x * q) * p == l * p + x * (p * q)) by (nonlinear_arith);
        }
        out.push(x);
        j = j + 1;
    }
    out
}

/// The digits of the product of two numbers.
pub(crate) fn product(a: &Vec<u8>, b: &Vec<u8>) -> (out: Vec<u8>)
    requires
        all_digits(a@),
        all_digits(b@),
    ensures
        all_digits(out@),
        magnitude(out@) == magnitude(a@) * magnitude(b@),
{
    let mut out: Vec<u8> = Vec::new();
    let mut j: usize = 0;
    proof {
        assert(magnitude(a@) * 0 == 0);
    }
    while j < b.len()
        invariant
            all_digits(a@),
            all_digits(b@),
            all_digits(out@),
            j <= b.len(),
            magnitude(out@) == magnitude(a@) * low_part(b@, j as int),
        decreases b.len() - j,
    {
        let y: u8 = b[j];
        let row = scaled(a, y);
        let placed = shifted(&row, j);
        proof {
            lemma_low_part_step(b@, j as int);
            let m = magnitude(a@);
            let l = low_part(b@, j as int);
            let q = pow10(j as nat);
            assert(m * (l + y * q) == m * l + (m * y) * q) by (nonlinear_arith);
        }
        out = sum(&out, &placed);
        j = j + 1;
    }
    out
}

/// How one number stands to another.
pub enum Relation {
    Below,
    Level,
    Above,
}

/// How the number spelled by `a` stands to the number spelled by `b`.
pub(crate) fn relate(a: &Vec<u8>, b: &Vec<u8>) -> (r: Relation)
    requires
        all_digits(a@),
        all_digits(b@),
    ensures
        r is Below <==> magnitude(a@) < magnitude(b@),
        r is Level <==> magnitude(a@) == magnitude(b@),
        r is Above <==> magnitude(a@) > magnitude(b@),
{
    let mut r = Relation::Level;
    let mut i: usize = 0;
    while i < a.len() || i < b.len()
        invariant
            all_digits(a@),
            all_digits(b@),
            r is Below <==> low_part(a@, i as int) < low_part(b@, i as int),
            r is Level <==> low_part(a@, i as int) == low_part(b@, i as int),
            r is Above <==> low_part(a@, i as int) > low_part(b@, i as int),
        decreases
                (if i < a.len() { a.len() - i } else { 0 }) + (if i < b.len() {
                    b.len() - i
                } else {
                    0
                }),
    {
        let x: u8 = if i < a.len() { a[i] } else { 0 };
        let y: u8 = if i < b.len() { b[i] } else { 0 };
        proof {
            lemma_low_part_step(a@, i as int);
            lemma_low_part_step(b@, i as int);
            lemma_low_part_below(a@, i as int);
            lemma_low_part_below(b@, i as int);
            let p = pow10(i as nat);
            if x < y {
                assert(x * p + p <= y * p) by (nonlinear_arith)
                    requires
                        x + 1 <= y,
                        p >= 0,
                ;
            }
            if y < x {
                assert(y * p + p <= x * p) by (nonlinear_arith)
                    requires
                        y + 1 <= x,
                        p >= 0,
                ;
            }
        }
        if x < y {
            r = Relation::Below;
        } else if y < x {
            r = Relation::Above;
        }
        i = i + 1;
    }
    r
}

/// Digits set side by side: the upper ones count from the place where the
/// lower ones end.
pub proof fn lemma_magnitude_concat(a: Seq<u8>, b: Seq<u8>)
    ensures
        magnitude(a + b) == magnitude(a) + pow10(a.len()) * magnitude(b),
    decreases b.len(),
{
    let p = pow10(a.len());
    if b.len() == 0 {
        assert(a + b =~= a);
        assert(p * 0 == 0);
    } else {
        let front = b.drop_last();
        lemma_magnitude_concat(a, front);
        assert((a + b).drop_last() =~= a + front);
        assert((a + b).last() == b.last());
        lemma_pow10_sum(a.len(), front.len());
        let q = pow10(front.len());
        let d = b.last() as nat;
        let m = magnitude(front);
        assert(p * (m + d * q) == p * m + d * (p * q)) by (nonlinear_arith);
    }
}

/// The lowest digit stands alone, the others count ten times.
pub proof fn lemma_magnitude_lowest(s: Seq<u8>)
    requires
        s.len() > 0,
    ensures
        magnitude(s) == s[0] + 10 * magnitude(s.skip(1)),
{
    let one = seq![s[0]];
    assert(one + s.skip(1) =~= s);
    lemma_magnitude_concat(one, s.skip(1));
    assert(one.drop_last() =~= Seq::<u8>::empty());
    assert(pow10(0) == 1);
    assert(pow10(1) == 10 * pow10(0));
    assert(magnitude(one.drop_last()) == 0);
    assert(magnitude(one) == magnitude(one.drop_last()) + one.last() as nat * pow10(0));
    assert(one.last() as nat * 1 == s[0]);
    assert(one.len() == 1);
}

/// The digits of `a` with zeros added at the upper end until there are at
/// least `n` of them.
pub(crate) fn padded(a: Vec<u8>, n: usize) -> (out: Vec<u8>)
    requires
        all_digits(a@),
    ensures
        all_digits(out@),
        out@.len() >= n,
        out@.len() >= a@.len(),
        magnitude(out@) == magnitude(a@),
{
    let mut out = a;
    while out.len() < n
        invariant
            all_digits(out@),
            out@.len() >= a@.len(),
            magnitude(out@) == magnitude(a@),
        decreases n - out.len(),
    {
        proof {
            lemma_magnitude_push(out@, 0);
            assert(0 * pow10(out@.len()) == 0);
        }
        out.push(0);
    }
    out
}

/// The `k` lowest digits of `a`, and the others.
pub(crate) fn parted(a: &Vec<u8>, k: usize) -> (parts: (Vec<u8>, Vec<u8>))
    requires
        k <= a.len(),
    ensures
        parts.0@ == a@.take(k as int),
        parts.1@ == a@.skip(k as int),
{
    let mut low: Vec<u8> = Vec::new();
    let mut high: Vec<u8> = Vec::new();
    let mut i: usize = 0;
    while i < k
        invariant
            i <= k,
            k <= a.len(),
            low@ == a@.take(i as int),
        decreases k - i,
    {
        low.push(a[i]);
        i = i + 1;
        assert(low@ =~= a@.take(i as int));
    }
    while i < a.len()
        invariant
            k <= i,
            i <= a.len(),
            low@ == a@.take(k as int),
            high@ == a@.subrange(k as int, i as int),
        decreases a.len() - i,
    {
        high.push(a[i]);
        i = i + 1;
        assert(high@ =~= a@.subrange(k as int, i as int));
    }
    assert(high@ =~= a@.skip(k as int));
    (low, high)
}

/// `v` divided by ten to the power `k`, rounded to the nearest whole number,
/// and to the even one where two are equally near.
pub open spec fn round_half_even(v: nat, k: nat) -> nat {
    let unit = pow10(k);
    let whole = v / unit;
    let left = v % unit;
    if 2 * left > unit || (2 * left == unit && whole % 2 == 1) {
        whole + 1
    } else {
        whole
    }
}

/// The digits of a number divided by ten to the power `k` and rounded half
/// to even.
pub(crate) fn rounded(a: &Vec<u8>, k: usize) -> (out: Vec<u8>)
    requires
        all_digits(a@),
        k <= a.len(),
    ensures
        all_digits(out@),
        magnitude(out@) == round_half_even(magnitude(a@), k as nat),
{
    let (low, high) = parted(a, k);
    let mut one: Vec<u8> = Vec::new();
    one.push(1);
    proof {
        lemma_magnitude_push(Seq::<u8>::empty(), 1);
        assert(one@ =~= Seq::<u8>::empty().push(1u8));
        assert(pow10(0) == 1);
        assert(magnitude(one@) == 1);
        assert(low@ + high@ =~= a@);
        lemma_magnitude_concat(low@, high@);
        lemma_magnitude_below(low@);
        lemma_pow10_positive(k as nat);
        let unit = pow10(k as nat);
        assert(magnitude(high@) * unit == unit * magnitude(high@)) by (nonlinear_arith);
        lemma_fundamental_div_mod_converse(
            magnitude(a@) as int,
            unit as int,
            magnitude(high@) as int,
            magnitude(low@) as int,
        );
        if high@.len() > 0 {
            lemma_magnitude_lowest(high@);
        }
        assert(1 * unit == unit);
    }
    let twice = sum(&low, &low);
    let unit_digits = shifted(&one, k);
    let up = match relate(&twice, &unit_digits) {
        Relation::Above => true,
        Relation::Level => high.len() > 0 && high[0] % 2 == 1,
        Relation::Below => false,
    };
    if up {
        sum(&high, &one)
    } else {
        high
    }
}

} // verus!
