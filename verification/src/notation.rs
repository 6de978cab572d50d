//! Numbers as text: writing a numeral, and reading runs of digit characters.

use crate::digits::{all_digits, lemma_magnitude_lowest, magnitude, padded, parted};
use vstd::prelude::*;
use vstd::string::StrSliceExecFns;
use vstd::string::StringExecFns;

verus! {

/// The character that writes the digit `d`.
pub open spec fn digit_char(d: nat) -> char {
    if d == 0 {
        '0'
    } else if d == 1 {
        '1'
    } else if d == 2 {
        '2'
    } else if d == 3 {
        '3'
    } else if d == 4 {
        '4'
    } else if d == 5 {
        '5'
    } else if d == 6 {
        '6'
    } else if d == 7 {
        '7'
    } else if d == 8 {
        '8'
    } else {
        '9'
    }
}

/// The decimal numeral of `n`: no leading zero, and "0" for zero.
pub open spec fn numeral(n: nat) -> Seq<char>
    decreases n,
{
    if n < 10 {
        seq![digit_char(n)]
    } else {
        numeral(n / 10).push(digit_char(n % 10))
    }
}

/// A numeral has at least one character, and all of them are digits.
pub proof fn lemma_numeral_digits(n: nat)
    ensures
        numeral(n).len() >= 1,
        forall|i: int| 0 <= i < numeral(n).len() ==> is_digit_char(#[trigger] numeral(n)[i]),
    decreases n,
{
    if n >= 10 {
        lemma_numeral_digits(n / 10);
    }
}

/// The text of one digit.
pub(crate) fn digit_text(d: u8) -> (text: &'static str)
    requires
        d < 10,
    ensures
        text@ == seq![digit_char(d as nat)],
{
    proof {
        reveal_strlit("0");
        reveal_strlit("1");
        reveal_strlit("2");
        reveal_strlit("3");
        reveal_strlit("4");
        reveal_strlit("5");
        reveal_strlit("6");
        reveal_strlit("7");
        reveal_strlit("8");
        reveal_strlit("9");
    }
    let text = if d == 0 {
        "0"
    } else if d == 1 {
        "1"
    } else if d == 2 {
        "2"
    } else if d == 3 {
        "3"
    } else if d == 4 {
        "4"
    } else if d == 5 {
        "5"
    } else if d == 6 {
        "6"
    } else if d == 7 {
        "7"
    } else if d == 8 {
        "8"
    } else {
        "9"
    };
    assert(text@ =~= seq![digit_char(d as nat)]);
    text
}

/// Writes the numeral of the number spelled by `a` at the end of `text`.
pub(crate) fn write_numeral(text: &mut String, a: &Vec<u8>)
    requires
        all_digits(a@),
    ensures
        final(text)@ == old(text)@ + numeral(magnitude(a@)),
{
    let ghost base = text@;
    let mut started = false;
    let mut i: usize = a.len();
    proof {
        assert(a@.skip(a@.len() as int) =~= Seq::<u8>::empty());
    }
    while i > 0
        invariant
            all_digits(a@),
            i <= a.len(),
            started ==> text@ == base + numeral(magnitude(a@.skip(i as int))) && magnitude(
                a@.skip(i as int),
            ) > 0,
            !started ==> text@ == base && magnitude(a@.skip(i as int)) == 0,
        decreases i,
    {
        i = i - 1;
        let d: u8 = a[i];
        proof {
            let upper = a@.skip(i as int);
            lemma_magnitude_lowest(upper);
            assert(upper.skip(1) =~= a@.skip(i + 1));
            assert(upper[0] == d);
        }
        if started || d > 0 {
            text.append(digit_text(d));
            proof {
                let above = magnitude(a@.skip(i + 1));
                let here = magnitude(a@.skip(i as int));
                if started {
                    assert(here / 10 == above);
                    assert(here % 10 == d);
                    assert(text@ =~= base + numeral(above).push(digit_char(d as nat)));
                } else {
                    assert(here == d);
                    assert(text@ =~= base + seq![digit_char(d as nat)]);
                }
            }
            started = true;
        }
    }
    if !started {
        text.append(digit_text(0));
        proof {
            assert(a@.skip(0) =~= a@);
        }
    } else {
        proof {
            assert(a@.skip(0) =~= a@);
        }
    }
}

/// Writes a number of hundredths at the end of `text`: the numeral of the
/// whole part, a point, and the two digits of the hundredths left over.
pub(crate) fn write_hundredths(text: &mut String, hundredths: Vec<u8>)
    requires
        all_digits(hundredths@),
    ensures
        final(text)@ == old(text)@ + numeral(magnitude(hundredths@) / 100) + seq![
            '.',
            digit_char(magnitude(hundredths@) / 10 % 10),
            digit_char(magnitude(hundredths@) % 10),
        ],
{
    let ghost amount = magnitude(hundredths@);
    let places = padded(hundredths, 2);
    let (_, whole) = parted(&places, 2);
    let tenths: u8 = places[1];
    let last: u8 = places[0];
    proof {
        lemma_magnitude_lowest(places@);
        lemma_magnitude_lowest(places@.skip(1));
        assert(places@.skip(1).skip(1) =~= places@.skip(2));
        assert(places@.skip(1)[0] == places@[1]);
        assert(amount == last + 10 * (tenths + 10 * magnitude(whole@)));
        assert(amount % 10 == last);
        assert(amount / 10 == tenths + 10 * magnitude(whole@));
        assert(amount / 10 % 10 == tenths);
        assert(amount / 100 == magnitude(whole@));
        reveal_strlit(".");
    }
    let ghost base = text@;
    write_numeral(text, &whole);
    text.append(".");
    text.append(digit_text(tenths));
    text.append(digit_text(last));
    proof {
        assert(text@ =~= base + numeral(amount / 100) + seq![
            '.',
            digit_char(amount / 10 % 10),
            digit_char(amount % 10),
        ]);
    }
}

/// The character `c` writes a digit.
pub open spec fn is_digit_char(c: char) -> bool {
    c == '0' || c == '1' || c == '2' || c == '3' || c == '4' || c == '5' || c == '6' || c == '7'
        || c == '8' || c == '9'
}

/// The digit that the character `c` writes, zero for any other character.
pub open spec fn char_digit(c: char) -> u8 {
    if c == '1' {
        1
    } else if c == '2' {
        2
    } else if c == '3' {
        3
    } else if c == '4' {
        4
    } else if c == '5' {
        5
    } else if c == '6' {
        6
    } else if c == '7' {
        7
    } else if c == '8' {
        8
    } else if c == '9' {
        9
    } else {
        0
    }
}

/// How many digit characters stand at the start of `s`.
pub open spec fn digit_run(s: Seq<char>) -> nat
    decreases s.len(),
{
    if s.len() > 0 && is_digit_char(s[0]) {
        1 + digit_run(s.skip(1))
    } else {
        0
    }
}

/// The digits that the characters of `s` write, one for one.
pub open spec fn digit_values(s: Seq<char>) -> Seq<u8> {
    Seq::new(s.len(), |i: int| char_digit(s[i]))
}

/// The number that the digit characters of `s` spell, read as a numeral.
pub open spec fn numeral_value(s: Seq<char>) -> nat {
    magnitude(digit_values(s).reverse())
}

/// The digit that `c` writes, if it writes one.
pub(crate) fn digit_of(c: char) -> (d: Option<u8>)
    ensures
        d is Some <==> is_digit_char(c),
        d matches Some(v) ==> v == char_digit(c) && v < 10,
{
    if c == '0' {
        Some(0)
    } else if c == '1' {
        Some(1)
    } else if c == '2' {
        Some(2)
    } else if c == '3' {
        Some(3)
    } else if c == '4' {
        Some(4)
    } else if c == '5' {
        Some(5)
    } else if c == '6' {
        Some(6)
    } else if c == '7' {
        Some(7)
    } else if c == '8' {
        Some(8)
    } else if c == '9' {
        Some(9)
    } else {
        None
    }
}

/// Reads the digit characters of `text` that start at `from` and adds the
/// digits they write to `into`. Returns the place where they end.
pub(crate) fn read_digits(text: &str, from: usize, into: &mut Vec<u8>) -> (end: usize)
    requires
        from <= text@.len(),
        all_digits(old(into)@),
    ensures
        end == from + digit_run(text@.skip(from as int)),
        end <= text@.len(),
        all_digits(final(into)@),
        final(into)@ == old(into)@ + digit_values(text@.subrange(from as int, end as int)),
{
    let n = text.unicode_len();
    let ghost base = into@;
    let mut at: usize = from;
    proof {
        assert(digit_values(text@.subrange(from as int, from as int)) =~= Seq::<u8>::empty());
        assert(base + Seq::<u8>::empty() =~= base);
    }
    loop
        invariant
            n == text@.len(),
            from <= at <= n,
            all_digits(into@),
            into@ == base + digit_values(text@.subrange(from as int, at as int)),
            digit_run(text@.skip(from as int)) == (at - from) + digit_run(text@.skip(at as int)),
        ensures
            from <= at <= n,
            all_digits(into@),
            into@ == base + digit_values(text@.subrange(from as int, at as int)),
            digit_run(text@.skip(from as int)) == at - from,
        decreases n - at,
    {
        if at >= n {
            break ;
        }
        let d = digit_of(text.get_char(at));
        proof {
            assert(text@.skip(at as int)[0] == text@[at as int]);
            assert(text@.skip(at as int).skip(1) =~= text@.skip(at + 1));
        }
        match d {
            None => {
                break ;
            },
            Some(v) => {
                into.push(v);
                proof {
                    assert(into@ =~= base + digit_values(
                        text@.subrange(from as int, at + 1),
                    ));
                }
                at = at + 1;
            },
        }
    }
    at
}

/// The elements of `a` in the opposite order.
pub(crate) fn reversed(a: &Vec<u8>) -> (out: Vec<u8>)
    ensures
        out@ == a@.reverse(),
        all_digits(a@) ==> all_digits(out@),
{
    let mut out: Vec<u8> = Vec::new();
    let mut i: usize = a.len();
    while i > 0
        invariant
            i <= a.len(),
            out@.len() == a.len() - i,
            forall|j: int| 0 <= j < out@.len() ==> out@[j] == a@[a.len() - 1 - j],
        decreases i,
    {
        i = i - 1;
        out.push(a[i]);
    }
    assert(out@ =~= a@.reverse());
    out
}

} // verus!
