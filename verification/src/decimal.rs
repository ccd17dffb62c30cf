//! Decimal notation: reading an optionally signed integer and writing a
//! natural number, with the proof that reading undoes writing.

use vstd::prelude::*;
use vstd::string::*;
use crate::error::ParseError;

verus! {

/// `c` is one of `0` to `9`.
pub open spec fn is_digit(c: char) -> bool {
    '0' <= c <= '9'
}

/// The number that the digit `c` stands for.
pub open spec fn digit_value(c: char) -> int {
    c as int - '0' as int
}

/// Every character of `s` is a digit.
pub open spec fn all_digits(s: Seq<char>) -> bool {
    forall|i: int| 0 <= i < s.len() ==> is_digit(#[trigger] s[i])
}

/// The number written by the digits `s`, most significant first.
pub open spec fn digits_value(s: Seq<char>) -> nat
    decreases s.len(),
{
    if s.len() == 0 {
        0
    } else {
        (digits_value(s.drop_last()) * 10 + digit_value(s.last())) as nat
    }
}

/// The integer written by `s`: an optional `+` or `-`, then at least one
/// digit. `None` where `s` is not of that shape.
pub open spec fn signed_decimal(s: Seq<char>) -> Option<int> {
    if s.len() > 0 && (s[0] == '+' || s[0] == '-') {
        let digits = s.subrange(1, s.len() as int);
        if digits.len() > 0 && all_digits(digits) {
            Some(
                if s[0] == '-' {
                    -(digits_value(digits) as int)
                } else {
                    digits_value(digits) as int
                },
            )
        } else {
            None
        }
    } else if s.len() > 0 && all_digits(s) {
        Some(digits_value(s) as int)
    } else {
        None
    }
}

/// What reading `s` as an `i32` gives.
pub open spec fn number_field(s: Seq<char>) -> Result<i32, ParseError> {
    match signed_decimal(s) {
        None => Err(ParseError::InvalidNumber),
        Some(v) => if i32::MIN <= v <= i32::MAX {
            Ok(v as i32)
        } else {
            Err(ParseError::OutOfRange)
        },
    }
}

/// Appending a digit multiplies by ten and adds it.
pub proof fn lemma_digits_value_push(s: Seq<char>, c: char)
    ensures
        digits_value(s.push(c)) == (digits_value(s) * 10 + digit_value(c)) as nat,
{
    assert(s.push(c).drop_last() =~= s);
    assert(s.push(c).last() == c);
}

/// Reads the characters `text[start..end]` as an `i32`.
#[verifier::loop_isolation(false)]
pub fn parse_number(text: &Vec<char>, start: usize, end: usize) -> (r: Result<i32, ParseError>)
    requires
        start <= end <= text.len(),
    ensures
        r == number_field(text@.subrange(start as int, end as int)),
{
    let ghost field = text@.subrange(start as int, end as int);
    if start == end {
        return Err(ParseError::InvalidNumber);
    }
    let first = text[start];
    let signed = first == '+' || first == '-';
    let negative = first == '-';
    let from: usize = if signed {
        start + 1
    } else {
        start
    };
    let ghost digits = text@.subrange(from as int, end as int);
    assert(signed ==> digits =~= field.subrange(1, field.len() as int));
    assert(!signed ==> digits =~= field);
    assert(field[0] == first);
    if from == end {
        return Err(ParseError::InvalidNumber);
    }
    let mut acc: i64 = 0;
    let mut too_large = false;
    let mut i: usize = from;
    while i < end
        invariant
            from <= i <= end <= text.len(),
            digits == text@.subrange(from as int, end as int),
            all_digits(text@.subrange(from as int, i as int)),
            !too_large ==> acc == digits_value(text@.subrange(from as int, i as int)) && acc
                <= 2147483648,
            too_large ==> digits_value(text@.subrange(from as int, i as int)) > 2147483648,
        decreases end - i,
    {
        let c = text[i];
        if !(c >= '0' && c <= '9') {
            assert(digits[i - from] == c);
            assert(!all_digits(digits));
            return Err(ParseError::InvalidNumber);
        }
        let ghost before = text@.subrange(from as int, i as int);
        proof {
            assert(text@.subrange(from as int, i + 1) =~= before.push(c));
            lemma_digits_value_push(before, c);
        }
        if !too_large {
            acc = acc * 10 + ((c as u32) - ('0' as u32)) as i64;
            if acc > 2147483648 {
                too_large = true;
            }
        }
        i = i + 1;
    }
    assert(text@.subrange(from as int, i as int) =~= digits);
    if too_large {
        return Err(ParseError::OutOfRange);
    }
    let value: i64 = if negative {
        -acc
    } else {
        acc
    };
    if value < -2147483648 || value > 2147483647 {
        Err(ParseError::OutOfRange)
    } else {
        Ok(value as i32)
    }
}

/// The digit that stands for `d`, for `d` from 0 to 9.
pub open spec fn digit_char(d: int) -> char {
    if d == 0 {
        '0'
    } else if d == 1 {
        '1'
    } else if d == 2 {
        '2'
    } else if d == 3 {
        '3'
    } else if d == 4 {
        '4'
    } else if d == 5 {
        '5'
    } else if d == 6 {
        '6'
    } else if d == 7 {
        '7'
    } else if d == 8 {
        '8'
    } else {
        '9'
    }
}

/// `n` in decimal notation, without leading zeros.
pub open spec fn decimal(n: nat) -> Seq<char>
    decreases n,
{
    if n < 10 {
        seq![digit_char(n as int)]
    } else {
        decimal(n / 10).push(digit_char((n % 10) as int))
    }
}

/// `n` in decimal notation, with a leading zero where it has one digit.
pub open spec fn padded(n: nat) -> Seq<char> {
    if n < 100 {
        seq![digit_char((n / 10) as int), digit_char((n % 10) as int)]
    } else {
        decimal(n)
    }
}

/// A digit character reads back as the number it was written for.
pub proof fn lemma_digit_char(d: int)
    requires
        0 <= d <= 9,
    ensures
        is_digit(digit_char(d)),
        digit_value(digit_char(d)) == d,
        digit_char(d) != '+',
        digit_char(d) != '-',
        digit_char(d) != ':',
{
}

/// Decimal notation is a non-empty run of digits whose value is the number.
pub proof fn lemma_decimal_digits(n: nat)
    ensures
        decimal(n).len() > 0,
        all_digits(decimal(n)),
        digits_value(decimal(n)) == n,
    decreases n,
{
    if n < 10 {
        lemma_digit_char(n as int);
        lemma_digits_value_push(Seq::<char>::empty(), digit_char(n as int));
        assert(Seq::<char>::empty().push(digit_char(n as int)) =~= decimal(n));
    } else {
        lemma_decimal_digits(n / 10);
        lemma_digit_char((n % 10) as int);
        lemma_digits_value_push(decimal(n / 10), digit_char((n % 10) as int));
    }
}

/// Padded notation is a run of at least two digits whose value is the number.
pub proof fn lemma_padded_digits(n: nat)
    ensures
        padded(n).len() >= 2,
        all_digits(padded(n)),
        digits_value(padded(n)) == n,
{
    if n < 100 {
        let high = digit_char((n / 10) as int);
        let low = digit_char((n % 10) as int);
        lemma_digit_char((n / 10) as int);
        lemma_digit_char((n % 10) as int);
        lemma_digits_value_push(Seq::<char>::empty(), high);
        lemma_digits_value_push(seq![high], low);
        assert(Seq::<char>::empty().push(high) =~= seq![high]);
        assert(seq![high].push(low) =~= padded(n));
        assert(n == 10 * (n / 10) + n % 10);
    } else {
        lemma_decimal_digits(n);
        lemma_decimal_digits(n / 10);
    }
}

/// Reading undoes writing: the decimal notation of `n` reads back as `n`.
pub proof fn lemma_decimal_reads_back(n: nat)
    ensures
        signed_decimal(decimal(n)) == Some(n as int),
{
    lemma_decimal_digits(n);
    assert(is_digit(decimal(n)[0]));
}

/// The one-character text of a digit.
fn digit_text(d: u64) -> (t: &'static str)
    requires
        d < 10,
    ensures
        t@ == seq![digit_char(d as int)],
{
    proof {
        reveal_strlit("0");
        reveal_strlit("1");
        reveal_strlit("2");
        reveal_strlit("3");
        reveal_strlit("4");
        reveal_strlit("5");
        reveal_strlit("6");
        reveal_strlit("7");
        reveal_strlit("8");
        reveal_strlit("9");
    }
    let t = if d == 0 {
        "0"
    } else if d == 1 {
        "1"
    } else if d == 2 {
        "2"
    } else if d == 3 {
        "3"
    } else if d == 4 {
        "4"
    } else if d == 5 {
        "5"
    } else if d == 6 {
        "6"
    } else if d == 7 {
        "7"
    } else if d == 8 {
        "8"
    } else {
        "9"
    };
    assert(t@ =~= seq![digit_char(d as int)]);
    t
}

/// Appends `n` in decimal notation to `out`.
pub fn push_decimal(out: &mut String, n: u64)
    ensures
        final(out)@ == old(out)@ + decimal(n as nat),
    decreases n,
{
    if n >= 10 {
        push_decimal(out, n / 10);
    }
    out.append(digit_text(n % 10));
    assert(out@ =~= old(out)@ + decimal(n as nat));
}

/// Appends `n` to `out` in decimal notation, with a leading zero where it has
/// one digit.
pub fn push_padded(out: &mut String, n: u64)
    ensures
        final(out)@ == old(out)@ + padded(n as nat),
{
    if n < 100 {
        out.append(digit_text(n / 10));
        out.append(digit_text(n % 10));
        assert(out@ =~= old(out)@ + padded(n as nat));
    } else {
        push_decimal(out, n);
    }
}

} // verus!
