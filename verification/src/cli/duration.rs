//! The duration grammar, as a mathematical function from the characters of a
//! string to a count of seconds.
//!
//! Two shapes are read. Colon-separated: up to three fields, weighed from the
//! right as seconds, minutes and hours (`1:30:00`, `2:05`, `90`). Suffixed:
//! any of the units `h`, `m` and `s`, each at most once and in any order, each
//! behind its number (`1h30m`, `45s10m`). A field is an optionally signed run
//! of decimal digits that fits an `i32`.

use vstd::prelude::*;
use crate::counter::{
    clock_of, clock_text, hours_of, lemma_fields_recompose, minutes_of, seconds_of,
};
use crate::decimal::{
    all_digits, decimal, is_digit, lemma_decimal_digits, lemma_padded_digits, number_field, padded,
    signed_decimal,
};
use crate::error::ParseError;

verus! {

/// `c` is one of the unit suffixes.
pub open spec fn is_unit(c: char) -> bool {
    c == 'h' || c == 'm' || c == 's'
}

/// Seconds in one unit of the suffix `c`.
pub open spec fn unit_seconds(c: char) -> int {
    if c == 'h' {
        3600
    } else if c == 'm' {
        60
    } else {
        1
    }
}

/// The fields of `s` between its colons, left to right. There is always at
/// least one field, and a field may be empty.
pub open spec fn split_colons(s: Seq<char>) -> Seq<Seq<char>>
    decreases s.len(),
{
    if s.len() == 0 {
        seq![Seq::<char>::empty()]
    } else {
        let before = split_colons(s.drop_last());
        if s.last() == ':' {
            before.push(Seq::<char>::empty())
        } else {
            before.update(before.len() - 1, before.last().push(s.last()))
        }
    }
}

/// The seconds that colon-separated fields stand for: each field counts sixty
/// times the one to its right. The rightmost field that is no number decides
/// the error.
pub open spec fn fields_total(fields: Seq<Seq<char>>) -> Result<int, ParseError>
    decreases fields.len(),
{
    if fields.len() == 0 {
        Ok(0)
    } else {
        match number_field(fields.last()) {
            Err(e) => Err(e),
            Ok(v) => match fields_total(fields.drop_last()) {
                Err(e) => Err(e),
                Ok(left) => Ok(left * 60 + v),
            },
        }
    }
}

/// The seconds that a colon-separated string stands for. More than three
/// fields are no duration.
pub open spec fn colon_total(s: Seq<char>) -> Result<int, ParseError> {
    let fields = split_colons(s);
    if fields.len() > 3 {
        Err(ParseError::FormatNotRecognized)
    } else {
        fields_total(fields)
    }
}

/// Position of the first unit suffix in `s` that is not in `used`; the length
/// of `s` where there is none.
pub open spec fn first_suffix(s: Seq<char>, used: Set<char>) -> nat
    decreases s.len(),
{
    if s.len() == 0 {
        0
    } else if is_unit(s[0]) && !used.contains(s[0]) {
        0
    } else {
        1 + first_suffix(s.drop_first(), used)
    }
}

/// The seconds that a suffixed string stands for, given the units already
/// `used` to its left. A unit that comes a second time is no suffix: it stays
/// in the number that follows, which then is no number. Characters behind the
/// last suffix are an error.
pub open spec fn units_total(s: Seq<char>, used: Set<char>) -> Result<int, ParseError>
    decreases s.len(),
{
    let at = first_suffix(s, used);
    if s.len() == 0 {
        Ok(0)
    } else if at >= s.len() {
        Err(ParseError::FormatNotRecognized)
    } else {
        match number_field(s.subrange(0, at as int)) {
            Err(e) => Err(e),
            Ok(v) => match units_total(
                s.subrange(at as int + 1, s.len() as int),
                used.insert(s[at as int]),
            ) {
                Err(e) => Err(e),
                Ok(rest) => Ok(v * unit_seconds(s[at as int]) + rest),
            },
        }
    }
}

/// `s` holds a unit suffix.
pub open spec fn has_unit(s: Seq<char>) -> bool {
    first_suffix(s, Set::<char>::empty()) < s.len()
}

/// The seconds that `s` stands for, before the result is fitted to the
/// counter. A string with a colon is colon-separated. One without colon and
/// without unit is a plain number of seconds. Any other is suffixed; the empty
/// string is the suffixed string with no unit, and stands for zero.
pub open spec fn duration_total(s: Seq<char>) -> Result<int, ParseError> {
    if s.contains(':') {
        colon_total(s)
    } else if s.len() > 0 && !has_unit(s) {
        match signed_decimal(s) {
            Some(v) => Ok(v),
            None => Err(ParseError::FormatNotRecognized),
        }
    } else {
        units_total(s, Set::<char>::empty())
    }
}

/// The seconds that the duration string `s` stands for, or why it is refused.
pub open spec fn duration_seconds(s: Seq<char>) -> Result<i32, ParseError> {
    match duration_total(s) {
        Err(e) => Err(e),
        Ok(total) => if i32::MIN <= total <= i32::MAX {
            Ok(total as i32)
        } else {
            Err(ParseError::OutOfRange)
        },
    }
}

/// `s` holds no colon.
pub open spec fn colon_free(s: Seq<char>) -> bool {
    forall|i: int| 0 <= i < s.len() ==> s[i] != ':'
}

/// `s` holds no unit character.
pub open spec fn unit_free(s: Seq<char>) -> bool {
    forall|i: int| 0 <= i < s.len() ==> !is_unit(#[trigger] s[i])
}

/// What a number is written with is neither a colon nor a unit.
pub proof fn lemma_number_is_plain(s: Seq<char>)
    requires
        signed_decimal(s) is Some,
    ensures
        colon_free(s),
        unit_free(s),
        s.len() > 0,
{
    if s[0] == '+' || s[0] == '-' {
        let digits = s.subrange(1, s.len() as int);
        assert forall|i: int| 0 <= i < s.len() implies s[i] != ':' && !is_unit(s[i]) by {
            if i > 0 {
                assert(is_digit(digits[i - 1]));
            }
        }
    } else {
        assert forall|i: int| 0 <= i < s.len() implies s[i] != ':' && !is_unit(s[i]) by {
            assert(is_digit(s[i]));
        }
    }
}

/// A string without colon is one field.
pub proof fn lemma_split_single(f: Seq<char>)
    requires
        colon_free(f),
    ensures
        split_colons(f) == seq![f],
    decreases f.len(),
{
    if f.len() == 0 {
        assert(f =~= Seq::<char>::empty());
    } else {
        lemma_split_single(f.drop_last());
        assert(f.drop_last().push(f.last()) =~= f);
        assert(seq![f.drop_last()].update(0, f) =~= seq![f]);
    }
}

/// A colon and a field behind a string add that field to its fields.
pub proof fn lemma_split_push(a: Seq<char>, f: Seq<char>)
    requires
        colon_free(f),
    ensures
        split_colons(a + seq![':'] + f) == split_colons(a).push(f),
    decreases f.len(),
{
    let s = a + seq![':'] + f;
    if f.len() == 0 {
        assert(s.drop_last() =~= a);
        assert(s.last() == ':');
        assert(f =~= Seq::<char>::empty());
    } else {
        lemma_split_push(a, f.drop_last());
        assert(s.drop_last() =~= a + seq![':'] + f.drop_last());
        assert(s.last() == f.last());
        assert(f.drop_last().push(f.last()) =~= f);
        let before = split_colons(a).push(f.drop_last());
        assert(before.update(before.len() - 1, f) =~= split_colons(a).push(f));
    }
}

/// Behind characters that are no unit, the first suffix is the first suffix
/// of what follows.
pub proof fn lemma_first_suffix_skips(a: Seq<char>, b: Seq<char>, used: Set<char>)
    requires
        unit_free(a),
    ensures
        first_suffix(a + b, used) == a.len() + first_suffix(b, used),
    decreases a.len(),
{
    if a.len() == 0 {
        assert(a + b =~= b);
    } else {
        assert((a + b)[0] == a[0]);
        assert(!is_unit(a[0]));
        assert((a + b).drop_first() =~= a.drop_first() + b);
        assert forall|i: int| 0 <= i < a.drop_first().len() implies !is_unit(
            #[trigger] a.drop_first()[i],
        ) by {
            assert(a.drop_first()[i] == a[i + 1]);
        }
        lemma_first_suffix_skips(a.drop_first(), b, used);
    }
}

/// A number behind a unit that was not used yet counts in that unit, and the
/// rest is read with the unit used.
pub proof fn lemma_suffixed_field(field: Seq<char>, unit: char, rest: Seq<char>, used: Set<char>)
    requires
        number_field(field) is Ok,
        is_unit(unit),
        !used.contains(unit),
    ensures
        units_total(field + seq![unit] + rest, used) == (match units_total(
            rest,
            used.insert(unit),
        ) {
            Err(e) => Err(e),
            Ok(v) => Ok(number_field(field)->Ok_0 * unit_seconds(unit) + v),
        }),
{
    let s = field + seq![unit] + rest;
    lemma_number_is_plain(field);
    lemma_first_suffix_skips(field, seq![unit] + rest, used);
    assert(s =~= field + (seq![unit] + rest));
    assert((seq![unit] + rest)[0] == unit);
    assert(first_suffix(seq![unit] + rest, used) == 0);
    let at = field.len() as int;
    assert(s[at] == unit);
    assert(s.subrange(0, at) =~= field);
    assert(s.subrange(at + 1, s.len() as int) =~= rest);
}

/// A number alone is that many seconds.
pub proof fn lemma_plain_seconds(a: Seq<char>)
    requires
        signed_decimal(a) is Some,
    ensures
        duration_total(a) == Ok::<int, ParseError>(signed_decimal(a)->Some_0),
{
    lemma_number_is_plain(a);
    assert(!a.contains(':'));
    lemma_first_suffix_skips(a, Seq::<char>::empty(), Set::<char>::empty());
    assert(a + Seq::<char>::empty() =~= a);
}

/// Two numbers with a colon between are minutes and seconds.
pub proof fn lemma_minutes_seconds(a: Seq<char>, b: Seq<char>)
    requires
        number_field(a) is Ok,
        number_field(b) is Ok,
    ensures
        duration_total(a + seq![':'] + b) == Ok::<int, ParseError>(
            60 * number_field(a)->Ok_0 + number_field(b)->Ok_0,
        ),
{
    let text = a + seq![':'] + b;
    lemma_number_is_plain(a);
    lemma_number_is_plain(b);
    assert(text[a.len() as int] == ':');
    lemma_split_single(a);
    lemma_split_push(a, b);
    let fields = split_colons(text);
    reveal_with_fuel(fields_total, 3);
    assert(fields =~= seq![a, b]);
    assert(fields.drop_last() =~= seq![a]);
    assert(fields.drop_last().drop_last() =~= Seq::<Seq<char>>::empty());
}

/// Three numbers with colons between are hours, minutes and seconds.
pub proof fn lemma_hours_minutes_seconds(a: Seq<char>, b: Seq<char>, c: Seq<char>)
    requires
        number_field(a) is Ok,
        number_field(b) is Ok,
        number_field(c) is Ok,
    ensures
        duration_total(a + seq![':'] + b + seq![':'] + c) == Ok::<int, ParseError>(
            3600 * number_field(a)->Ok_0 + 60 * number_field(b)->Ok_0 + number_field(c)->Ok_0,
        ),
{
    let front = a + seq![':'] + b;
    let text = front + seq![':'] + c;
    lemma_number_is_plain(a);
    lemma_number_is_plain(b);
    lemma_number_is_plain(c);
    assert(text[front.len() as int] == ':');
    lemma_split_single(a);
    lemma_split_push(a, b);
    lemma_split_push(front, c);
    let fields = split_colons(text);
    reveal_with_fuel(fields_total, 4);
    assert(fields =~= seq![a, b, c]);
    assert(fields.drop_last() =~= seq![a, b]);
    assert(fields.drop_last().drop_last() =~= seq![a]);
    assert(fields.drop_last().drop_last().drop_last() =~= Seq::<Seq<char>>::empty());
}

/// A string that begins with a number and a unit holds no colon before the
/// unit and has a unit.
proof fn lemma_suffixed_is_no_plain_number(a: Seq<char>, u: char, rest: Seq<char>)
    requires
        number_field(a) is Ok,
        is_unit(u),
    ensures
        has_unit(a + seq![u] + rest),
{
    lemma_number_is_plain(a);
    lemma_first_suffix_skips(a, seq![u] + rest, Set::<char>::empty());
    assert(a + seq![u] + rest =~= a + (seq![u] + rest));
    assert((seq![u] + rest)[0] == u);
}

/// One number with its unit counts in that unit.
pub proof fn lemma_suffixed_single(a: Seq<char>, u: char)
    requires
        number_field(a) is Ok,
        is_unit(u),
    ensures
        duration_total(a + seq![u]) == Ok::<int, ParseError>(
            number_field(a)->Ok_0 * unit_seconds(u),
        ),
{
    let text = a + seq![u];
    let nothing = Seq::<char>::empty();
    lemma_number_is_plain(a);
    assert(text =~= a + seq![u] + nothing);
    lemma_suffixed_field(a, u, nothing, Set::<char>::empty());
    lemma_suffixed_is_no_plain_number(a, u, nothing);
    assert(!text.contains(':')) by {
        assert forall|i: int| 0 <= i < text.len() implies text[i] != ':' by {
            if i < a.len() {
                assert(text[i] == a[i]);
            }
        }
    }
}

/// Three suffixed numbers with three different units stand for their sum in
/// seconds, in whatever order the units come.
pub proof fn lemma_suffixed_triple(
    a: Seq<char>,
    u: char,
    b: Seq<char>,
    v: char,
    c: Seq<char>,
    w: char,
)
    requires
        number_field(a) is Ok,
        number_field(b) is Ok,
        number_field(c) is Ok,
        is_unit(u),
        is_unit(v),
        is_unit(w),
        u != v,
        u != w,
        v != w,
    ensures
        duration_total(a + seq![u] + b + seq![v] + c + seq![w]) == Ok::<int, ParseError>(
            number_field(a)->Ok_0 * unit_seconds(u) + number_field(b)->Ok_0 * unit_seconds(v)
                + number_field(c)->Ok_0 * unit_seconds(w),
        ),
{
    let text = a + seq![u] + b + seq![v] + c + seq![w];
    let none = Set::<char>::empty();
    let nothing = Seq::<char>::empty();
    let last = c + seq![w];
    let tail = b + seq![v] + last;
    lemma_number_is_plain(a);
    lemma_number_is_plain(b);
    lemma_number_is_plain(c);
    assert(text =~= a + seq![u] + tail);
    assert(last =~= c + seq![w] + nothing);
    lemma_suffixed_field(a, u, tail, none);
    lemma_suffixed_field(b, v, last, none.insert(u));
    lemma_suffixed_field(c, w, nothing, none.insert(u).insert(v));
    assert(units_total(nothing, none.insert(u).insert(v).insert(w)) == Ok::<int, ParseError>(0));
    lemma_suffixed_is_no_plain_number(a, u, tail);
    assert(!text.contains(':')) by {
        assert forall|i: int| 0 <= i < text.len() implies text[i] != ':' by {
            let p = a.len() + 1;
            let q = p + b.len() + 1;
            if i < a.len() {
                assert(text[i] == a[i]);
            } else if i == a.len() {
            } else if i < p + b.len() {
                assert(text[i] == b[i - p]);
            } else if i == p + b.len() {
            } else if i < q + c.len() {
                assert(text[i] == c[i - q]);
            } else {
            }
        }
    }
}

/// Two suffixed numbers with different units stand for their sum in seconds.
pub proof fn lemma_suffixed_pair(a: Seq<char>, u: char, b: Seq<char>, v: char)
    requires
        number_field(a) is Ok,
        number_field(b) is Ok,
        is_unit(u),
        is_unit(v),
        u != v,
    ensures
        duration_total(a + seq![u] + b + seq![v]) == Ok::<int, ParseError>(
            number_field(a)->Ok_0 * unit_seconds(u) + number_field(b)->Ok_0 * unit_seconds(v),
        ),
{
    let text = a + seq![u] + b + seq![v];
    let none = Set::<char>::empty();
    let nothing = Seq::<char>::empty();
    let tail = b + seq![v];
    lemma_number_is_plain(a);
    lemma_number_is_plain(b);
    assert(text =~= a + seq![u] + tail);
    assert(tail =~= b + seq![v] + nothing);
    lemma_suffixed_field(a, u, tail, none);
    lemma_suffixed_field(b, v, nothing, none.insert(u));
    assert(units_total(nothing, none.insert(u).insert(v)) == Ok::<int, ParseError>(0));
    lemma_suffixed_is_no_plain_number(a, u, tail);
    assert(!text.contains(':')) by {
        assert forall|i: int| 0 <= i < text.len() implies text[i] != ':' by {
            let p = a.len() + 1;
            if i < a.len() {
                assert(text[i] == a[i]);
            } else if i == a.len() {
            } else if i < p + b.len() {
                assert(text[i] == b[i - p]);
            } else {
            }
        }
    }
}

/// The order of two suffixed numbers does not matter.
pub proof fn lemma_units_commute(a: Seq<char>, u: char, b: Seq<char>, v: char)
    requires
        number_field(a) is Ok,
        number_field(b) is Ok,
        is_unit(u),
        is_unit(v),
        u != v,
    ensures
        duration_seconds(a + seq![u] + b + seq![v]) == duration_seconds(b + seq![v] + a + seq![u]),
{
    lemma_suffixed_pair(a, u, b, v);
    lemma_suffixed_pair(b, v, a, u);
}

/// A string of digits holds no unit and no colon.
pub proof fn lemma_digits_are_plain(s: Seq<char>)
    requires
        all_digits(s),
    ensures
        colon_free(s),
        unit_free(s),
{
    assert forall|i: int| 0 <= i < s.len() implies s[i] != ':' && !is_unit(s[i]) by {
        assert(is_digit(s[i]));
    }
}

/// Reading undoes writing: the text of a clock that is not negative reads
/// back as the seconds that the clock shows.
pub proof fn lemma_clock_text_reads_back(n: int)
    requires
        0 <= n <= i32::MAX,
    ensures
        duration_seconds(clock_of(n).spec_text()) == Ok::<i32, ParseError>(n as i32),
{
    let h = hours_of(n) as nat;
    let m = minutes_of(n) as nat;
    let s = seconds_of(n) as nat;
    let text = clock_text(h, m, s, false);
    let none = Seq::<char>::empty();
    lemma_fields_recompose(n);
    assert(clock_of(n).spec_text() == text);
    lemma_decimal_digits(h);
    lemma_decimal_digits(m);
    lemma_decimal_digits(s);
    lemma_padded_digits(m);
    lemma_padded_digits(s);
    lemma_digits_are_plain(decimal(h));
    lemma_digits_are_plain(decimal(m));
    lemma_digits_are_plain(decimal(s));
    lemma_digits_are_plain(padded(m));
    lemma_digits_are_plain(padded(s));
    assert(is_digit(decimal(h)[0]) && is_digit(decimal(m)[0]) && is_digit(decimal(s)[0]));
    assert(is_digit(padded(m)[0]) && is_digit(padded(s)[0]));
    assert(signed_decimal(decimal(h)) == Some(h as int));
    assert(signed_decimal(decimal(m)) == Some(m as int));
    assert(signed_decimal(decimal(s)) == Some(s as int));
    assert(signed_decimal(padded(m)) == Some(m as int));
    assert(signed_decimal(padded(s)) == Some(s as int));
    reveal_with_fuel(fields_total, 4);
    if h == 0 && m == 0 {
        assert(text =~= decimal(s));
        assert(!text.contains(':'));
        lemma_first_suffix_skips(text, none, Set::<char>::empty());
        assert(text + none =~= text);
        assert(!has_unit(text));
    } else if h == 0 {
        assert(text =~= decimal(m) + seq![':'] + padded(s));
        let at = decimal(m).len() as int;
        assert(text[at] == ':');
        assert(text.contains(':'));
        lemma_split_single(decimal(m));
        lemma_split_push(decimal(m), padded(s));
        let fields = split_colons(text);
        assert(fields =~= seq![decimal(m), padded(s)]);
        assert(fields.drop_last() =~= seq![decimal(m)]);
        assert(fields.drop_last().drop_last() =~= Seq::<Seq<char>>::empty());
    } else {
        let front = decimal(h) + seq![':'] + padded(m);
        assert(text =~= front + seq![':'] + padded(s));
        let at = front.len() as int;
        assert(text[at] == ':');
        assert(text.contains(':'));
        lemma_split_single(decimal(h));
        lemma_split_push(decimal(h), padded(m));
        lemma_split_push(front, padded(s));
        let fields = split_colons(text);
        assert(fields =~= seq![decimal(h), padded(m), padded(s)]);
        assert(fields.drop_last() =~= seq![decimal(h), padded(m)]);
        assert(fields.drop_last().drop_last() =~= seq![decimal(h)]);
        assert(fields.drop_last().drop_last().drop_last() =~= Seq::<Seq<char>>::empty());
    }
}

} // verus!
