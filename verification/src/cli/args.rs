//! The checked command-line arguments.

use vstd::prelude::*;
use vstd::string::*;
use crate::cli::duration::{
    colon_total, duration_seconds, fields_total, first_suffix, is_unit, split_colons, units_total,
};
use crate::decimal::parse_number;
use crate::error::{ArgsError, ParseError};

verus! {

/// Most characters that a message may have.
pub const MESSAGE_LIMIT: usize = 127;

/// The set of units whose flag is up.
spec fn used_units(h: bool, m: bool, s: bool) -> Set<char> {
    Set::new(|c: char| (c == 'h' && h) || (c == 'm' && m) || (c == 's' && s))
}

/// Where field `j` ends, given where each field starts in a text of `len`
/// characters: one before the start of the next field, or at the end.
spec fn field_end(starts: Seq<usize>, j: int, len: int) -> int {
    if j + 1 < starts.len() {
        starts[j + 1] - 1
    } else {
        len
    }
}

/// `starts` marks the colon-separated fields of the first `upto` characters
/// of `text`.
spec fn marks_fields(text: Seq<char>, upto: int, starts: Seq<usize>) -> bool {
    let fields = split_colons(text.take(upto));
    &&& starts.len() == fields.len()
    &&& starts.len() >= 1
    &&& forall|j: int|
        0 <= j < starts.len() ==> {
            &&& 0 <= #[trigger] starts[j] <= field_end(starts, j, upto) <= upto
            &&& fields[j] == text.subrange(starts[j] as int, field_end(starts, j, upto))
        }
}

/// The characters of `s`, one by one.
fn chars_of(s: &str) -> (text: Vec<char>)
    ensures
        text@ == s@,
{
    let mut text: Vec<char> = Vec::new();
    for c in it: s.chars()
        invariant
            text@ == s@.take(it.index() as int),
            it.seq() == s@,
    {
        text.push(c);
    }
    text
}

/// Whether `text` holds a colon.
fn has_colon(text: &Vec<char>) -> (found: bool)
    ensures
        found == text@.contains(':'),
{
    let mut i: usize = 0;
    while i < text.len()
        invariant
            i <= text.len(),
            forall|k: int| 0 <= k < i ==> text@[k] != ':',
        decreases text.len() - i,
    {
        if text[i] == ':' {
            return true;
        }
        i = i + 1;
    }
    false
}

/// Where each colon-separated field of `text` starts.
fn field_starts(text: &Vec<char>) -> (starts: Vec<usize>)
    ensures
        marks_fields(text@, text.len() as int, starts@),
{
    let mut starts: Vec<usize> = Vec::new();
    starts.push(0);
    assert(text@.take(0) =~= Seq::<char>::empty());
    let mut i: usize = 0;
    while i < text.len()
        invariant
            i <= text.len(),
            marks_fields(text@, i as int, starts@),
        decreases text.len() - i,
    {
        let c = text[i];
        let ghost before = split_colons(text@.take(i as int));
        let ghost old_starts = starts@;
        let ghost n = old_starts.len() as int;
        proof {
            assert(text@.take(i + 1).drop_last() =~= text@.take(i as int));
            assert(text@.take(i + 1).last() == c);
        }
        if c == ':' {
            starts.push(i + 1);
            proof {
                let after = split_colons(text@.take(i + 1));
                assert(after == before.push(Seq::<char>::empty()));
                assert forall|j: int| 0 <= j < starts@.len() implies {
                    &&& 0 <= #[trigger] starts@[j] <= field_end(starts@, j, i + 1) <= i + 1
                    &&& after[j] == text@.subrange(
                        starts@[j] as int,
                        field_end(starts@, j, i + 1),
                    )
                } by {
                    if j < n {
                        assert(starts@[j] == old_starts[j]);
                        assert(field_end(starts@, j, i + 1) == field_end(old_starts, j, i as int));
                        assert(after[j] == before[j]);
                    } else {
                        assert(after[j] =~= text@.subrange(i + 1, i + 1));
                    }
                }
            }
        } else {
            proof {
                let after = split_colons(text@.take(i + 1));
                assert(after == before.update(n - 1, before.last().push(c)));
                assert forall|j: int| 0 <= j < starts@.len() implies {
                    &&& 0 <= #[trigger] starts@[j] <= field_end(starts@, j, i + 1) <= i + 1
                    &&& after[j] == text@.subrange(
                        starts@[j] as int,
                        field_end(starts@, j, i + 1),
                    )
                } by {
                    if j < n - 1 {
                        assert(field_end(starts@, j, i + 1) == field_end(old_starts, j, i as int));
                        assert(after[j] == before[j]);
                    } else {
                        assert(before[j] == text@.subrange(starts@[j] as int, i as int));
                        assert(after[j] =~= text@.subrange(starts@[j] as int, i + 1));
                    }
                }
            }
        }
        i = i + 1;
    }
    assert(text@.take(text.len() as int) =~= text@);
    starts
}

/// The seconds of a colon-separated text.
fn colon_seconds(text: &Vec<char>) -> (r: Result<i64, ParseError>)
    ensures
        r matches Ok(total) ==> colon_total(text@) == Ok::<int, ParseError>(total as int),
        r matches Err(e) ==> colon_total(text@) == Err::<int, ParseError>(e),
{
    let starts = field_starts(text);
    let n = starts.len();
    let len = text.len();
    let ghost fields = split_colons(text@);
    proof {
        assert(text@.take(len as int) =~= text@);
        reveal_with_fuel(fields_total, 4);
    }
    if n > 3 {
        return Err(ParseError::FormatNotRecognized);
    }
    assert(fields.last() == text@.subrange(starts@[n - 1] as int, len as int));
    let seconds = match parse_number(text, starts[n - 1], len) {
        Ok(v) => v as i64,
        Err(e) => {
            return Err(e);
        },
    };
    if n == 1 {
        assert(fields.drop_last().len() == 0);
        return Ok(seconds);
    }
    assert(field_end(starts@, n - 2, len as int) == starts@[n - 1] - 1);
    assert(fields.drop_last().last() == fields[n - 2]);
    let minutes = match parse_number(text, starts[n - 2], starts[n - 1] - 1) {
        Ok(v) => v as i64,
        Err(e) => {
            return Err(e);
        },
    };
    if n == 2 {
        assert(fields.drop_last().drop_last().len() == 0);
        return Ok(minutes * 60 + seconds);
    }
    assert(field_end(starts@, 0, len as int) == starts@[1] - 1);
    assert(fields.drop_last().drop_last().last() == fields[0]);
    let hours = match parse_number(text, starts[0], starts[1] - 1) {
        Ok(v) => v as i64,
        Err(e) => {
            return Err(e);
        },
    };
    assert(fields.drop_last().drop_last().drop_last().len() == 0);
    Ok((hours * 60 + minutes) * 60 + seconds)
}

/// Position of the first suffix at or behind `from` whose unit is not used
/// yet; the length of `text` where there is none.
fn find_suffix(text: &Vec<char>, from: usize, h: bool, m: bool, s: bool) -> (at: usize)
    requires
        from <= text.len(),
    ensures
        from <= at <= text.len(),
        at - from == first_suffix(
            text@.subrange(from as int, text.len() as int),
            used_units(h, m, s),
        ),
        at < text.len() ==> is_unit(text@[at as int]) && !used_units(h, m, s).contains(
            text@[at as int],
        ),
{
    let ghost used = used_units(h, m, s);
    let ghost len = text.len() as int;
    let mut i: usize = from;
    while i < text.len()
        invariant
            from <= i <= text.len(),
            len == text.len(),
            used == used_units(h, m, s),
            first_suffix(text@.subrange(from as int, len), used) == (i - from) + first_suffix(
                text@.subrange(i as int, len),
                used,
            ),
        decreases text.len() - i,
    {
        let c = text[i];
        proof {
            let rest = text@.subrange(i as int, len);
            assert(rest[0] == c);
            assert(rest.drop_first() =~= text@.subrange(i + 1, len));
        }
        if (c == 'h' && !h) || (c == 'm' && !m) || (c == 's' && !s) {
            return i;
        }
        i = i + 1;
    }
    i
}

/// The result of a text whose first fields gave `acc` seconds and whose rest
/// gives `rest`.
spec fn carried(acc: int, rest: Result<int, ParseError>) -> Result<int, ParseError> {
    match rest {
        Err(e) => Err(e),
        Ok(v) => Ok(acc + v),
    }
}

/// Most seconds, in magnitude, that one field can stand for: an hour for
/// each unit of the largest magnitude of an `i32`.
const FIELD_BOUND: i64 = 7_730_941_132_800;

/// How many of the three flags are up.
spec fn flags_up(h: bool, m: bool, s: bool) -> int {
    (if h { 1int } else { 0int }) + (if m { 1int } else { 0int }) + (if s { 1int } else { 0int })
}

/// The seconds of a suffixed text.
fn suffixed_seconds(text: &Vec<char>) -> (r: Result<i64, ParseError>)
    ensures
        r matches Ok(total) ==> units_total(text@, Set::<char>::empty()) == Ok::<int, ParseError>(
            total as int,
        ),
        r matches Err(e) ==> units_total(text@, Set::<char>::empty()) == Err::<int, ParseError>(e),
{
    let len = text.len();
    let mut from: usize = 0;
    let mut acc: i64 = 0;
    let mut h = false;
    let mut m = false;
    let mut s = false;
    assert(used_units(false, false, false) =~= Set::<char>::empty());
    assert(text@.subrange(0, len as int) =~= text@);
    loop
        invariant
            from <= len == text.len(),
            units_total(text@, Set::<char>::empty()) == carried(
                acc as int,
                units_total(text@.subrange(from as int, len as int), used_units(h, m, s)),
            ),
            -flags_up(h, m, s) * FIELD_BOUND <= acc <= flags_up(h, m, s) * FIELD_BOUND,
        decreases len - from,
    {
        let ghost rest = text@.subrange(from as int, len as int);
        let ghost used = used_units(h, m, s);
        if from == len {
            return Ok(acc);
        }
        let at = find_suffix(text, from, h, m, s);
        if at == len {
            return Err(ParseError::FormatNotRecognized);
        }
        proof {
            assert(rest.subrange(0, at - from) =~= text@.subrange(from as int, at as int));
            assert(rest.subrange(at - from + 1, rest.len() as int) =~= text@.subrange(
                at + 1,
                len as int,
            ));
            assert(rest[at - from] == text@[at as int]);
        }
        let value = match parse_number(text, from, at) {
            Ok(v) => v as i64,
            Err(e) => {
                return Err(e);
            },
        };
        let unit = text[at];
        if unit == 'h' {
            assert(used.insert('h') =~= used_units(true, m, s));
            acc = acc + value * 3600;
            h = true;
        } else if unit == 'm' {
            assert(used.insert('m') =~= used_units(h, true, s));
            acc = acc + value * 60;
            m = true;
        } else {
            assert(used.insert('s') =~= used_units(h, m, true));
            acc = acc + value;
            s = true;
        }
        from = at + 1;
    }
}

/// The command line of the timer: the duration, and the message to show
/// under the clock.
#[derive(Debug)]
pub struct Args {
    /// Duration, colon-separated or with unit suffixes.
    pub time: Option<String>,
    /// Text under the clock, at most `MESSAGE_LIMIT` characters.
    pub message: Option<String>,
}

/// The characters of an optional string.
pub open spec fn text_of(o: Option<String>) -> Option<Seq<char>> {
    match o {
        Some(t) => Some(t@),
        None => None,
    }
}

/// What the arguments come to: the seconds to count down from and the message
/// to show (empty where none was given), or the first fault found. A missing
/// duration comes first, then a refused duration, then a message over the
/// limit.
pub open spec fn checked(time: Option<Seq<char>>, message: Option<Seq<char>>) -> Result<
    (i32, Seq<char>),
    ArgsError,
> {
    match time {
        None => Err(ArgsError::NoDuration),
        Some(t) => match duration_seconds(t) {
            Err(e) => Err(ArgsError::Duration(e)),
            Ok(seconds) => match message {
                None => Ok((seconds, Seq::<char>::empty())),
                Some(m) => if m.len() > MESSAGE_LIMIT {
                    Err(
                        ArgsError::MessageTooLong {
                            limit: MESSAGE_LIMIT,
                            length: m.len() as usize,
                        },
                    )
                } else {
                    Ok((seconds, m))
                },
            },
        },
    }
}

impl Args {
    /// The arguments as given.
    pub fn new(time: Option<String>, message: Option<String>) -> (args: Self)
        ensures
            args.time == time,
            args.message == message,
    {
        Self { time, message }
    }

    /// Checks the arguments and hands out the seconds to count down from and
    /// the message to show.
    pub fn handle_command(&self) -> (r: Result<(i32, &str), ArgsError>)
        ensures
            r matches Ok((seconds, label)) ==> checked(text_of(self.time), text_of(self.message))
                == Ok::<(i32, Seq<char>), ArgsError>((seconds, label@)),
            r matches Err(e) ==> checked(text_of(self.time), text_of(self.message)) == Err::<
                (i32, Seq<char>),
                ArgsError,
            >(e),
    {
        match &self.time {
            None => Err(ArgsError::NoDuration),
            Some(time_arg) => {
                let seconds = match Self::parse_time(time_arg.as_str()) {
                    Ok(v) => v,
                    Err(e) => {
                        return Err(ArgsError::Duration(e));
                    },
                };
                match &self.message {
                    None => {
                        proof {
                            reveal_strlit("");
                        }
                        assert(""@ =~= Seq::<char>::empty());
                        Ok((seconds, ""))
                    },
                    Some(message_arg) => {
                        let length = message_arg.as_str().unicode_len();
                        if length > MESSAGE_LIMIT {
                            Err(ArgsError::MessageTooLong { limit: MESSAGE_LIMIT, length })
                        } else {
                            Ok((seconds, message_arg.as_str()))
                        }
                    },
                }
            },
        }
    }

    /// Reads the duration string `time` as a count of seconds.
    pub fn parse_time(time: &str) -> (r: Result<i32, ParseError>)
        ensures
            r == duration_seconds(time@),
    {
        let text = chars_of(time);
        let len = text.len();
        assert(text@.subrange(0, len as int) =~= text@);
        let total: i64 = if has_colon(&text) {
            match colon_seconds(&text) {
                Ok(v) => v,
                Err(e) => {
                    return Err(e);
                },
            }
        } else if len > 0 && find_suffix(&text, 0, false, false, false) == len {
            assert(used_units(false, false, false) =~= Set::<char>::empty());
            match parse_number(&text, 0, len) {
                Ok(v) => v as i64,
                Err(ParseError::InvalidNumber) => {
                    return Err(ParseError::FormatNotRecognized);
                },
                Err(e) => {
                    return Err(e);
                },
            }
        } else {
            assert(used_units(false, false, false) =~= Set::<char>::empty());
            match suffixed_seconds(&text) {
                Ok(v) => v,
                Err(e) => {
                    return Err(e);
                },
            }
        };
        if total < -2147483648 || total > 2147483647 {
            Err(ParseError::OutOfRange)
        } else {
            Ok(total as i32)
        }
    }
}

} // verus!
