//! The timer state and the clock fields derived from it.

use vstd::prelude::*;
use vstd::string::*;
use crate::decimal::{decimal, lemma_decimal_digits, padded, push_decimal, push_padded};

verus! {

/// Absolute value of an integer.
pub open spec fn magnitude(n: int) -> int {
    if n < 0 {
        -n
    } else {
        n
    }
}

/// Whole hours in `|n|` seconds.
pub open spec fn hours_of(n: int) -> int {
    magnitude(n) / 3600
}

/// Whole minutes left in `|n|` seconds once the hours are taken out.
pub open spec fn minutes_of(n: int) -> int {
    (magnitude(n) - hours_of(n) * 3600) / 60
}

/// Seconds left in `|n|` seconds once the minutes are taken out.
pub open spec fn seconds_of(n: int) -> int {
    magnitude(n) % 60
}

/// The clock that shows `n` remaining seconds.
pub open spec fn clock_of(n: int) -> DisplayClock {
    DisplayClock {
        hours: hours_of(n) as u32,
        minutes: minutes_of(n) as u32,
        seconds: seconds_of(n) as u32,
        sign_negative: n < 0,
    }
}

/// The text of a clock: a `-` where it is negative, then the seconds alone
/// where hours and minutes are zero, minutes and two-digit seconds where the
/// hours are zero, and else hours, two-digit minutes and two-digit seconds,
/// with colons between.
pub open spec fn clock_text(hours: nat, minutes: nat, seconds: nat, negative: bool) -> Seq<char> {
    let sign = if negative {
        seq!['-']
    } else {
        Seq::<char>::empty()
    };
    if hours == 0 && minutes == 0 {
        sign + decimal(seconds)
    } else if hours == 0 {
        sign + decimal(minutes) + seq![':'] + padded(seconds)
    } else {
        sign + decimal(hours) + seq![':'] + padded(minutes) + seq![':'] + padded(seconds)
    }
}

/// The minutes are the whole minutes, counted modulo sixty.
pub proof fn lemma_minutes_wrap(n: int)
    ensures
        minutes_of(n) == (magnitude(n) / 60) % 60,
{
    let m = magnitude(n);
    let h = m / 3600;
    let r = m - h * 3600;
    let k = r / 60;
    assert(0 <= r < 3600);
    assert(0 <= k < 60);
    assert(60 * (60 * h + k) <= m < 60 * (60 * h + k) + 60);
    assert(m / 60 == 60 * h + k);
    assert((60 * h + k) % 60 == k);
}

/// Splitting a total into hours, minutes and seconds gives back the fields it
/// was made of, whether the total counts down (positive) or up (negative).
pub proof fn lemma_fields_round_trip(h: int, m: int, s: int)
    requires
        0 <= h,
        0 <= m < 60,
        0 <= s < 60,
    ensures
        hours_of(3600 * h + 60 * m + s) == h,
        minutes_of(3600 * h + 60 * m + s) == m,
        seconds_of(3600 * h + 60 * m + s) == s,
        hours_of(-(3600 * h + 60 * m + s)) == h,
        minutes_of(-(3600 * h + 60 * m + s)) == m,
        seconds_of(-(3600 * h + 60 * m + s)) == s,
{
    let total = 3600 * h + 60 * m + s;
    assert(magnitude(total) == total);
    assert(magnitude(-total) == total);
    assert(3600 * h <= total < 3600 * h + 3600);
    assert(total / 3600 == h);
    assert(total - h * 3600 == 60 * m + s);
    assert(60 * m <= 60 * m + s < 60 * m + 60);
    assert((60 * m + s) / 60 == m);
    assert(total == 60 * (60 * h + m) + s);
    assert(total % 60 == s);
}

/// The fields of a clock are in range and add up to the magnitude of the
/// count.
pub proof fn lemma_fields_recompose(n: int)
    ensures
        0 <= hours_of(n),
        0 <= minutes_of(n) < 60,
        0 <= seconds_of(n) < 60,
        3600 * hours_of(n) + 60 * minutes_of(n) + seconds_of(n) == magnitude(n),
{
    let total = magnitude(n);
    let h = total / 3600;
    let rest = total - h * 3600;
    let m = rest / 60;
    assert(0 <= rest < 3600);
    assert(0 <= m < 60);
    assert(rest == 60 * m + rest % 60);
    assert(total == 60 * (60 * h + m) + rest % 60);
    assert(total % 60 == rest % 60);
}

/// Seconds remaining on the timer; negative once the countdown has passed
/// zero.
#[derive(Debug)]
pub struct Counter {
    pub count: i32,
}

/// The fields shown on screen for one value of the counter.
#[derive(Debug, Clone, Copy, PartialEq, Eq, Structural)]
pub struct DisplayClock {
    pub hours: u32,
    pub minutes: u32,
    pub seconds: u32,
    pub sign_negative: bool,
}

impl Counter {
    /// A counter at `num` seconds.
    pub fn new(num: i32) -> (counter: Self)
        ensures
            counter.count == num,
    {
        Self { count: num }
    }

    /// `|count|`, which every `i32` has as a `u32`.
    fn unsigned(&self) -> (m: u32)
        ensures
            m == magnitude(self.count as int),
    {
        if self.count >= 0 {
            self.count as u32
        } else {
            let wide: i64 = self.count as i64;
            (-wide) as u32
        }
    }

    /// The seconds field of the clock.
    pub fn seconds(&self) -> (s: i32)
        ensures
            s == seconds_of(self.count as int),
    {
        (self.unsigned() % 60) as i32
    }

    /// The minutes field of the clock.
    pub fn minutes(&self) -> (m: i32)
        ensures
            m == minutes_of(self.count as int),
    {
        proof {
            lemma_minutes_wrap(self.count as int);
        }
        (self.unsigned() / 60 % 60) as i32
    }

    /// The hours field of the clock.
    pub fn hours(&self) -> (h: i32)
        ensures
            h == hours_of(self.count as int),
    {
        (self.unsigned() / 3600) as i32
    }

    /// The current value.
    pub fn read(&self) -> (n: i32)
        ensures
            n == self.count,
    {
        self.count
    }

    /// Whether the countdown has passed zero.
    pub fn is_overtime(&self) -> (over: bool)
        ensures
            over == (self.count < 0),
    {
        self.count < 0
    }

    /// Takes one second off. There is no floor but the one of `i32`.
    pub fn decrement(&mut self)
        requires
            old(self).count > i32::MIN,
        ensures
            final(self).count == old(self).count - 1,
    {
        self.count = self.count - 1;
    }

    /// The clock for the current value.
    pub fn display(&self) -> (clock: DisplayClock)
        ensures
            clock == clock_of(self.count as int),
    {
        let m = self.unsigned();
        proof {
            lemma_minutes_wrap(self.count as int);
        }
        DisplayClock {
            hours: m / 3600,
            minutes: m / 60 % 60,
            seconds: m % 60,
            sign_negative: self.count < 0,
        }
    }
}

impl DisplayClock {
    /// The characters that `text` gives.
    pub open spec fn spec_text(self) -> Seq<char> {
        clock_text(
            self.hours as nat,
            self.minutes as nat,
            self.seconds as nat,
            self.sign_negative,
        )
    }

    /// The clock as text. It is never empty.
    pub fn text(&self) -> (line: String)
        ensures
            line@ == self.spec_text(),
            line@.len() > 0,
    {
        let mut line = String::new();
        if self.sign_negative {
            proof {
                reveal_strlit("-");
            }
            line.append("-");
            assert(line@ =~= seq!['-']);
        }
        proof {
            reveal_strlit(":");
            lemma_decimal_digits(self.seconds as nat);
            lemma_decimal_digits(self.minutes as nat);
            lemma_decimal_digits(self.hours as nat);
        }
        assert(":"@ =~= seq![':']);
        if self.hours == 0 && self.minutes == 0 {
            push_decimal(&mut line, self.seconds as u64);
        } else if self.hours == 0 {
            push_decimal(&mut line, self.minutes as u64);
            line.append(":");
            push_padded(&mut line, self.seconds as u64);
        } else {
            push_decimal(&mut line, self.hours as u64);
            line.append(":");
            push_padded(&mut line, self.minutes as u64);
            line.append(":");
            push_padded(&mut line, self.seconds as u64);
        }
        line
    }
}

} // verus!
