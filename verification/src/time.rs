//! Instants in Coordinated Universal Time, and the calls into `chrono` that read
//! the clock and write an instant as text.
use crate::calendar::{law_day_lies_in_one_month, month_length, month_of, month_start, month_text};
use crate::text::{decimal_value, is_decimal, last_digits, law_last_digits_read_back, ten_to};
use vstd::prelude::*;

verus! {

/// The first second that a calendar date is known for: the start of the year -262143.
pub const FIRST_SECOND: i64 = -8_334_601_228_800;

/// The last second that a calendar date is known for: the end of the year 262142.
pub const LAST_SECOND: i64 = 8_210_266_876_799;

/// Whether the pair is an instant: a count of seconds since the start of the year
/// 1970 for which there is a date, and nanoseconds since the start of that second. A
/// second may take in a leap second, so there is room for two seconds of them.
pub open spec fn is_instant(seconds: i64, nanos: u32) -> bool {
    &&& FIRST_SECOND <= seconds <= LAST_SECOND
    &&& nanos < 2_000_000_000
}

/// The number of the day that a second lies in, counted from the first day of 1970.
pub open spec fn utc_day(seconds: i64) -> int {
    seconds as int / 86_400
}

/// The month that a second lies in, as text such as `2026-03`.
pub open spec fn utc_month_text(seconds: i64) -> Seq<char> {
    let (year, month) = month_of(utc_day(seconds));
    month_text(year, month)
}

/// The day that a second lies in, as text such as `2026-03-14`.
pub open spec fn utc_date_text(seconds: i64) -> Seq<char> {
    let day = utc_day(seconds);
    let (year, month) = month_of(day);
    month_text(year, month) + seq!['-'] + last_digits(
        (day - month_start(year, month) + 1) as nat,
        2,
    )
}

/// The fraction of a second, given in nanoseconds: none, or a point and as many digits
/// as it takes, in groups of three.
pub open spec fn fraction_text(nanos: nat) -> Seq<char> {
    if nanos == 0 {
        seq![]
    } else if nanos % 1_000_000 == 0 {
        seq!['.'] + last_digits(nanos / 1_000_000, 3)
    } else if nanos % 1_000 == 0 {
        seq!['.'] + last_digits(nanos / 1_000, 6)
    } else {
        seq!['.'] + last_digits(nanos, 9)
    }
}

/// An instant as a date and time of day, such as `2026-03-14T00:00:00+00:00`. Nanoseconds
/// that take in a leap second show as the second after, which may be numbered 60.
pub open spec fn rfc3339_text(seconds: i64, nanos: u32) -> Seq<char> {
    let time = seconds as int % 86_400;
    let leap: int = if nanos >= 1_000_000_000 {
        1
    } else {
        0
    };
    utc_date_text(seconds) + seq!['T'] + last_digits((time / 3600) as nat, 2) + seq![':']
        + last_digits((time / 60 % 60) as nat, 2) + seq![':'] + last_digits(
        (time % 60 + leap) as nat,
        2,
    ) + fraction_text((nanos - leap * 1_000_000_000) as nat) + "+00:00"@
}

/// An instant as text begins with the month that it lies in.
pub proof fn law_text_begins_with_month(seconds: i64, nanos: u32)
    ensures
        utc_month_text(seconds).is_prefix_of(rfc3339_text(seconds, nanos)),
{
    let month = utc_month_text(seconds);
    assert(month =~= rfc3339_text(seconds, nanos).subrange(0, month.len() as int));
}

/// `chrono::Utc::now`, as seconds and nanoseconds since the start of the year 1970.
/// The result depends on the clock: what is claimed is only that it is an instant
/// not before that year, with less than a second of nanoseconds. A clock set before it,
/// or past the last date, makes the call panic.
#[verifier::external_body]
fn clock() -> (now: (i64, u32))
    ensures
        is_instant(now.0, now.1),
        now.0 >= 0,
        now.1 < 1_000_000_000,
{
    let now = chrono::Utc::now();
    (now.timestamp(), now.timestamp_subsec_nanos())
}

/// `chrono::DateTime::to_rfc3339` on the instant that the pair gives: the date of the
/// Gregorian calendar, the time of day with a fraction of as many digits as it takes, in
/// groups of three, and the offset of Coordinated Universal Time.
#[verifier::external_body]
fn to_rfc3339(seconds: i64, nanos: u32) -> (text: String)
    requires
        is_instant(seconds, nanos),
    ensures
        text@ == rfc3339_text(seconds, nanos),
{
    let second = chrono::DateTime::<chrono::Utc>::from_timestamp(seconds, 0).unwrap();
    let instant = chrono::Timelike::with_nanosecond(&second.naive_utc(), nanos).unwrap();
    instant.and_utc().to_rfc3339()
}

/// `chrono::DateTime::format` on the instant that the pair gives, with the pattern of
/// year and month: the year of the Gregorian calendar in at least four digits, with a
/// sign where it lies outside the years 0 to 9999, and the month in two digits. A
/// pattern that `chrono` does not know would make it panic.
#[verifier::external_body]
fn format_instant(seconds: i64, nanos: u32, pattern: &str) -> (text: String)
    requires
        is_instant(seconds, nanos),
        pattern@ == "%Y-%m"@,
    ensures
        text@ == utc_month_text(seconds),
{
    let second = chrono::DateTime::<chrono::Utc>::from_timestamp(seconds, 0).unwrap();
    let instant = chrono::Timelike::with_nanosecond(&second.naive_utc(), nanos).unwrap();
    instant.and_utc().format(pattern).to_string()
}

/// An instant in Coordinated Universal Time.
#[derive(Debug, Clone, Copy, PartialEq, Eq, Structural)]
pub struct Timestamp {
    seconds: i64,
    nanos: u32,
}

impl View for Timestamp {
    type V = (i64, u32);

    /// Seconds since the start of the year 1970, and nanoseconds since the start of the second.
    closed spec fn view(&self) -> (i64, u32) {
        (self.seconds, self.nanos)
    }
}

/// Whether a clock can show the instant: one not before the year 1970, with less than a
/// second of nanoseconds.
pub open spec fn is_clock_time(instant: Timestamp) -> bool {
    &&& is_instant(instant@.0, instant@.1)
    &&& instant@.0 >= 0
    &&& instant@.1 < 1_000_000_000
}

impl Timestamp {
    #[verifier::type_invariant]
    spec fn well_formed(self) -> bool {
        is_instant(self.seconds, self.nanos)
    }

    /// The instant of the given seconds and nanoseconds, where there is one.
    pub fn new(seconds: i64, nanos: u32) -> (instant: Option<Timestamp>)
        ensures
            match instant {
                Some(t) => is_instant(seconds, nanos) && t@ == (seconds, nanos),
                None => !is_instant(seconds, nanos),
            },
    {
        if FIRST_SECOND <= seconds && seconds <= LAST_SECOND && nanos < 2_000_000_000 {
            Some(Timestamp { seconds, nanos })
        } else {
            None
        }
    }

    /// The instant that the clock shows.
    pub fn now() -> (instant: Timestamp)
        ensures
            is_clock_time(instant),
    {
        let (seconds, nanos) = clock();
        Timestamp { seconds, nanos }
    }

    /// Whole seconds since the start of the year 1970.
    pub fn seconds(&self) -> (seconds: i64)
        ensures
            seconds == self@.0,
            FIRST_SECOND <= seconds <= LAST_SECOND,
    {
        proof {
            use_type_invariant(self);
        }
        self.seconds
    }

    /// Nanoseconds since the start of the second.
    pub fn nanos(&self) -> (nanos: u32)
        ensures
            nanos == self@.1,
            is_instant(self@.0, nanos),
    {
        proof {
            use_type_invariant(self);
        }
        self.nanos
    }

    /// The instant as a date and time of the form `2026-03-14T00:00:00+00:00`.
    pub fn to_rfc3339(&self) -> (text: String)
        ensures
            text@ == rfc3339_text(self@.0, self@.1),
    {
        proof {
            use_type_invariant(self);
        }
        to_rfc3339(self.seconds, self.nanos)
    }

    /// Year and month of the instant, of the form `2026-03`.
    pub fn year_month(&self) -> (text: String)
        ensures
            text@ == utc_month_text(self@.0),
    {
        proof {
            use_type_invariant(self);
        }
        format_instant(self.seconds, self.nanos, "%Y-%m")
    }
}

/// A fraction of a second is left out where it is zero. Else it is a point and three, six
/// or nine digits, as few as can tell it, which read back as the fraction.
pub proof fn law_fraction_reads_back(nanos: nat)
    requires
        nanos < 1_000_000_000,
    ensures
        ({
            let text = fraction_text(nanos);
            let digits = text.skip(1);
            &&& text.len() == 0 <==> nanos == 0
            &&& nanos > 0 ==> {
                &&& text[0] == '.'
                &&& is_decimal(digits)
                &&& digits.len() == 3 || digits.len() == 6 || digits.len() == 9
                &&& digits.len() == 3 ==> decimal_value(digits) * 1_000_000 == nanos
                &&& digits.len() == 6 ==> decimal_value(digits) * 1_000 == nanos
                &&& digits.len() == 9 ==> decimal_value(digits) == nanos
                &&& digits.len() >= 6 ==> nanos % 1_000_000 != 0
                &&& digits.len() == 9 ==> nanos % 1_000 != 0
            }
        }),
{
    assert(ten_to(3) == 1_000 && ten_to(6) == 1_000_000 && ten_to(9) == 1_000_000_000) by {
        reveal_with_fuel(ten_to, 10);
    }
    law_last_digits_read_back(nanos / 1_000_000, 3);
    law_last_digits_read_back(nanos / 1_000, 6);
    law_last_digits_read_back(nanos, 9);
    let digits = fraction_text(nanos).skip(1);
    if nanos == 0 {
    } else if nanos % 1_000_000 == 0 {
        assert(digits =~= last_digits(nanos / 1_000_000, 3));
    } else if nanos % 1_000 == 0 {
        assert(digits =~= last_digits(nanos / 1_000, 6));
    } else {
        assert(digits =~= last_digits(nanos, 9));
    }
}

/// The day and the time of day come back out of the seconds that they make up.
proof fn lemma_time_of_day(seconds: i64, date: int, hour: int, minute: int, second: int)
    requires
        0 <= hour < 24,
        0 <= minute < 60,
        0 <= second < 60,
        seconds == date * 86_400 + hour * 3600 + minute * 60 + second,
    ensures
        utc_day(seconds) == date,
        (seconds as int % 86_400) / 3600 == hour,
        (seconds as int % 86_400) / 60 % 60 == minute,
        (seconds as int % 86_400) % 60 == second,
{
    let time = hour * 3600 + minute * 60 + second;
    assert(utc_day(seconds) == date && seconds as int % 86_400 == time);
    assert(time / 60 == hour * 60 + minute);
}

/// Where each part of a date and time stands in its text.
proof fn lemma_parts_in_place(
    month: Seq<char>,
    day: Seq<char>,
    hour: Seq<char>,
    minute: Seq<char>,
    second: Seq<char>,
    fraction: Seq<char>,
    offset: Seq<char>,
)
    requires
        day.len() == 2,
        hour.len() == 2,
        minute.len() == 2,
        second.len() == 2,
        offset.len() == 6,
    ensures
        ({
            let text = month + seq!['-'] + day + seq!['T'] + hour + seq![':'] + minute + seq![':']
                + second + fraction + offset;
            let m = month.len() as int;
            let n = text.len() as int;
            &&& n >= m + 18
            &&& text.take(m) == month
            &&& text[m] == '-'
            &&& text.subrange(m + 1, m + 3) == day
            &&& text[m + 3] == 'T'
            &&& text.subrange(m + 4, m + 6) == hour
            &&& text[m + 6] == ':'
            &&& text.subrange(m + 7, m + 9) == minute
            &&& text[m + 9] == ':'
            &&& text.subrange(m + 10, m + 12) == second
            &&& text.subrange(m + 12, n - 6) == fraction
            &&& text.skip(n - 6) == offset
        }),
{
    let text = month + seq!['-'] + day + seq!['T'] + hour + seq![':'] + minute + seq![':'] + second
        + fraction + offset;
    let m = month.len() as int;
    let n = text.len() as int;
    assert(text.take(m) =~= month);
    assert(text.subrange(m + 1, m + 3) =~= day);
    assert(text.subrange(m + 4, m + 6) =~= hour);
    assert(text.subrange(m + 7, m + 9) =~= minute);
    assert(text.subrange(m + 10, m + 12) =~= second);
    assert(text.subrange(m + 12, n - 6) =~= fraction);
    assert(text.skip(n - 6) =~= offset);
}

/// The text of an instant shows the date and the time of day that make up its seconds,
/// each in its place: the month, the day, the hour, the minute and the second, the last
/// four in two digits. The fraction follows, and the offset. Within a leap second the
/// second that is shown is one later.
pub proof fn law_text_shows_date_and_time(
    seconds: i64,
    year: int,
    month: int,
    day: int,
    hour: int,
    minute: int,
    second: int,
    nanos: u32,
    leap: bool,
)
    requires
        1 <= month <= 12,
        1 <= day <= month_length(year, month),
        0 <= hour < 24,
        0 <= minute < 60,
        0 <= second < 60,
        nanos < 1_000_000_000,
        seconds == (month_start(year, month) + day - 1) * 86_400 + hour * 3600 + minute * 60
            + second,
    ensures
        utc_month_text(seconds) == month_text(year, month),
        ({
            let text = rfc3339_text(
                seconds,
                if leap {
                    (nanos + 1_000_000_000) as u32
                } else {
                    nanos
                },
            );
            let m = month_text(year, month).len() as int;
            let n = text.len() as int;
            let shown = second + if leap {
                1int
            } else {
                0int
            };
            &&& n >= m + 18
            &&& text.take(m) == month_text(year, month)
            &&& text[m] == '-'
            &&& is_decimal(text.subrange(m + 1, m + 3))
            &&& decimal_value(text.subrange(m + 1, m + 3)) == day
            &&& text[m + 3] == 'T'
            &&& is_decimal(text.subrange(m + 4, m + 6))
            &&& decimal_value(text.subrange(m + 4, m + 6)) == hour
            &&& text[m + 6] == ':'
            &&& is_decimal(text.subrange(m + 7, m + 9))
            &&& decimal_value(text.subrange(m + 7, m + 9)) == minute
            &&& text[m + 9] == ':'
            &&& is_decimal(text.subrange(m + 10, m + 12))
            &&& decimal_value(text.subrange(m + 10, m + 12)) == shown
            &&& text.subrange(m + 12, n - 6) == fraction_text(nanos as nat)
            &&& text.skip(n - 6) == "+00:00"@
        }),
{
    reveal_strlit("+00:00");
    let shown = second + if leap {
        1int
    } else {
        0int
    };
    let date = month_start(year, month) + day - 1;
    lemma_time_of_day(seconds, date, hour, minute, second);
    law_day_lies_in_one_month(date, year, month);
    assert(ten_to(2) == 100) by {
        reveal_with_fuel(ten_to, 3);
    }
    law_last_digits_read_back(day as nat, 2);
    law_last_digits_read_back(hour as nat, 2);
    law_last_digits_read_back(minute as nat, 2);
    law_last_digits_read_back(shown as nat, 2);
    lemma_parts_in_place(
        month_text(year, month),
        last_digits(day as nat, 2),
        last_digits(hour as nat, 2),
        last_digits(minute as nat, 2),
        last_digits(shown as nat, 2),
        fraction_text(nanos as nat),
        "+00:00"@,
    );
}

/// There is an instant for every second of the years -262143 to 262142, and none besides,
/// with less than two seconds of nanoseconds.
pub proof fn law_instants_are_those_of_the_known_years(seconds: i64, nanos: u32)
    ensures
        is_instant(seconds, nanos) <==> {
            &&& month_start(-262_143, 1) * 86_400 <= seconds < month_start(262_143, 1) * 86_400
            &&& nanos / 1_000_000_000 < 2
        },
{
}

}
