//! Instants, clock readings and weekdays.

use crate::text;
use chrono::{Datelike, Timelike};
use vstd::prelude::*;

verus! {

/// A reading of a clock: the second of the day and the nanoseconds past it. In
/// a leap second the nanoseconds are a thousand million or more.
#[derive(Debug, Clone, Copy, PartialEq, Eq, Structural)]
pub struct ClockTime {
    pub secs: u32,
    pub nanos: u32,
}

impl ClockTime {
    /// Whether this reading comes before the other.
    pub open spec fn earlier(self, other: ClockTime) -> bool {
        self.secs < other.secs || (self.secs == other.secs && self.nanos < other.nanos)
    }

    pub fn is_before(&self, other: ClockTime) -> (r: bool)
        ensures
            r == self.earlier(other),
    {
        self.secs < other.secs || (self.secs == other.secs && self.nanos < other.nanos)
    }
}

/// An instant: the seconds since the epoch and the nanoseconds past them. In a
/// leap second the nanoseconds are a thousand million or more.
#[derive(Debug, Clone, Copy, PartialEq, Eq, Structural)]
pub struct Instant {
    pub secs: i64,
    pub nanos: u32,
}

impl Instant {
    /// Whether this instant comes before the other.
    pub open spec fn earlier(self, other: Instant) -> bool {
        self.secs < other.secs || (self.secs == other.secs && self.nanos < other.nanos)
    }

    pub fn is_before(&self, other: Instant) -> (r: bool)
        ensures
            r == self.earlier(other),
    {
        self.secs < other.secs || (self.secs == other.secs && self.nanos < other.nanos)
    }
}

#[derive(Debug, Clone, Copy, PartialEq, Eq, Structural)]
pub enum Weekday {
    Mon,
    Tue,
    Wed,
    Thu,
    Fri,
    Sat,
    Sun,
}

/// The day of the week with the given number, where Monday is 0.
pub open spec fn weekday_number(n: int) -> Weekday {
    if n == 0 {
        Weekday::Mon
    } else if n == 1 {
        Weekday::Tue
    } else if n == 2 {
        Weekday::Wed
    } else if n == 3 {
        Weekday::Thu
    } else if n == 4 {
        Weekday::Fri
    } else if n == 5 {
        Weekday::Sat
    } else {
        Weekday::Sun
    }
}

/// The weekday of a count of days since the epoch, which was a Thursday.
pub open spec fn weekday_of_day(day: int) -> Weekday {
    weekday_number((day + 3) % 7)
}

/// The day before.
pub open spec fn day_before(day: Weekday) -> Weekday {
    match day {
        Weekday::Mon => Weekday::Sun,
        Weekday::Tue => Weekday::Mon,
        Weekday::Wed => Weekday::Tue,
        Weekday::Thu => Weekday::Wed,
        Weekday::Fri => Weekday::Thu,
        Weekday::Sat => Weekday::Fri,
        Weekday::Sun => Weekday::Sat,
    }
}

/// The day before `weekday_of_day(n)` is the weekday of the day before `n`.
pub proof fn day_before_is_previous_day(day: int)
    ensures
        day_before(weekday_of_day(day)) == weekday_of_day(day - 1),
{
}

pub fn previous_weekday(day: Weekday) -> (r: Weekday)
    ensures
        r == day_before(day),
{
    match day {
        Weekday::Mon => Weekday::Sun,
        Weekday::Tue => Weekday::Mon,
        Weekday::Wed => Weekday::Tue,
        Weekday::Thu => Weekday::Wed,
        Weekday::Fri => Weekday::Thu,
        Weekday::Sat => Weekday::Fri,
        Weekday::Sun => Weekday::Sat,
    }
}

/// The seconds since the epoch that a clock `offset` minutes ahead of UTC shows
/// at `at`. A leap second that is shifted at all becomes an ordinary one: the
/// second it extends when it is shifted forward, the next one when it is
/// shifted back.
pub open spec fn local_secs(at: Instant, offset: int) -> int {
    if at.nanos >= 1_000_000_000 && offset < 0 {
        at.secs + 60 * offset + 1
    } else {
        at.secs + 60 * offset
    }
}

/// The nanoseconds past [`local_secs`].
pub open spec fn local_nanos(at: Instant, offset: int) -> int {
    if at.nanos >= 1_000_000_000 && offset != 0 {
        at.nanos - 1_000_000_000
    } else {
        at.nanos as int
    }
}

/// The clock reading at `at`, `offset` minutes ahead of UTC.
pub open spec fn local_clock(at: Instant, offset: int) -> ClockTime {
    ClockTime {
        secs: (local_secs(at, offset) % 86_400) as u32,
        nanos: local_nanos(at, offset) as u32,
    }
}

/// The weekday at `at`, `offset` minutes ahead of UTC.
pub open spec fn local_weekday(at: Instant, offset: int) -> Weekday {
    weekday_of_day(local_secs(at, offset) / 86_400)
}

fn weekday_from_number(n: u64) -> (r: Weekday)
    requires
        n < 7,
    ensures
        r == weekday_number(n as int),
{
    if n == 0 {
        Weekday::Mon
    } else if n == 1 {
        Weekday::Tue
    } else if n == 2 {
        Weekday::Wed
    } else if n == 3 {
        Weekday::Thu
    } else if n == 4 {
        Weekday::Fri
    } else if n == 5 {
        Weekday::Sat
    } else {
        Weekday::Sun
    }
}

/// The clock reading and the weekday at `at`, `offset` minutes ahead of UTC.
pub fn local_reading(at: Instant, offset: i32) -> (r: (ClockTime, Weekday))
    ensures
        r.0 == local_clock(at, offset as int),
        r.1 == local_weekday(at, offset as int),
{
    let leap: bool = at.nanos >= 1_000_000_000;
    let nanos: u32 = if leap && offset != 0 {
        at.nanos - 1_000_000_000
    } else {
        at.nanos
    };
    let mut secs: i128 = at.secs as i128 + 60 * (offset as i128);
    if leap && offset < 0 {
        secs = secs + 1;
    }
    // A whole number of weeks moves the count above zero and changes neither
    // the time of day nor the weekday.
    let moved: i128 = secs + 604_800 * 0x2000_0000_0000;
    assert(moved == local_secs(at, offset as int) + 604_800 * 0x2000_0000_0000);
    assert(moved % 86_400 == local_secs(at, offset as int) % 86_400);
    assert(moved / 86_400 == local_secs(at, offset as int) / 86_400 + 7 * 0x2000_0000_0000);
    let secs_of_day: i128 = moved % 86_400;
    let day: i128 = (moved / 86_400 + 3) % 7;
    (ClockTime { secs: secs_of_day as u32, nanos }, weekday_from_number(day as u64))
}

/// One reading comes before another where it is the smaller number, counted in
/// parts of a second.
pub proof fn readings_are_ordered_by_time(a: ClockTime, b: ClockTime)
    ensures
        a.earlier(b) <==> a.secs * 0x1_0000_0000 + a.nanos < b.secs * 0x1_0000_0000 + b.nanos,
{
}

/// One instant comes before another where it is the smaller number, counted in
/// parts of a second.
pub proof fn instants_are_ordered_by_time(a: Instant, b: Instant)
    ensures
        a.earlier(b) <==> a.secs * 0x1_0000_0000 + a.nanos < b.secs * 0x1_0000_0000 + b.nanos,
{
}

/// A clock `offset` minutes ahead of UTC shows the instant that many minutes
/// later: the second `secs` of the day `day` since the epoch. The epoch was a
/// Thursday, and the weekdays follow on each other.
pub proof fn local_reading_is_the_shifted_instant(at: Instant, offset: int, day: int, secs: int)
    requires
        at.nanos < 1_000_000_000,
        at.secs + 60 * offset == 86_400 * day + secs,
        0 <= secs < 86_400,
    ensures
        local_clock(at, offset).secs == secs,
        local_clock(at, offset).nanos == at.nanos,
        day % 7 == 0 ==> local_weekday(at, offset) == Weekday::Thu,
        day % 7 == 1 ==> local_weekday(at, offset) == Weekday::Fri,
        day % 7 == 2 ==> local_weekday(at, offset) == Weekday::Sat,
        day % 7 == 3 ==> local_weekday(at, offset) == Weekday::Sun,
        day % 7 == 4 ==> local_weekday(at, offset) == Weekday::Mon,
        day % 7 == 5 ==> local_weekday(at, offset) == Weekday::Tue,
        day % 7 == 6 ==> local_weekday(at, offset) == Weekday::Wed,
{
    assert(local_secs(at, offset) / 86_400 == day);
}

/// A leap second is read as it is on a clock that shows UTC. On a shifted clock
/// it is the ordinary second before it or after it, at the same fraction.
pub proof fn leap_second_is_read_as_an_ordinary_one(at: Instant, offset: int, plain: Instant)
    requires
        1_000_000_000 <= at.nanos < 2_000_000_000,
        offset != 0,
        plain.nanos == at.nanos - 1_000_000_000,
        plain.secs == if offset > 0 {
            at.secs as int
        } else {
            at.secs + 1
        },
    ensures
        local_clock(at, offset) == local_clock(plain, offset),
        local_weekday(at, offset) == local_weekday(plain, offset),
{
}

/// The day before a day is the one that it follows, through the whole week.
pub proof fn days_follow_on_each_other(day: Weekday)
    ensures
        day_before(day) != day,
        day_before(
            day_before(day_before(day_before(day_before(day_before(day_before(day)))))),
        ) == day,
        day_before(Weekday::Tue) == Weekday::Mon,
        day_before(Weekday::Wed) == Weekday::Tue,
        day_before(Weekday::Thu) == Weekday::Wed,
        day_before(Weekday::Fri) == Weekday::Thu,
        day_before(Weekday::Sat) == Weekday::Fri,
        day_before(Weekday::Sun) == Weekday::Sat,
{
}

/// What `chrono::NaiveTime::parse_from_str` reads from `text` by `format`.
pub uninterp spec fn clock_parsed(text: Seq<char>, format: Seq<char>) -> Option<ClockTime>;

/// `chrono::NaiveTime::parse_from_str`: the clock reading that `text` gives by
/// the strftime-like `format`, or nothing where it does not match. The result
/// depends on the two texts alone.
#[verifier::external_body]
pub(crate) fn parse_clock(text: &str, format: &str) -> (r: Option<ClockTime>)
    ensures
        r == clock_parsed(text@, format@),
{
    match chrono::NaiveTime::parse_from_str(text, format) {
        Ok(t) => Some(ClockTime { secs: t.num_seconds_from_midnight(), nanos: t.nanosecond() }),
        Err(_) => None,
    }
}

/// What `chrono::DateTime::parse_from_rfc3339` reads from `text`.
pub uninterp spec fn instant_parsed(text: Seq<char>) -> Option<Instant>;

/// `chrono::DateTime::parse_from_rfc3339`: the instant that an RFC 3339
/// timestamp names, or nothing where `text` is none. The result depends on the
/// text alone.
#[verifier::external_body]
pub(crate) fn parse_instant(text: &str) -> (r: Option<Instant>)
    ensures
        r == instant_parsed(text@),
{
    match chrono::DateTime::parse_from_rfc3339(text) {
        Ok(t) => Some(Instant { secs: t.timestamp(), nanos: t.timestamp_subsec_nanos() }),
        Err(_) => None,
    }
}

/// What `chrono::DateTime::format` writes of the instant `secs` in UTC by
/// `format`, where chrono has such an instant.
pub uninterp spec fn instant_written(secs: i64, format: Seq<char>) -> Option<Seq<char>>;

/// `chrono::DateTime::format` of the instant that `DateTime::from_timestamp`
/// gives for `secs`: its date in UTC by a strftime-like format, or nothing where
/// the seconds are out of chrono's range. The result depends on the two
/// arguments alone. Only the format of a date is asked for: a format that chrono
/// does not know makes it panic.
#[verifier::external_body]
pub(crate) fn write_instant(secs: i64, format: &str) -> (r: Option<String>)
    requires
        format@ == "%Y-%m-%d"@,
    ensures
        crate::model::opt_view(r) == instant_written(secs, format@),
{
    match chrono::DateTime::from_timestamp(secs, 0) {
        Some(t) => Some(t.format(format).to_string()),
        None => None,
    }
}

/// The year and the month that `chrono::Datelike` reads off the instant `secs`
/// in UTC, where chrono has such an instant.
pub uninterp spec fn month_at(secs: i64) -> Option<(i32, u32)>;

/// `chrono::Datelike::year` and `month` of the instant that
/// `DateTime::from_timestamp` gives for `secs`, or nothing where the seconds are
/// out of chrono's range. Months count from 1 to 12. The result depends on the
/// seconds alone.
#[verifier::external_body]
pub(crate) fn read_month(secs: i64) -> (r: Option<(i32, u32)>)
    ensures
        r == month_at(secs),
        match r {
            Some(m) => 1 <= m.1 <= 12,
            None => true,
        },
{
    match chrono::DateTime::from_timestamp(secs, 0) {
        Some(t) => Some((t.year(), t.month())),
        None => None,
    }
}

/// A number in decimal notation with at least two digits.
pub open spec fn two_digits(n: nat) -> Seq<char> {
    if n < 10 {
        "0"@ + text::decimal(n)
    } else {
        text::decimal(n)
    }
}

/// The label of a month: its year, and its number with two digits.
pub open spec fn month_label(year: int, month: nat) -> Seq<char> {
    text::signed_decimal(year) + "-"@ + two_digits(month)
}

/// Write the label of a month.
pub fn write_month(year: i32, month: u32) -> (r: String)
    ensures
        r@ == month_label(year as int, month as nat),
{
    let y = text::signed_text(year);
    let digits = text::decimal_text(month as u128);
    let m = if month < 10 {
        text::join2("0", digits.as_str())
    } else {
        digits
    };
    text::join3(y.as_str(), "-", m.as_str())
}

/// The day and the month in UTC that spending is counted under.
#[derive(Debug, PartialEq, Eq)]
pub struct WindowLabels {
    /// `YYYY-MM-DD`.
    pub day: String,
    /// `YYYY-MM`.
    pub month: String,
}

/// The labels of the windows that an instant falls into, where chrono has such
/// an instant.
pub fn labels_at(secs: i64) -> (r: Option<WindowLabels>)
    ensures
        match r {
            Some(labels) => {
                &&& instant_written(secs, "%Y-%m-%d"@) == Some(labels.day@)
                &&& month_at(secs) is Some
                &&& labels.month@ == month_label(
                    month_at(secs)->Some_0.0 as int,
                    month_at(secs)->Some_0.1 as nat,
                )
            },
            None => instant_written(secs, "%Y-%m-%d"@) is None || month_at(secs) is None,
        },
{
    match (write_instant(secs, "%Y-%m-%d"), read_month(secs)) {
        (Some(day), Some(m)) => Some(WindowLabels { day, month: write_month(m.0, m.1) }),
        _ => None,
    }
}

/// A month's label is its year, a dash and two digits that say its number.
pub proof fn month_label_says_year_and_month(year: int, month: nat)
    requires
        1 <= month <= 12,
    ensures
        ({
            let label = month_label(year, month);
            let behind = label.skip(label.len() - 2);
            &&& label.len() == text::signed_decimal(year).len() + 3
            &&& text::begins(label, text::signed_decimal(year))
            &&& label[label.len() - 3] == '-'
            &&& text::number(behind) == month
            &&& forall|i: int|
                0 <= i < behind.len() ==> '0' <= (#[trigger] behind[i]) && behind[i] <= '9'
        }),
{
    reveal_strlit("-");
    reveal_strlit("0");
    reveal_with_fuel(text::number, 3);
    reveal_with_fuel(text::decimal, 3);
    let front = text::signed_decimal(year);
    let digits = two_digits(month);
    text::decimal_says_the_number(month);
    if month < 10 {
        assert(text::decimal(month).len() == 1);
        assert(digits =~= seq!['0', text::decimal(month)[0]]);
        assert(digits.drop_last() =~= seq!['0']);
        assert(digits.drop_last().drop_last() =~= Seq::empty());
        assert(text::number(seq!['0']) == 0) by {
            assert(seq!['0'].drop_last() =~= Seq::<char>::empty());
        }
        assert(text::decimal(month).drop_last() =~= Seq::empty());
        assert(text::number(digits) == 10 * text::number(digits.drop_last()) + (digits.last() as int
            - '0' as int));
    } else {
        assert(text::decimal(month).len() == 2);
    }
    let label = month_label(year, month);
    assert(label =~= front + ("-"@ + digits));
    text::parts_are_found_again(front, "-"@ + digits);
    assert(label.skip(label.len() - 2) =~= digits);
}

} // verus!
