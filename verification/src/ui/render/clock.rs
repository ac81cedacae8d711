//! Days and times as a session sees them.
//!
//! The offset from UTC depends on the machine and the instant, so it comes from
//! the caller.
use chrono::{DateTime, Datelike, NaiveDate, Timelike};
use vstd::prelude::*;

use crate::model::Millis;
use crate::text::cat3;

verus! {

/// January 1, 1970, counted from January 1 of the year 1, which is day 1.
pub const EPOCH_DAY: i32 = 719_163;

/// The first day of the calendar.
pub const FIRST_DAY: i32 = -95_746_129;

/// The last day of the calendar.
pub const LAST_DAY: i32 = 95_745_399;

/// The formats a date is written in.
pub const WEEKDAY_DATE: &'static str = "%A, %-d %B";

pub const FULL_DATE: &'static str = "%-d %B %Y";

pub const SHORT_DATE: &'static str = "%-d %b";

/// A day, counted like [`EPOCH_DAY`], and a minute of that day.
#[derive(Debug, Clone, Copy, PartialEq, Eq, Structural)]
pub struct LocalTime {
    pub day: i32,
    pub minute: u32,
}

impl LocalTime {
    pub open spec fn valid(self) -> bool {
        FIRST_DAY <= self.day <= LAST_DAY && self.minute < 1440
    }
}

pub open spec fn in_calendar(day: int) -> bool {
    FIRST_DAY <= day <= LAST_DAY
}

/// The day of an instant in UTC.
pub open spec fn utc_day(at: Millis) -> int {
    at as int / 86_400_000 + EPOCH_DAY
}

/// The second of that day.
pub open spec fn utc_second(at: Millis) -> int {
    at as int % 86_400_000 / 1000
}

/// [`chrono::DateTime::from_timestamp_millis`]: the day and the second of an
/// instant in UTC, or nothing when the day is not in the calendar.
#[verifier::external_body]
fn utc(at: Millis) -> (r: Option<(i32, u32)>)
    ensures
        r is Some <==> in_calendar(utc_day(at)),
        r is Some ==> r->Some_0.0 == utc_day(at) && r->Some_0.1 == utc_second(at),
{
    let when = DateTime::from_timestamp_millis(at)?;
    Some((when.num_days_from_ce(), when.num_seconds_from_midnight()))
}

/// The seconds since day 0 that a clock `offset` seconds ahead of UTC shows. An
/// instant outside the calendar counts as the epoch.
pub open spec fn shown_seconds(at: Millis, offset: int) -> int {
    if in_calendar(utc_day(at)) {
        utc_day(at) * 86_400 + utc_second(at) + offset
    } else {
        EPOCH_DAY * 86_400 + offset
    }
}

/// Whether a clock `offset` seconds ahead of UTC can show an instant: it is less
/// than a day ahead or behind, and the day is in the calendar.
pub open spec fn can_show(at: Millis, offset: i32) -> bool {
    -86_400 < offset < 86_400 && in_calendar(shown_seconds(at, offset as int) / 86_400)
}

/// The day and the minute that a clock `offset` seconds ahead of UTC shows at
/// an instant.
pub open spec fn shown(at: Millis, offset: i32) -> LocalTime {
    let seconds = shown_seconds(at, offset as int);
    LocalTime { day: (seconds / 86_400) as i32, minute: (seconds % 86_400 / 60) as u32 }
}

/// The day and the minute that a clock `offset` seconds ahead of UTC shows at
/// an instant.
pub fn local_time(at: Millis, offset: i32) -> (r: LocalTime)
    requires
        can_show(at, offset),
    ensures
        r == shown(at, offset),
        r.valid(),
        r.day == shown_seconds(at, offset as int) / 86_400,
        r.minute == shown_seconds(at, offset as int) % 86_400 / 60,
{
    let (day, second) = match utc(at) {
        Some(t) => t,
        None => (EPOCH_DAY, 0u32),
    };
    let shown: i32 = second as i32 + offset;
    if shown < 0 {
        LocalTime { day: day - 1, minute: (shown + 86_400) as u32 / 60 }
    } else if shown >= 86_400 {
        LocalTime { day: day + 1, minute: (shown - 86_400) as u32 / 60 }
    } else {
        LocalTime { day, minute: shown as u32 / 60 }
    }
}

// ---------------------------------------------------------------------------
// the calendar
// ---------------------------------------------------------------------------

/// The first day of a year of the Gregorian calendar.
pub open spec fn new_year(year: int) -> int {
    365 * (year - 1) + (year - 1) / 4 - (year - 1) / 100 + (year - 1) / 400 + 1
}

pub open spec fn day_of_year(day: int, year: int) -> bool {
    new_year(year) <= day < new_year(year + 1)
}

pub open spec fn same_year(a: int, b: int) -> bool {
    exists|year: int| #[trigger] day_of_year(a, year) && day_of_year(b, year)
}

/// [`chrono::Datelike::year`]: the year that a day of the calendar lies in.
#[verifier::external_body]
fn year_of(day: i32) -> (r: i32)
    requires
        in_calendar(day as int),
    ensures
        day_of_year(day as int, r as int),
{
    NaiveDate::from_num_days_from_ce_opt(day).unwrap_or_default().year()
}

/// A day lies in one year only.
pub proof fn years_do_not_overlap(day: int, a: int, b: int)
    requires
        day_of_year(day, a),
        day_of_year(day, b),
    ensures
        a == b,
{
}

/// A date, written in a format.
pub uninterp spec fn date_text(day: i32, format: Seq<char>) -> Seq<char>;

/// [`chrono::NaiveDate::format`], whose names of days and months are English.
#[verifier::external_body]
fn dated(day: i32, format: &str) -> (r: String)
    requires
        in_calendar(day as int),
        format@ == WEEKDAY_DATE@ || format@ == FULL_DATE@ || format@ == SHORT_DATE@,
    ensures
        r@ == date_text(day, format@),
{
    NaiveDate::from_num_days_from_ce_opt(day).unwrap_or_default().format(format).to_string()
}

// ---------------------------------------------------------------------------
// texts
// ---------------------------------------------------------------------------

pub open spec fn digit_char(n: int) -> char {
    (('0' as int) + n % 10) as char
}

pub open spec fn two_digits(n: int) -> Seq<char> {
    seq![digit_char(n / 10), digit_char(n)]
}

/// The hour and the minute.
pub open spec fn clock_text(minute: u32) -> Seq<char> {
    two_digits(minute as int / 60) + seq![':'] + two_digits(minute as int % 60)
}

fn push_two(out: &mut String, n: u32)
    requires
        n < 100,
    ensures
        final(out)@ == old(out)@ + two_digits(n as int),
{
    let ghost before = out@;
    out.push((48u8 + (n / 10) as u8) as char);
    out.push((48u8 + (n % 10) as u8) as char);
    assert(out@ =~= before + two_digits(n as int));
}

pub fn clock(minute: u32) -> (r: String)
    requires
        minute < 1440,
    ensures
        r@ == clock_text(minute),
{
    let mut out = String::new();
    push_two(&mut out, minute / 60);
    out.push(':');
    push_two(&mut out, minute % 60);
    assert(out@ =~= clock_text(minute));
    out
}

/// What a day is called today.
pub open spec fn day_label(day: i32, today: i32) -> Seq<char> {
    if day == today {
        "today"@
    } else if today - day == 1 {
        "yesterday"@
    } else if same_year(day as int, today as int) {
        date_text(day, WEEKDAY_DATE@)
    } else {
        date_text(day, FULL_DATE@)
    }
}

pub fn label_day(day: i32, today: i32) -> (r: String)
    requires
        in_calendar(day as int),
        in_calendar(today as int),
    ensures
        r@ == day_label(day, today),
{
    if day == today {
        return "today".to_owned();
    }
    if today - day == 1 {
        return "yesterday".to_owned();
    }
    let (year, now) = (year_of(day), year_of(today));
    proof {
        if same_year(day as int, today as int) {
            let y = choose|y: int| #[trigger]
                day_of_year(day as int, y) && day_of_year(today as int, y);
            years_do_not_overlap(day as int, y, year as int);
            years_do_not_overlap(today as int, y, now as int);
        }
    }
    if year == now {
        dated(day, WEEKDAY_DATE)
    } else {
        dated(day, FULL_DATE)
    }
}

/// A date with its year.
pub fn full_date(day: i32) -> (r: String)
    requires
        in_calendar(day as int),
    ensures
        r@ == date_text(day, FULL_DATE@),
{
    dated(day, FULL_DATE)
}

/// A date without its year, and the time.
pub open spec fn moment_text(at: LocalTime) -> Seq<char> {
    date_text(at.day, SHORT_DATE@) + " "@ + clock_text(at.minute)
}

pub fn moment(at: LocalTime) -> (r: String)
    requires
        at.valid(),
    ensures
        r@ == moment_text(at),
{
    let date = dated(at.day, SHORT_DATE);
    let time = clock(at.minute);
    cat3(date.as_str(), " ", time.as_str())
}

/// The time is written as two digits of the hour, a colon and two digits of the
/// minute.
pub proof fn the_clock_shows_hours_and_minutes(hour: u32, minute: u32)
    requires
        hour < 24,
        minute < 60,
    ensures
        clock_text((hour * 60 + minute) as u32) == seq![
            (48 + hour / 10) as char,
            (48 + hour % 10) as char,
            ':',
            (48 + minute / 10) as char,
            (48 + minute % 10) as char,
        ],
{
    let n = (hour * 60 + minute) as int;
    assert(n / 60 == hour && n % 60 == minute);
    assert(clock_text(n as u32) =~= seq![
        (48 + hour / 10) as char,
        (48 + hour % 10) as char,
        ':',
        (48 + minute / 10) as char,
        (48 + minute % 10) as char,
    ]);
}

/// The epoch is the first minute of its day in UTC; a clock that is ahead shows
/// as much more, and time goes on by as much as passes, from the end of one day
/// into the next.
pub proof fn clocks_run_with_time(at: Millis, offset: i32, minutes: i32)
    requires
        0 <= at <= 0xffff_ffff_ffff,
        -86_400 < offset < 86_400,
        0 <= minutes <= 1440,
        0 <= shown_seconds(at, offset as int),
    ensures
        shown(0, 0) == (LocalTime { day: 719_163, minute: 0 }),
        ({
            let now = shown(at, offset);
            let later = shown((at + minutes * 60_000) as Millis, offset);
            let ahead = shown_seconds(at, offset + minutes * 60);
            &&& now.minute < 1440
            &&& later.day * 1440 + later.minute == now.day * 1440 + now.minute + minutes
            &&& ahead == shown_seconds(at, offset as int) + minutes * 60
        }),
{
    let then = (at + minutes * 60_000) as Millis;
    assert(in_calendar(utc_day(at)) && in_calendar(utc_day(then)));
    let a = at as int;
    let t = a + minutes * 60_000;
    assert(a / 86_400_000 * 86_400 + a % 86_400_000 / 1000 == a / 1000);
    assert(t / 86_400_000 * 86_400 + t % 86_400_000 / 1000 == t / 1000);
    assert(t / 1000 == a / 1000 + minutes * 60);
    let s = shown_seconds(at, offset as int);
    let u = shown_seconds(then, offset as int);
    assert(u == s + minutes * 60);
    assert(s / 86_400 * 1440 + s % 86_400 / 60 == s / 60);
    assert(u / 86_400 * 1440 + u % 86_400 / 60 == u / 60);
    assert(u / 60 == s / 60 + minutes);
}

/// The day of today is called so, and the day before it too; any other day by
/// its date, with the year if that is another one.
pub proof fn days_are_called_by_how_long_ago_they_were(day: i32, today: i32)
    requires
        in_calendar(today as int) && in_calendar(today - 1) && in_calendar(day as int),
    ensures
        day_label(today, today) == "today"@,
        day_label((today - 1) as i32, today) == "yesterday"@,
        day != today && day != today - 1 && same_year(day as int, today as int) ==> day_label(
            day,
            today,
        ) == date_text(day, "%A, %-d %B"@),
        day != today && day != today - 1 && !same_year(day as int, today as int) ==> day_label(
            day,
            today,
        ) == date_text(day, "%-d %B %Y"@),
{
}

/// A year has 365 days, and 366 if it is divisible by four but not by a
/// hundred, or by four hundred; 1970 begins with the epoch.
pub proof fn leap_years_have_a_day_more(year: int)
    ensures
        new_year(year + 1) - new_year(year) == if year % 4 == 0 && year % 100 != 0 || year % 400
            == 0 {
            366int
        } else {
            365
        },
        new_year(1970) == 719_163,
        new_year(1) == 1,
{
}

/// A moment is told as its date and behind it, after a space, the hour and the
/// minute.
pub proof fn a_moment_ends_with_its_time(day: i32, hour: u32, minute: u32)
    requires
        hour < 24,
        minute < 60,
    ensures
        moment_text(LocalTime { day, minute: (hour * 60 + minute) as u32 }) == date_text(
            day,
            "%-d %b"@,
        ) + seq![
            ' ',
            (48 + hour / 10) as char,
            (48 + hour % 10) as char,
            ':',
            (48 + minute / 10) as char,
            (48 + minute % 10) as char,
        ],
{
    the_clock_shows_hours_and_minutes(hour, minute);
    reveal_strlit(" ");
    let at = LocalTime { day, minute: (hour * 60 + minute) as u32 };
    let told = clock_text(at.minute);
    assert(moment_text(at) =~= date_text(day, "%-d %b"@) + (" "@ + told));
    assert(" "@ + told =~= seq![
        ' ',
        (48 + hour / 10) as char,
        (48 + hour % 10) as char,
        ':',
        (48 + minute / 10) as char,
        (48 + minute % 10) as char,
    ]);
}

} // verus!
