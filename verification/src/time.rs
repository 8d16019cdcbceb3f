//! Moments of time: how they are read and shown, and the calendar days of Moscow.

use chrono::{Datelike, TimeZone, Timelike};
use vstd::prelude::*;

use crate::text::{agrees, view_option};

verus! {

/// The first second that a timestamp of four digits of a year can name.
pub const EARLIEST_SECOND: i64 = -62_167_305_599;

/// The last second that a timestamp of four digits of a year can name.
pub const LATEST_SECOND: i64 = 253_402_387_198;

/// The seconds of a day.
pub const DAY_SECONDS: i64 = 86_400;

/// How far the clocks of Moscow are ahead of UTC, in seconds.
pub const MOSCOW_OFFSET: i32 = 10_800;

/// The day number of the first of January 1970, counted from the first day of year one.
pub const EPOCH_DAY: i64 = 719_163;

/// The number of the first day of the calendar, counted from the first day of year one.
pub const FIRST_DAY: i32 = -95_746_129;

/// The number of the last day of the calendar, counted from the first day of year one.
pub const LAST_DAY: i32 = 95_745_399;

/// The nanoseconds of a second.
pub const SECOND_NANOS: i64 = 1_000_000_000;

/// A moment with an offset from UTC, and the forms in which it is written by default.
pub struct Moment {
    pub seconds: i64,
    pub nanos: u32,
    pub offset: i32,
    pub text: String,
    pub utc_text: String,
    pub shown: String,
}

/// A moment with its default forms, mathematically.
pub ghost struct MomentModel {
    pub seconds: i64,
    pub nanos: u32,
    pub offset: i32,
    pub text: Seq<char>,
    pub utc_text: Seq<char>,
    pub shown: Seq<char>,
}

impl View for Moment {
    type V = MomentModel;

    open spec fn view(&self) -> MomentModel {
        MomentModel {
            seconds: self.seconds,
            nanos: self.nanos,
            offset: self.offset,
            text: self.text@,
            utc_text: self.utc_text@,
            shown: self.shown@,
        }
    }
}

/// A moment with an offset from UTC, and the forms in which it is written.
#[derive(Debug, PartialEq, Eq)]
pub struct Timestamp {
    /// The second, counted from the beginning of 1970 in UTC.
    pub seconds: i64,
    /// The nanoseconds after that second.
    pub nanos: u32,
    /// How far the local clock is ahead of UTC, in seconds.
    pub offset: i32,
    /// The moment by RFC 3339.
    pub text: String,
    /// The moment in UTC by RFC 3339.
    pub utc_text: String,
    /// The moment in UTC, as calendars write it.
    pub stamp: String,
    /// The moment as it is shown in prose.
    pub shown: String,
    /// The date in UTC.
    pub date: String,
}

/// A moment, mathematically.
pub ghost struct TimestampModel {
    pub seconds: i64,
    pub nanos: u32,
    pub offset: i32,
    pub text: Seq<char>,
    pub utc_text: Seq<char>,
    pub stamp: Seq<char>,
    pub shown: Seq<char>,
    pub date: Seq<char>,
}

impl View for Timestamp {
    type V = TimestampModel;

    open spec fn view(&self) -> TimestampModel {
        TimestampModel {
            seconds: self.seconds,
            nanos: self.nanos,
            offset: self.offset,
            text: self.text@,
            utc_text: self.utc_text@,
            stamp: self.stamp@,
            shown: self.shown@,
            date: self.date@,
        }
    }
}

/// A moment lies in the years that four digits can name, at a possible offset.
pub open spec fn in_years(t: TimestampModel) -> bool {
    &&& EARLIEST_SECOND <= t.seconds <= LATEST_SECOND
    &&& is_offset(t.offset)
}

/// An offset is shorter than a day.
pub open spec fn is_offset(offset: i32) -> bool {
    -DAY_SECONDS < offset < DAY_SECONDS
}

/// A day has a date.
pub open spec fn has_date(day: int) -> bool {
    FIRST_DAY <= day <= LAST_DAY
}

/// A second and its nanoseconds name a moment. A leap second is the last of a minute, and has more
/// nanoseconds than others.
pub open spec fn is_moment(seconds: i64, nanos: u32) -> bool {
    &&& has_date(days_in(seconds as int) + EPOCH_DAY)
    &&& nanos < SECOND_NANOS || nanos < 2 * SECOND_NANOS && seconds % 60 == 59
}

/// What `chrono::DateTime::parse_from_rfc3339` reads; or its message.
pub uninterp spec fn rfc3339_parsed(value: Seq<char>) -> Result<MomentModel, Seq<char>>;

/// Reads a moment with `chrono::DateTime::parse_from_rfc3339`. A year has four digits and an offset
/// is shorter than a day, so the moment that is read lies within the bounds.
#[verifier::external_body]
fn parse_rfc3339(value: &str) -> (r: Result<Moment, String>)
    ensures
        agrees(r, rfc3339_parsed(value@)),
        r is Ok ==> is_moment(r->Ok_0.seconds, r->Ok_0.nanos),
        r is Ok ==> EARLIEST_SECOND <= r->Ok_0.seconds <= LATEST_SECOND,
        r is Ok ==> is_offset(r->Ok_0.offset),
{
    let time = chrono::DateTime::parse_from_rfc3339(value).map_err(|error| error.to_string())?;
    Ok(Moment {
        seconds: time.timestamp(),
        nanos: time.timestamp_subsec_nanos(),
        offset: time.offset().local_minus_utc(),
        text: time.to_rfc3339(),
        utc_text: time.with_timezone(&chrono::Utc).to_rfc3339(),
        shown: time.to_string(),
    })
}

/// The moment that `chrono::TimeZone::timestamp_opt` makes, if there is one.
pub uninterp spec fn timestamp_made(seconds: i64, nanos: u32, offset: i32) -> Option<MomentModel>;

/// Makes a moment with `chrono::TimeZone::timestamp_opt` at an offset of
/// `chrono::FixedOffset::east_opt`. It is made where the second and its nanoseconds name a moment and
/// the offset is shorter than a day, and keeps its parts.
#[verifier::external_body]
fn make_timestamp(seconds: i64, nanos: u32, offset: i32) -> (r: Option<Moment>)
    ensures
        view_option(r) == timestamp_made(seconds, nanos, offset),
        r is Some == (is_moment(seconds, nanos) && is_offset(offset)),
        r is Some ==> r->Some_0.seconds == seconds,
        r is Some ==> r->Some_0.nanos == nanos,
        r is Some ==> r->Some_0.offset == offset,
{
    let zone = chrono::FixedOffset::east_opt(offset)?;
    let time = zone.timestamp_opt(seconds, nanos).single()?;
    Some(Moment {
        seconds: time.timestamp(),
        nanos: time.timestamp_subsec_nanos(),
        offset: time.offset().local_minus_utc(),
        text: time.to_rfc3339(),
        utc_text: time.with_timezone(&chrono::Utc).to_rfc3339(),
        shown: time.to_string(),
    })
}

/// What `chrono::DateTime::format` writes of a moment in UTC.
pub uninterp spec fn utc_formatted(seconds: i64, nanos: u32, format: Seq<char>) -> Seq<char>;

/// Writes a moment in UTC with `chrono::DateTime::format`. That fails on a format it does not know,
/// so the format is one of those in use here.
#[verifier::external_body]
fn format_utc(seconds: i64, nanos: u32, format: &str) -> (r: String)
    requires
        is_moment(seconds, nanos),
        format@ == "%Y%m%dT%H%M%SZ"@ || format@ == "%Y-%m-%d"@,
    ensures
        r@ == utc_formatted(seconds, nanos, format@),
{
    chrono::DateTime::from_timestamp(seconds, nanos).unwrap().format(format).to_string()
}

/// A moment in all the forms in which it is written.
pub open spec fn in_all_forms(m: MomentModel) -> TimestampModel {
    TimestampModel {
        seconds: m.seconds,
        nanos: m.nanos,
        offset: m.offset,
        text: m.text,
        utc_text: m.utc_text,
        stamp: utc_formatted(m.seconds, m.nanos, "%Y%m%dT%H%M%SZ"@),
        shown: m.shown,
        date: utc_formatted(m.seconds, m.nanos, "%Y-%m-%d"@),
    }
}

fn write_forms(moment: Moment) -> (r: Timestamp)
    requires
        is_moment(moment.seconds, moment.nanos),
    ensures
        r@ == in_all_forms(moment@),
{
    Timestamp {
        seconds: moment.seconds,
        nanos: moment.nanos,
        offset: moment.offset,
        text: moment.text,
        utc_text: moment.utc_text,
        stamp: format_utc(moment.seconds, moment.nanos, "%Y%m%dT%H%M%SZ"),
        shown: moment.shown,
        date: format_utc(moment.seconds, moment.nanos, "%Y-%m-%d"),
    }
}

/// What is read of a moment by RFC 3339, in all its forms; or a message.
pub open spec fn rfc3339_read(value: Seq<char>) -> Result<TimestampModel, Seq<char>> {
    match rfc3339_parsed(value) {
        Ok(moment) => Ok(in_all_forms(moment)),
        Err(message) => Err(message),
    }
}

/// Reads a moment by RFC 3339.
pub(crate) fn read_timestamp(value: &str) -> (r: Result<Timestamp, String>)
    ensures
        agrees(r, rfc3339_read(value@)),
        r is Ok ==> in_years(r->Ok_0@),
{
    match parse_rfc3339(value) {
        Ok(moment) => Ok(write_forms(moment)),
        Err(message) => Err(message),
    }
}

/// A moment at an offset, in all its forms, if there is one.
pub open spec fn moment_at(seconds: i64, nanos: u32, offset: i32) -> Option<TimestampModel> {
    match timestamp_made(seconds, nanos, offset) {
        Some(moment) => Some(in_all_forms(moment)),
        None => None,
    }
}

/// Makes a moment at an offset, where there is one.
pub(crate) fn timestamp_at(seconds: i64, nanos: u32, offset: i32) -> (r: Option<Timestamp>)
    ensures
        view_option(r) == moment_at(seconds, nanos, offset),
        r is Some == (is_moment(seconds, nanos) && is_offset(offset)),
        r is Some ==> r->Some_0@.seconds == seconds,
        r is Some ==> r->Some_0@.nanos == nanos,
        r is Some ==> r->Some_0@.offset == offset,
{
    match make_timestamp(seconds, nanos, offset) {
        Some(moment) => Some(write_forms(moment)),
        None => None,
    }
}

/// A reading of a plain value agrees with a mathematical one.
pub open spec fn agrees_plain<T>(r: Result<T, String>, model: Result<T, Seq<char>>) -> bool {
    match (r, model) {
        (Ok(value), Ok(expected)) => value == expected,
        (Err(message), Err(expected)) => message@ == expected,
        _ => false,
    }
}

/// The second of the day that `chrono::NaiveTime::parse_from_str` reads; or its message.
pub uninterp spec fn time_parsed(value: Seq<char>, format: Seq<char>) -> Result<u32, Seq<char>>;

/// Reads a time of the day with `chrono::NaiveTime::parse_from_str`. The result is a second of the
/// day.
#[verifier::external_body]
fn parse_time(value: &str, format: &str) -> (r: Result<u32, String>)
    ensures
        agrees_plain(r, time_parsed(value@, format@)),
        r is Ok ==> r->Ok_0 < DAY_SECONDS,
{
    match chrono::NaiveTime::parse_from_str(value, format) {
        Ok(time) => Ok(time.num_seconds_from_midnight()),
        Err(error) => Err(error.to_string()),
    }
}

/// The second of the day of hours and minutes; or a message.
pub open spec fn clock_read(value: Seq<char>) -> Result<u32, Seq<char>> {
    time_parsed(value, "%H:%M"@)
}

/// Reads hours and minutes: the second of the day.
pub(crate) fn read_clock(value: &str) -> (r: Result<u32, String>)
    ensures
        agrees_plain(r, clock_read(value@)),
        r is Ok ==> r->Ok_0 < DAY_SECONDS,
{
    parse_time(value, "%H:%M")
}

/// The second and nanosecond that `chrono::NaiveDateTime::parse_from_str` reads, as if the time stood
/// in UTC; or its message.
pub uninterp spec fn date_time_parsed(value: Seq<char>, format: Seq<char>) -> Result<
    (i64, u32),
    Seq<char>,
>;

/// Reads a date and a time of the day with `chrono::NaiveDateTime::parse_from_str`.
#[verifier::external_body]
fn parse_date_time(value: &str, format: &str) -> (r: Result<(i64, u32), String>)
    ensures
        agrees_plain(r, date_time_parsed(value@, format@)),
{
    match chrono::NaiveDateTime::parse_from_str(value, format) {
        Ok(time) => Ok((time.and_utc().timestamp(), time.and_utc().timestamp_subsec_nanos())),
        Err(error) => Err(error.to_string()),
    }
}

/// A calendar time such as `20260925T080000`, as if it stood in UTC; or a message.
pub open spec fn local_time_read(value: Seq<char>) -> Result<(i64, u32), Seq<char>> {
    date_time_parsed(value, "%Y%m%dT%H%M%S"@)
}

/// Reads a calendar time, such as `20260925T080000`, as if it stood in UTC.
pub(crate) fn read_local_time(value: &str) -> (r: Result<(i64, u32), String>)
    ensures
        agrees_plain(r, local_time_read(value@)),
{
    parse_date_time(value, "%Y%m%dT%H%M%S")
}

/// The number of the date that `chrono::NaiveDate::parse_from_str` reads, and of the date after it;
/// or its message.
pub uninterp spec fn date_parsed(value: Seq<char>, format: Seq<char>) -> Result<
    (i32, Option<i32>),
    Seq<char>,
>;

/// Reads a date with `chrono::NaiveDate::parse_from_str`: its number, counted by `num_days_from_ce`,
/// and that of the date after it, if `succ_opt` gives one. The number is that of a day of the
/// calendar.
#[verifier::external_body]
fn parse_date(value: &str, format: &str) -> (r: Result<(i32, Option<i32>), String>)
    ensures
        agrees_plain(r, date_parsed(value@, format@)),
        r is Ok ==> has_date(r->Ok_0.0 as int),
        r is Ok ==> r->Ok_0.1 == if r->Ok_0.0 < LAST_DAY {
            Some((r->Ok_0.0 + 1) as i32)
        } else {
            None
        },
{
    match chrono::NaiveDate::parse_from_str(value, format) {
        Ok(date) => Ok((date.num_days_from_ce(), date.succ_opt().map(|d| d.num_days_from_ce()))),
        Err(error) => Err(error.to_string()),
    }
}

/// What `chrono::NaiveDate::format` writes of a day.
pub uninterp spec fn date_formatted(day: i32, format: Seq<char>) -> Seq<char>;

/// Writes the date of a day with `chrono::NaiveDate::format`. That fails on a format it does not
/// know, so the format is the one in use here.
#[verifier::external_body]
fn format_date(day: i32, format: &str) -> (r: String)
    requires
        has_date(day as int),
        format@ == "%Y-%m-%d"@,
    ensures
        r@ == date_formatted(day, format@),
{
    chrono::NaiveDate::from_num_days_from_ce_opt(day).unwrap().format(format).to_string()
}

/// A calendar date such as `20260925`, written as `2026-09-25`; or a message.
pub open spec fn calendar_date_read(value: Seq<char>) -> Result<Seq<char>, Seq<char>> {
    match date_parsed(value, "%Y%m%d"@) {
        Ok(day) => Ok(date_formatted(day.0, "%Y-%m-%d"@)),
        Err(message) => Err(message),
    }
}

/// Reads a calendar date, such as `20260925`, and writes it as `2026-09-25`.
pub(crate) fn read_calendar_date(value: &str) -> (r: Result<String, String>)
    ensures
        agrees(r, calendar_date_read(value@)),
{
    match parse_date(value, "%Y%m%d") {
        Ok(day) => Ok(format_date(day.0, "%Y-%m-%d")),
        Err(message) => Err(message),
    }
}

/// The number of a date such as `2026-09-25`, and of the date after it.
pub open spec fn day_read(value: Seq<char>) -> Option<(i32, Option<i32>)> {
    match date_parsed(value, "%Y-%m-%d"@) {
        Ok(day) => Some(day),
        Err(_) => None,
    }
}

/// Reads a date, such as `2026-09-25`: its number, and that of the date after it.
pub(crate) fn read_day(value: &str) -> (r: Option<(i32, Option<i32>)>)
    ensures
        r == day_read(value@),
{
    match parse_date(value, "%Y-%m-%d") {
        Ok(day) => Some(day),
        Err(_) => None,
    }
}

/// What is read of a moment, if it is one.
pub open spec fn moment_in(text: Seq<char>) -> Option<TimestampModel> {
    match rfc3339_read(text) {
        Ok(moment) => Some(moment),
        Err(_) => None,
    }
}

/// Reads a moment, if it is one.
pub(crate) fn read_moment(text: &str) -> (r: Option<Timestamp>)
    ensures
        view_option(r) == moment_in(text@),
        r is Some ==> in_years(r->Some_0@),
{
    match read_timestamp(text) {
        Ok(moment) => Some(moment),
        Err(_) => None,
    }
}

/// Reads a moment by RFC 3339.
pub fn parse_moment(value: &str) -> (r: Result<Timestamp, String>)
    ensures
        agrees(r, rfc3339_read(value@)),
        r is Ok ==> in_years(r->Ok_0@),
{
    read_timestamp(value)
}

// Order of moments.

/// A moment comes after another.
pub open spec fn after(a: TimestampModel, b: TimestampModel) -> bool {
    a.seconds > b.seconds || a.seconds == b.seconds && a.nanos > b.nanos
}

/// Whether a moment comes after another.
pub fn is_after(a: &Timestamp, b: &Timestamp) -> (r: bool)
    ensures
        r == after(a@, b@),
{
    a.seconds > b.seconds || (a.seconds == b.seconds && a.nanos > b.nanos)
}

// Spans.

/// The second that a leap second adds to a span within a day, by the clock of UTC.
pub open spec fn leap_step(from: TimestampModel, to: TimestampModel) -> int {
    let start = from.seconds as int % DAY_SECONDS as int;
    let end = to.seconds as int % DAY_SECONDS as int;
    if end > start && from.nanos >= SECOND_NANOS {
        1
    } else if end < start && to.nanos >= SECOND_NANOS {
        -1
    } else {
        0
    }
}

/// The nanoseconds from one moment to another.
pub open spec fn span_nanos(from: TimestampModel, to: TimestampModel) -> int {
    (to.seconds - from.seconds + leap_step(from, to)) * SECOND_NANOS + to.nanos - from.nanos
}

/// The whole seconds from one moment to another; a part of a second does not count.
pub open spec fn whole_seconds(from: TimestampModel, to: TimestampModel) -> int {
    let span = span_nanos(from, to);
    if span >= 0 {
        span / (SECOND_NANOS as int)
    } else {
        -(-span / (SECOND_NANOS as int))
    }
}

/// Counts the whole seconds from one moment to another.
pub fn seconds_between(from: &Timestamp, to: &Timestamp) -> (r: i64)
    requires
        in_years(from@),
        in_years(to@),
    ensures
        r == whole_seconds(from@, to@),
{
    let start: i64 = from.seconds - whole_days(from.seconds) * DAY_SECONDS;
    let end: i64 = to.seconds - whole_days(to.seconds) * DAY_SECONDS;
    let leap: i64 = if end > start && from.nanos as i64 >= SECOND_NANOS {
        1
    } else if end < start && to.nanos as i64 >= SECOND_NANOS {
        -1
    } else {
        0
    };
    let seconds: i128 = (to.seconds - from.seconds + leap) as i128;
    let span: i128 = seconds * SECOND_NANOS as i128 + to.nanos as i128 - from.nanos as i128;
    if span >= 0 {
        (span / SECOND_NANOS as i128) as i64
    } else {
        -((-span / SECOND_NANOS as i128) as i64)
    }
}

/// Without leap seconds, the span from one moment to another is that of the way back, reversed.
pub proof fn law_spans_reverse(from: TimestampModel, to: TimestampModel)
    requires
        from.nanos < SECOND_NANOS,
        to.nanos < SECOND_NANOS,
    ensures
        whole_seconds(to, from) == -whole_seconds(from, to),
{
}

// Days.

/// The number of whole days in some seconds, rounded down.
pub open spec fn days_in(seconds: int) -> int {
    seconds / (DAY_SECONDS as int)
}

fn whole_days(seconds: i64) -> (r: i64)
    requires
        seconds > i64::MIN + DAY_SECONDS,
    ensures
        r == days_in(seconds as int),
{
    if seconds >= 0 {
        seconds / DAY_SECONDS
    } else {
        let up: i64 = -seconds + (DAY_SECONDS - 1);
        -(up / DAY_SECONDS)
    }
}

/// The number of the day of a moment on its own clock.
pub open spec fn local_day(t: TimestampModel) -> int {
    days_in(t.seconds + t.offset) + EPOCH_DAY
}

/// The number of the day of a moment on its own clock.
pub fn day_of(t: &Timestamp) -> (r: i64)
    requires
        in_years(t@),
    ensures
        r == local_day(t@),
{
    whole_days(t.seconds + t.offset as i64) + EPOCH_DAY
}

/// The beginning of the day after a moment, by the clocks of Moscow.
pub open spec fn moscow_tomorrow(seconds: int) -> int {
    (days_in(seconds + MOSCOW_OFFSET) + 1) * DAY_SECONDS - MOSCOW_OFFSET
}

/// The beginning of the day after a moment, by the clocks of Moscow.
pub fn moscow_midnight(seconds: i64) -> (r: i64)
    requires
        EARLIEST_SECOND <= seconds <= LATEST_SECOND,
    ensures
        r == moscow_tomorrow(seconds as int),
        seconds < r <= seconds + DAY_SECONDS,
{
    let day = whole_days(seconds + MOSCOW_OFFSET as i64);
    (day + 1) * DAY_SECONDS - MOSCOW_OFFSET as i64
}

/// The day after a moment begins at midnight in Moscow, at most a day later.
pub proof fn law_tomorrow_begins_at_midnight(seconds: int)
    ensures
        seconds < moscow_tomorrow(seconds) <= seconds + DAY_SECONDS,
        (moscow_tomorrow(seconds) + MOSCOW_OFFSET) % (DAY_SECONDS as int) == 0,
{
}

/// The next second at which the clocks of Moscow show a time of the day.
pub open spec fn next_clock(now: int, clock: int) -> int {
    let local = now + MOSCOW_OFFSET;
    let midnight = days_in(local) * DAY_SECONDS;
    if local - midnight < clock {
        midnight + clock - MOSCOW_OFFSET
    } else {
        midnight + DAY_SECONDS + clock - MOSCOW_OFFSET
    }
}

/// The next second at which the clocks of Moscow show a time of the day.
pub fn next_time(now: i64, clock: u32) -> (r: i64)
    requires
        i64::MIN + 1_000_000 <= now <= i64::MAX - 1_000_000,
        clock < DAY_SECONDS,
    ensures
        r == next_clock(now as int, clock as int),
{
    let local: i64 = now + MOSCOW_OFFSET as i64;
    let midnight: i64 = whole_days(local) * DAY_SECONDS;
    if local - midnight < clock as i64 {
        midnight + clock as i64 - MOSCOW_OFFSET as i64
    } else {
        midnight + DAY_SECONDS + clock as i64 - MOSCOW_OFFSET as i64
    }
}

/// The next time a clock shows a time of the day lies ahead, within a day, and shows that time; and
/// there is no such moment before it.
pub proof fn law_next_clock_is_the_first(now: int, clock: int, other: int)
    requires
        0 <= clock < DAY_SECONDS,
    ensures
        now < next_clock(now, clock) <= now + DAY_SECONDS,
        (next_clock(now, clock) + MOSCOW_OFFSET) % (DAY_SECONDS as int) == clock,
        now < other && (other + MOSCOW_OFFSET) % (DAY_SECONDS as int) == clock ==> next_clock(
            now,
            clock,
        ) <= other,
{
}

/// Between moments at full seconds lie the seconds by which they differ.
pub proof fn law_whole_seconds_are_the_difference(from: TimestampModel, to: TimestampModel)
    requires
        from.nanos == 0,
        to.nanos == 0,
    ensures
        whole_seconds(from, to) == to.seconds - from.seconds,
{
    let seconds = to.seconds - from.seconds;
    let span = span_nanos(from, to);
    assert(span == seconds * 1_000_000_000);
    if span >= 0 {
        assert(span / 1_000_000_000 == seconds);
    } else {
        assert((-span) / 1_000_000_000 == -seconds);
    }
}

/// Of two moments the one is later exactly when it lies at a later second, or later in the same one;
/// no moment is later than itself.
pub proof fn law_later_is_an_order(a: TimestampModel, b: TimestampModel, c: TimestampModel)
    ensures
        !after(a, a),
        after(a, b) ==> !after(b, a),
        after(a, b) && after(b, c) ==> after(a, c),
        a.seconds > b.seconds ==> after(a, b),
        after(a, b) || after(b, a) || a.seconds == b.seconds && a.nanos == b.nanos,
{
}

} // verus!
