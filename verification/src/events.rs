//! Calendar events: reading them from iCalendar text, and writing new ones.

use vstd::prelude::*;

use crate::order::{before, lemma_before_total, lemma_before_transitive, text_before};
use crate::text::{
    agrees, chars_of, ends_with_char, has_part, holds_text, index_of_char, is_blank, is_line,
    is_white, join, joined, lemma_index_of_char, lemma_index_unique, lemma_lines_of_join,
    lemma_middle_part, lemma_views_push, lines, same, split_at_char, split_at_part, split_chars,
    split_lines, split_on, split_once_char, split_once_text, split_parts, split_text,
    starts_with_char, starts_with_text, trim, trim_end_char, trim_start, trimmed, trimmed_end_char,
    trimmed_start, view_option, views,
};
use crate::time::{
    after, calendar_date_read, day_of, day_read, in_years, is_after, local_day, local_time_read,
    moment_at, moment_in, read_calendar_date, read_day, read_local_time, read_moment,
    read_timestamp, rfc3339_read, timestamp_at, Timestamp, TimestampModel, MOSCOW_OFFSET,
};
use crate::xml::{texts_from, xml_texts};

verus! {

broadcast use lemma_views_push;

// Lines of iCalendar text.

/// The text with every kind of line end written as one character.
pub open spec fn plain_line_ends(s: Seq<char>) -> Seq<char>
    decreases s.len(),
{
    if s.len() == 0 {
        Seq::empty()
    } else if s[0] != '\r' {
        seq![s[0]] + plain_line_ends(s.skip(1))
    } else if s.len() > 1 && s[1] == '\n' {
        seq!['\n'] + plain_line_ends(s.skip(2))
    } else {
        seq!['\n'] + plain_line_ends(s.skip(1))
    }
}

fn unify_line_ends(value: &str) -> (r: String)
    ensures
        r@ == plain_line_ends(value@),
{
    let chars = chars_of(value);
    let total: usize = chars.len();
    let mut out = String::new();
    let mut i: usize = 0;
    proof {
        assert(value@.skip(0) =~= value@);
        assert(out@ + plain_line_ends(value@) =~= plain_line_ends(value@));
    }
    while i < total
        invariant
            i <= total,
            total == chars@.len(),
            chars@ == value@,
            out@ + plain_line_ends(value@.skip(i as int)) == plain_line_ends(value@),
        decreases total - i,
    {
        let ghost written = out@;
        let ghost rest = value@.skip(i as int);
        let c = chars[i];
        let mut next: usize = i + 1;
        let mut kept = c;
        if c == '\r' {
            kept = '\n';
            if i + 1 < total && chars[i + 1] == '\n' {
                next = i + 2;
            }
        }
        proof {
            assert(rest[0] == c);
            if next == i + 2 {
                assert(rest.skip(2) =~= value@.skip(next as int));
            } else {
                assert(rest.skip(1) =~= value@.skip(next as int));
            }
            let tail = plain_line_ends(value@.skip(next as int));
            assert(plain_line_ends(rest) == seq![kept] + tail);
            assert(written + (seq![kept] + tail) =~= written.push(kept) + tail);
        }
        out.push(kept);
        i = next;
    }
    proof {
        assert(value@.skip(i as int).len() == 0);
        assert(out@ + Seq::<char>::empty() =~= out@);
    }
    out
}

/// The lines with each that starts with white space joined to the one before it.
pub open spec fn unfolded(raw: Seq<Seq<char>>) -> Seq<Seq<char>>
    decreases raw.len(),
{
    if raw.len() == 0 {
        Seq::empty()
    } else {
        let earlier = unfolded(raw.drop_last());
        let line = raw.last();
        if line.len() > 0 && (line[0] == ' ' || line[0] == '\t') {
            if earlier.len() > 0 {
                earlier.drop_last().push(earlier.last() + trim_start(line))
            } else {
                earlier
            }
        } else {
            earlier.push(line)
        }
    }
}

/// The lines of iCalendar text.
pub open spec fn calendar_lines(value: Seq<char>) -> Seq<Seq<char>> {
    unfolded(lines(plain_line_ends(value)))
}

/// The lines of iCalendar text.
pub fn unfold_icalendar(value: &str) -> (r: Vec<String>)
    ensures
        views(r@) == calendar_lines(value@),
{
    let text = unify_line_ends(value);
    let raw = split_lines(text.as_str());
    let ghost model = views(raw@);
    let mut out: Vec<String> = Vec::new();
    let mut i: usize = 0;
    proof {
        assert(model.take(0).len() == 0);
        assert(views(out@) =~= Seq::<Seq<char>>::empty());
    }
    while i < raw.len()
        invariant
            i <= raw@.len(),
            model == views(raw@),
            views(out@) == unfolded(model.take(i as int)),
        decreases raw.len() - i,
    {
        let ghost earlier = views(out@);
        proof {
            assert(model.take(i + 1).drop_last() =~= model.take(i as int));
            assert(model.take(i + 1).last() == raw@[i as int]@);
        }
        if starts_with_char(raw[i].as_str(), ' ') || starts_with_char(raw[i].as_str(), '\t') {
            let count: usize = out.len();
            if count > 0 {
                let longer = out[count - 1].clone().concat(
                    trimmed_start(raw[i].as_str()).as_str(),
                );
                let ghost text = longer@;
                out.set(count - 1, longer);
                proof {
                    assert(views(out@) =~= earlier.drop_last().push(text));
                }
            }
        } else {
            out.push(raw[i].clone());
        }
        i += 1;
    }
    proof {
        assert(model.take(i as int) =~= model);
    }
    out
}

/// The value of a line where the line has a name.
pub open spec fn line_value(line: Seq<char>, name: Seq<char>) -> Option<Seq<char>> {
    match split_at_char(line, ':') {
        Some(parts) => if split_on(parts.0, ';')[0] == name {
            Some(parts.1)
        } else {
            None
        },
        None => None,
    }
}

/// The value of the first line with a name.
pub open spec fn named_value(all: Seq<Seq<char>>, name: Seq<char>) -> Option<Seq<char>>
    decreases all.len(),
{
    if all.len() == 0 {
        None
    } else {
        match line_value(all[0], name) {
            Some(value) => Some(value),
            None => named_value(all.skip(1), name),
        }
    }
}

fn value_of_line(line: &str, name: &str) -> (r: Option<String>)
    ensures
        view_option(r) == line_value(line@, name@),
{
    match split_once_char(line, ':') {
        Some(parts) => {
            let keys = split_chars(parts.0.as_str(), ';');
            proof {
                assert(split_on(parts.0@, ';').len() > 0);
                assert(views(keys@)[0] == keys@[0]@);
            }
            if same(keys[0].as_str(), name) {
                Some(parts.1)
            } else {
                None
            }
        },
        None => None,
    }
}

fn value_named(all: &Vec<String>, name: &str) -> (r: Option<String>)
    ensures
        view_option(r) == named_value(views(all@), name@),
{
    let ghost model = views(all@);
    let mut i: usize = 0;
    proof {
        assert(model.skip(0) =~= model);
    }
    while i < all.len()
        invariant
            i <= all@.len(),
            model == views(all@),
            named_value(model, name@) == named_value(model.skip(i as int), name@),
        decreases all.len() - i,
    {
        proof {
            assert(model.skip(i as int).skip(1) =~= model.skip(i + 1));
            assert(model.skip(i as int)[0] == all@[i as int]@);
        }
        if let Some(value) = value_of_line(all[i].as_str(), name) {
            return Some(value);
        }
        i += 1;
    }
    proof {
        assert(model.skip(i as int).len() == 0);
    }
    None
}

/// The first line that starts with a text.
pub open spec fn line_starting(all: Seq<Seq<char>>, start: Seq<char>) -> Option<Seq<char>>
    decreases all.len(),
{
    if all.len() == 0 {
        None
    } else if start.is_prefix_of(all[0]) {
        Some(all[0])
    } else {
        line_starting(all.skip(1), start)
    }
}

fn find_line(all: &Vec<String>, start: &str) -> (r: Option<String>)
    ensures
        view_option(r) == line_starting(views(all@), start@),
{
    let ghost model = views(all@);
    let mut i: usize = 0;
    proof {
        assert(model.skip(0) =~= model);
    }
    while i < all.len()
        invariant
            i <= all@.len(),
            model == views(all@),
            line_starting(model, start@) == line_starting(model.skip(i as int), start@),
        decreases all.len() - i,
    {
        proof {
            assert(model.skip(i as int).skip(1) =~= model.skip(i + 1));
            assert(model.skip(i as int)[0] == all@[i as int]@);
        }
        if starts_with_text(all[i].as_str(), start) {
            return Some(all[i].clone());
        }
        i += 1;
    }
    proof {
        assert(model.skip(i as int).len() == 0);
    }
    None
}

// Times of iCalendar text.

/// The moment of a local time at an offset, as it is written.
pub open spec fn moment_text(time: (i64, u32), offset: i32) -> Result<Seq<char>, Seq<char>> {
    let seconds = time.0 - offset;
    if seconds < i64::MIN || seconds > i64::MAX {
        Err("некорректное время события"@)
    } else {
        match moment_at(seconds as i64, time.1, offset) {
            Some(moment) => Ok(moment.text),
            None => Err("некорректное время события"@),
        }
    }
}

/// Writes the moment of a local time at an offset.
pub fn write_moment(seconds: i64, nanos: u32, offset: i32) -> (r: Result<String, String>)
    ensures
        agrees(r, moment_text((seconds, nanos), offset)),
{
    match seconds.checked_sub(offset as i64) {
        Some(utc) => match timestamp_at(utc, nanos, offset) {
            Some(moment) => Ok(moment.text),
            None => Err("некорректное время события".to_owned()),
        },
        None => Err("некорректное время события".to_owned()),
    }
}

/// The offset of a time: a time that ends with `Z` stands in UTC, and any other is the local time of
/// Moscow.
pub open spec fn time_offset(value: Seq<char>) -> i32 {
    if value.len() > 0 && value.last() == 'Z' {
        0
    } else {
        MOSCOW_OFFSET
    }
}

/// A time of iCalendar text as it is written elsewhere.
pub open spec fn event_time(value: Seq<char>, all_day: bool) -> Result<Seq<char>, Seq<char>> {
    if all_day {
        calendar_date_read(value)
    } else {
        match local_time_read(trim_end_char(value, 'Z')) {
            Ok(time) => moment_text(time, time_offset(value)),
            Err(message) => Err(message),
        }
    }
}

/// Reads a time of iCalendar text.
pub fn parse_ical_time(value: &str, all_day: bool) -> (r: Result<String, String>)
    ensures
        agrees(r, event_time(value@, all_day)),
{
    if all_day {
        return read_calendar_date(value);
    }
    let offset: i32 = if ends_with_char(value, 'Z') {
        0
    } else {
        MOSCOW_OFFSET
    };
    match read_local_time(trimmed_end_char(value, 'Z').as_str()) {
        Ok(time) => write_moment(time.0, time.1, offset),
        Err(message) => Err(message),
    }
}

// Events.

/// An event of a calendar.
#[derive(Debug, PartialEq, Eq)]
pub struct CalendarDigestEvent {
    pub title: String,
    pub start_at: String,
    pub end_at: Option<String>,
    pub all_day: bool,
    pub location: Option<String>,
}

/// An event of a calendar, mathematically.
pub ghost struct DigestModel {
    pub title: Seq<char>,
    pub start_at: Seq<char>,
    pub end_at: Option<Seq<char>>,
    pub all_day: bool,
    pub location: Option<Seq<char>>,
}

impl View for CalendarDigestEvent {
    type V = DigestModel;

    open spec fn view(&self) -> DigestModel {
        DigestModel {
            title: self.title@,
            start_at: self.start_at@,
            end_at: view_option(self.end_at),
            all_day: self.all_day,
            location: view_option(self.location),
        }
    }
}

/// An event of its lines, given the times that were read.
pub open spec fn event_of(
    all: Seq<Seq<char>>,
    all_day: bool,
    start: Result<Seq<char>, Seq<char>>,
    end: Option<Result<Seq<char>, Seq<char>>>,
) -> Result<DigestModel, Seq<char>> {
    match (start, end) {
        (Err(message), _) => Err(message),
        (Ok(_), Some(Err(message))) => Err(message),
        (Ok(start), _) => Ok(
            DigestModel {
                title: match named_value(all, "SUMMARY"@) {
                    Some(title) => title,
                    None => "Без названия"@,
                },
                start_at: start,
                end_at: match end {
                    Some(Ok(end)) => Some(end),
                    _ => None,
                },
                all_day,
                location: match named_value(all, "LOCATION"@) {
                    Some(place) => if trim(place).len() > 0 {
                        Some(place)
                    } else {
                        None
                    },
                    None => None,
                },
            },
        ),
    }
}

/// Whether a line that starts an event says that it takes whole days.
pub open spec fn says_all_day(line: Seq<char>) -> bool {
    split_on(line, ';').contains("VALUE=DATE"@)
}

/// The value of a line, or nothing.
pub open spec fn raw_value(line: Seq<char>) -> Seq<char> {
    match split_at_char(line, ':') {
        Some(parts) => parts.1,
        None => Seq::empty(),
    }
}

/// The event that iCalendar text describes.
pub open spec fn digest_event(ics: Seq<char>) -> Result<DigestModel, Seq<char>> {
    let all = calendar_lines(ics);
    match line_starting(all, "DTSTART"@) {
        None => Err("событие не содержит DTSTART"@),
        Some(line) => event_of(
            all,
            says_all_day(line),
            event_time(raw_value(line), says_all_day(line)),
            match named_value(all, "DTEND"@) {
                Some(raw) => Some(event_time(raw, says_all_day(line))),
                None => None,
            },
        ),
    }
}

/// The view of a reading that may not have been made.
pub open spec fn view_reading(value: Option<Result<String, String>>) -> Option<
    Result<Seq<char>, Seq<char>>,
> {
    match value {
        Some(Ok(text)) => Some(Ok(text@)),
        Some(Err(message)) => Some(Err(message@)),
        None => None,
    }
}

/// Makes an event of its lines, given the times that were read.
pub fn make_event(
    all: &Vec<String>,
    all_day: bool,
    start: Result<String, String>,
    end: Option<Result<String, String>>,
) -> (r: Result<CalendarDigestEvent, String>)
    ensures
        agrees(
            r,
            event_of(
                views(all@),
                all_day,
                match start {
                    Ok(text) => Ok(text@),
                    Err(message) => Err(message@),
                },
                view_reading(end),
            ),
        ),
{
    let start_at = match start {
        Ok(text) => text,
        Err(message) => return Err(message),
    };
    let end_at = match end {
        Some(Ok(text)) => Some(text),
        Some(Err(message)) => return Err(message),
        None => None,
    };
    let title = match value_named(all, "SUMMARY") {
        Some(title) => title,
        None => "Без названия".to_owned(),
    };
    let location = match value_named(all, "LOCATION") {
        Some(place) => if is_blank(place.as_str()) {
            None
        } else {
            Some(place)
        },
        None => None,
    };
    Ok(CalendarDigestEvent { title, start_at, end_at, all_day, location })
}

fn holds_whole_day(line: &str) -> (r: bool)
    ensures
        r == says_all_day(line@),
{
    let parts = split_chars(line, ';');
    holds_text(parts.as_slice(), "VALUE=DATE")
}

/// Reads the event that iCalendar text describes.
pub fn parse_digest_event(ics: &str) -> (r: Result<CalendarDigestEvent, String>)
    ensures
        agrees(r, digest_event(ics@)),
{
    let all = unfold_icalendar(ics);
    let line = match find_line(&all, "DTSTART") {
        Some(line) => line,
        None => return Err("событие не содержит DTSTART".to_owned()),
    };
    let all_day = holds_whole_day(line.as_str());
    let raw = match split_once_char(line.as_str(), ':') {
        Some(parts) => parts.1,
        None => String::new(),
    };
    proof {
        assert(raw@ =~= raw_value(line@));
    }
    let start = parse_ical_time(raw.as_str(), all_day);
    let end = match value_named(&all, "DTEND") {
        Some(raw) => Some(parse_ical_time(raw.as_str(), all_day)),
        None => None,
    };
    make_event(&all, all_day, start, end)
}

/// The event text in a part that follows the beginning of an event, if the event ends.
pub open spec fn event_text(part: Seq<char>) -> Option<Seq<char>> {
    match split_at_part(part, "END:VEVENT"@) {
        Some(parts) => Some("BEGIN:VEVENT\n"@ + parts.0 + "END:VEVENT"@),
        None => None,
    }
}

/// The events in parts that each follow the beginning of an event; those that cannot be read are
/// passed over.
pub open spec fn events_in_parts(parts: Seq<Seq<char>>) -> Seq<DigestModel>
    decreases parts.len(),
{
    if parts.len() == 0 {
        Seq::empty()
    } else {
        let earlier = events_in_parts(parts.drop_last());
        match event_text(parts.last()) {
            Some(text) => match digest_event(text) {
                Ok(event) => earlier.push(event),
                Err(_) => earlier,
            },
            None => earlier,
        }
    }
}

/// The events that iCalendar text describes.
pub open spec fn digest_events(ics: Seq<char>) -> Seq<DigestModel> {
    events_in_parts(split_parts(plain_line_ends(ics), "BEGIN:VEVENT"@).skip(1))
}

/// Reads the events that iCalendar text describes.
pub fn parse_digest_events(ics: &str) -> (r: Vec<CalendarDigestEvent>)
    ensures
        views(r@) == digest_events(ics@),
{
    let text = unify_line_ends(ics);
    proof {
        reveal_strlit("BEGIN:VEVENT");
    }
    let parts = split_text(text.as_str(), "BEGIN:VEVENT");
    let ghost model = views(parts@).skip(1);
    let mut out: Vec<CalendarDigestEvent> = Vec::new();
    let mut i: usize = 1;
    proof {
        assert(parts@.len() >= 1) by {
            assert(split_parts(text@, "BEGIN:VEVENT"@).len() >= 1);
        }
        assert(model.take(0).len() == 0);
        assert(views(out@) =~= Seq::<DigestModel>::empty());
    }
    while i < parts.len()
        invariant
            1 <= i <= parts@.len(),
            model == views(parts@).skip(1),
            views(out@) == events_in_parts(model.take(i - 1)),
        decreases parts.len() - i,
    {
        proof {
            assert(model.take(i as int).drop_last() =~= model.take(i - 1));
            assert(model.take(i as int).last() == parts@[i as int]@);
        }
        if let Some(pieces) = split_once_text(parts[i].as_str(), "END:VEVENT") {
            let event = "BEGIN:VEVENT\n".to_owned().concat(pieces.0.as_str()).concat("END:VEVENT");
            if let Ok(event) = parse_digest_event(event.as_str()) {
                out.push(event);
            }
        }
        i += 1;
    }
    proof {
        assert(model.take(i - 1) =~= model);
    }
    out
}

// Intervals.

/// An event that takes whole days lies in an interval; `start` and `end` are what is read of its
/// days. Without an end it takes one day.
pub open spec fn days_overlap(
    start: Option<(i32, Option<i32>)>,
    end: Option<(i32, Option<i32>)>,
    from: TimestampModel,
    to: TimestampModel,
) -> bool {
    match start {
        None => false,
        Some(start) => {
            let last = match end {
                Some(end) => end.0,
                None => match start.1 {
                    Some(next) => next,
                    None => start.0,
                },
            };
            start.0 < local_day(to) && last > local_day(from)
        },
    }
}

/// Whether an event that takes whole days lies in an interval.
pub fn whole_days_overlap(
    start: Option<(i32, Option<i32>)>,
    end: Option<(i32, Option<i32>)>,
    from: &Timestamp,
    to: &Timestamp,
) -> (r: bool)
    requires
        in_years(from@),
        in_years(to@),
    ensures
        r == days_overlap(start, end, from@, to@),
{
    match start {
        None => false,
        Some(start) => {
            let last: i32 = match end {
                Some(end) => end.0,
                None => match start.1 {
                    Some(next) => next,
                    None => start.0,
                },
            };
            (start.0 as i64) < day_of(to) && (last as i64) > day_of(from)
        },
    }
}

/// An event at a time lies in an interval; `start` and `end` are what is read of its moments. Without
/// an end it takes one minute.
pub open spec fn times_overlap(
    start: Option<TimestampModel>,
    end: Option<TimestampModel>,
    from: TimestampModel,
    to: TimestampModel,
) -> bool {
    match start {
        None => false,
        Some(start) => after(to, start) && match end {
            Some(end) => after(end, from),
            None => start.seconds + 60 > from.seconds || start.seconds + 60 == from.seconds
                && start.nanos > from.nanos,
        },
    }
}

/// Whether an event at a time lies in an interval.
pub fn moments_overlap(
    start: Option<Timestamp>,
    end: Option<Timestamp>,
    from: &Timestamp,
    to: &Timestamp,
) -> (r: bool)
    requires
        start is Some ==> in_years(start->Some_0@),
    ensures
        r == times_overlap(view_option(start), view_option(end), from@, to@),
{
    match start {
        None => false,
        Some(start) => if !is_after(to, &start) {
            false
        } else {
            match end {
                Some(end) => is_after(&end, from),
                None => {
                    let seconds: i64 = start.seconds + 60;
                    seconds > from.seconds || (seconds == from.seconds && start.nanos > from.nanos)
                },
            }
        },
    }
}

/// An event lies in an interval.
pub open spec fn overlaps(event: DigestModel, from: TimestampModel, to: TimestampModel) -> bool {
    if event.all_day {
        days_overlap(
            day_read(event.start_at),
            match event.end_at {
                Some(end) => day_read(end),
                None => None,
            },
            from,
            to,
        )
    } else {
        times_overlap(
            moment_in(event.start_at),
            match event.end_at {
                Some(end) => moment_in(end),
                None => None,
            },
            from,
            to,
        )
    }
}

/// Whether an event lies in an interval.
pub fn event_overlaps(event: &CalendarDigestEvent, from: &Timestamp, to: &Timestamp) -> (r: bool)
    requires
        in_years(from@),
        in_years(to@),
    ensures
        r == overlaps(event@, from@, to@),
{
    if event.all_day {
        let end = match &event.end_at {
            Some(end) => read_day(end.as_str()),
            None => None,
        };
        whole_days_overlap(read_day(event.start_at.as_str()), end, from, to)
    } else {
        let end = match &event.end_at {
            Some(end) => read_moment(end.as_str()),
            None => None,
        };
        moments_overlap(read_moment(event.start_at.as_str()), end, from, to)
    }
}

/// The events in order of their beginnings; an event stands behind those that do not begin later.
pub open spec fn event_inserted(events: Seq<DigestModel>, event: DigestModel) -> Seq<DigestModel>
    decreases events.len(),
{
    if events.len() > 0 && before(event.start_at, events.last().start_at) {
        event_inserted(events.drop_last(), event).push(events.last())
    } else {
        events.push(event)
    }
}

fn insert_event(events: &mut Vec<CalendarDigestEvent>, event: CalendarDigestEvent)
    ensures
        views(final(events)@) == event_inserted(views(old(events)@), event@),
{
    let ghost start = views(events@);
    let ghost view = event@;
    let mut at: usize = events.len();
    proof {
        assert(start.take(at as int) =~= start);
        assert(event_inserted(start, view) =~= event_inserted(start.take(at as int), view)
            + start.skip(at as int));
    }
    while at > 0 && text_before(event.start_at.as_str(), events[at - 1].start_at.as_str())
        invariant
            at <= events@.len(),
            start == views(events@),
            start == views(old(events)@),
            view == event@,
            event_inserted(start, view) == event_inserted(start.take(at as int), view)
                + start.skip(at as int),
        decreases at,
    {
        proof {
            let head = start.take(at as int);
            assert(head.drop_last() =~= start.take(at - 1));
            assert(head.last() == events@[at - 1]@);
            assert(event_inserted(head.drop_last(), view).push(head.last()) + start.skip(at as int)
                =~= event_inserted(start.take(at - 1), view) + start.skip(at - 1));
        }
        at -= 1;
    }
    proof {
        let head = start.take(at as int);
        if at > 0 {
            assert(head.last() == events@[at - 1]@);
        }
        assert(event_inserted(head, view) == head.push(view));
        assert(head.push(view) + start.skip(at as int) =~= start.insert(at as int, view));
    }
    events.insert(at, event);
    proof {
        assert(views(events@) =~= start.insert(at as int, view));
    }
}

/// The events that lie in an interval, added to others in order of their beginnings.
pub open spec fn events_added(
    sorted: Seq<DigestModel>,
    events: Seq<DigestModel>,
    from: TimestampModel,
    to: TimestampModel,
) -> Seq<DigestModel>
    decreases events.len(),
{
    if events.len() == 0 {
        sorted
    } else {
        let earlier = events_added(sorted, events.drop_last(), from, to);
        if overlaps(events.last(), from, to) {
            event_inserted(earlier, events.last())
        } else {
            earlier
        }
    }
}

/// The events of some blocks of iCalendar text that lie in an interval, in order of their beginnings.
pub open spec fn events_of_blocks(
    blocks: Seq<Seq<char>>,
    from: TimestampModel,
    to: TimestampModel,
) -> Seq<DigestModel>
    decreases blocks.len(),
{
    if blocks.len() == 0 {
        Seq::empty()
    } else {
        events_added(
            events_of_blocks(blocks.drop_last(), from, to),
            digest_events(blocks.last()),
            from,
            to,
        )
    }
}

fn copy_event(event: &CalendarDigestEvent) -> (r: CalendarDigestEvent)
    ensures
        r@ == event@,
{
    let end_at = match &event.end_at {
        Some(end) => Some(end.clone()),
        None => None,
    };
    let location = match &event.location {
        Some(place) => Some(place.clone()),
        None => None,
    };
    CalendarDigestEvent {
        title: event.title.clone(),
        start_at: event.start_at.clone(),
        end_at,
        all_day: event.all_day,
        location,
    }
}

fn add_events(
    sorted: &mut Vec<CalendarDigestEvent>,
    events: &Vec<CalendarDigestEvent>,
    from: &Timestamp,
    to: &Timestamp,
)
    requires
        in_years(from@),
        in_years(to@),
    ensures
        views(final(sorted)@) == events_added(views(old(sorted)@), views(events@), from@, to@),
{
    let ghost start = views(sorted@);
    let ghost model = views(events@);
    let mut i: usize = 0;
    proof {
        assert(model.take(0).len() == 0);
    }
    while i < events.len()
        invariant
            i <= events@.len(),
            in_years(from@),
            in_years(to@),
            model == views(events@),
            views(sorted@) == events_added(start, model.take(i as int), from@, to@),
        decreases events.len() - i,
    {
        proof {
            assert(model.take(i + 1).drop_last() =~= model.take(i as int));
            assert(model.take(i + 1).last() == events@[i as int]@);
        }
        if event_overlaps(&events[i], from, to) {
            insert_event(sorted, copy_event(&events[i]));
        }
        i += 1;
    }
    proof {
        assert(model.take(i as int) =~= model);
    }
}

/// Reads the events of an answer that lie in an interval, in order of their beginnings.
pub fn read_events(xml: &str, from: &Timestamp, to: &Timestamp) -> (r: Vec<CalendarDigestEvent>)
    requires
        in_years(from@),
        in_years(to@),
    ensures
        views(r@) == events_of_blocks(texts_from(xml@, "calendar-data"@, 0), from@, to@),
{
    let blocks = xml_texts(xml, "calendar-data");
    let ghost model = views(blocks@);
    let mut out: Vec<CalendarDigestEvent> = Vec::new();
    let mut i: usize = 0;
    proof {
        assert(model.take(0).len() == 0);
        assert(views(out@) =~= Seq::<DigestModel>::empty());
    }
    while i < blocks.len()
        invariant
            i <= blocks@.len(),
            in_years(from@),
            in_years(to@),
            model == views(blocks@),
            views(out@) == events_of_blocks(model.take(i as int), from@, to@),
        decreases blocks.len() - i,
    {
        proof {
            assert(model.take(i + 1).drop_last() =~= model.take(i as int));
            assert(model.take(i + 1).last() == blocks@[i as int]@);
        }
        let events = parse_digest_events(blocks[i].as_str());
        add_events(&mut out, &events, from, to);
        i += 1;
    }
    proof {
        assert(model.take(i as int) =~= model);
    }
    out
}

/// No event begins before the one that stands before it.
pub open spec fn in_order(events: Seq<DigestModel>) -> bool {
    forall|i: int, j: int|
        0 <= i < j < events.len() ==> !before(
            (#[trigger] events[j]).start_at,
            (#[trigger] events[i]).start_at,
        )
}

proof fn lemma_inserted_in_order(
    events: Seq<DigestModel>,
    event: DigestModel,
    from: TimestampModel,
    to: TimestampModel,
)
    requires
        in_order(events),
        forall|i: int| 0 <= i < events.len() ==> overlaps(#[trigger] events[i], from, to),
        overlaps(event, from, to),
    ensures
        in_order(event_inserted(events, event)),
        forall|i: int|
            0 <= i < event_inserted(events, event).len() ==> overlaps(
                #[trigger] event_inserted(events, event)[i],
                from,
                to,
            ),
        event_inserted(events, event).len() == events.len() + 1,
        forall|x: DigestModel| #[trigger]
            event_inserted(events, event).contains(x) ==> x == event || events.contains(x),
    decreases events.len(),
{
    let all = event_inserted(events, event);
    if events.len() > 0 && before(event.start_at, events.last().start_at) {
        let head = events.drop_last();
        lemma_inserted_in_order(head, event, from, to);
        let inner = event_inserted(head, event);
        assert forall|i: int, j: int| 0 <= i < j < all.len() implies !before(
            (#[trigger] all[j]).start_at,
            (#[trigger] all[i]).start_at,
        ) by {
            if j < inner.len() {
                assert(!before(inner[j].start_at, inner[i].start_at));
            } else {
                assert(inner.contains(inner[i]));
                if inner[i] == event {
                    lemma_before_total(event.start_at, events.last().start_at);
                } else {
                    let k = choose|k: int| 0 <= k < head.len() && head[k] == inner[i];
                    assert(events[k] == inner[i]);
                    assert(!before(events[events.len() - 1].start_at, events[k].start_at));
                }
            }
        }
        assert forall|x: DigestModel| #[trigger] all.contains(x) implies x == event
            || events.contains(x) by {
            let k = choose|k: int| 0 <= k < all.len() && all[k] == x;
            if k < inner.len() {
                assert(inner.contains(inner[k]));
                if x != event {
                    let m = choose|m: int| 0 <= m < head.len() && head[m] == x;
                    assert(events[m] == x);
                }
            } else {
                assert(events[events.len() - 1] == x);
            }
        }
    } else {
        assert forall|i: int, j: int| 0 <= i < j < all.len() implies !before(
            (#[trigger] all[j]).start_at,
            (#[trigger] all[i]).start_at,
        ) by {
            if j < events.len() {
                assert(!before(events[j].start_at, events[i].start_at));
            } else {
                let last = events[events.len() - 1];
                if before(event.start_at, events[i].start_at) {
                    if i < events.len() - 1 {
                        assert(!before(last.start_at, events[i].start_at));
                        lemma_before_total(last.start_at, events[i].start_at);
                        if before(events[i].start_at, last.start_at) {
                            lemma_before_transitive(
                                event.start_at,
                                events[i].start_at,
                                last.start_at,
                            );
                        }
                    }
                }
            }
        }
        assert forall|x: DigestModel| #[trigger] all.contains(x) implies x == event
            || events.contains(x) by {
            let k = choose|k: int| 0 <= k < all.len() && all[k] == x;
            if k < events.len() {
                assert(events[k] == x);
            }
        }
    }
}

proof fn lemma_added_in_order(
    sorted: Seq<DigestModel>,
    events: Seq<DigestModel>,
    from: TimestampModel,
    to: TimestampModel,
)
    requires
        in_order(sorted),
        forall|i: int| 0 <= i < sorted.len() ==> overlaps(#[trigger] sorted[i], from, to),
    ensures
        in_order(events_added(sorted, events, from, to)),
        forall|i: int|
            0 <= i < events_added(sorted, events, from, to).len() ==> overlaps(
                #[trigger] events_added(sorted, events, from, to)[i],
                from,
                to,
            ),
    decreases events.len(),
{
    if events.len() > 0 {
        lemma_added_in_order(sorted, events.drop_last(), from, to);
        if overlaps(events.last(), from, to) {
            lemma_inserted_in_order(
                events_added(sorted, events.drop_last(), from, to),
                events.last(),
                from,
                to,
            );
        }
    }
}

/// The events that are read lie in the interval and stand in the order of their beginnings.
pub proof fn law_events_are_in_order(
    blocks: Seq<Seq<char>>,
    from: TimestampModel,
    to: TimestampModel,
)
    ensures
        in_order(events_of_blocks(blocks, from, to)),
        forall|i: int|
            0 <= i < events_of_blocks(blocks, from, to).len() ==> overlaps(
                #[trigger] events_of_blocks(blocks, from, to)[i],
                from,
                to,
            ),
    decreases blocks.len(),
{
    if blocks.len() > 0 {
        law_events_are_in_order(blocks.drop_last(), from, to);
        lemma_added_in_order(
            events_of_blocks(blocks.drop_last(), from, to),
            digest_events(blocks.last()),
            from,
            to,
        );
    }
}

// Requests.

/// The request for the events of an interval.
pub open spec fn events_request(from: Seq<char>, to: Seq<char>) -> Seq<char> {
    "<c:calendar-query xmlns:d=\"DAV:\" xmlns:c=\"urn:ietf:params:xml:ns:caldav\"><d:prop><d:getetag/><c:calendar-data/></d:prop><c:filter><c:comp-filter name=\"VCALENDAR\"><c:comp-filter name=\"VEVENT\"><c:time-range start=\""@
        + from + "\" end=\""@ + to
        + "\"/></c:comp-filter></c:comp-filter></c:filter></c:calendar-query>"@
}

/// The request for the events of an interval, which must not be empty.
pub fn events_body(from: &Timestamp, to: &Timestamp) -> (r: Result<String, String>)
    ensures
        agrees(
            r,
            if after(to@, from@) {
                Ok(events_request(from@.stamp, to@.stamp))
            } else {
                Err("интервал календаря должен быть положительным"@)
            },
        ),
{
    if !is_after(to, from) {
        return Err("интервал календаря должен быть положительным".to_owned());
    }
    Ok(
        "<c:calendar-query xmlns:d=\"DAV:\" xmlns:c=\"urn:ietf:params:xml:ns:caldav\"><d:prop><d:getetag/><c:calendar-data/></d:prop><c:filter><c:comp-filter name=\"VCALENDAR\"><c:comp-filter name=\"VEVENT\"><c:time-range start=\"".to_owned().concat(
        from.stamp.as_str()).concat("\" end=\"").concat(to.stamp.as_str()).concat(
            "\"/></c:comp-filter></c:comp-filter></c:filter></c:calendar-query>",
        ),
    )
}

/// What is asked for a new event.
#[derive(Debug, PartialEq, Eq)]
pub struct CalendarEventRequest {
    pub title: String,
    pub start_at: String,
    pub end_at: String,
    pub description: Option<String>,
    pub location: Option<String>,
}

/// What is asked for a new event, mathematically.
pub ghost struct EventRequestModel {
    pub title: Seq<char>,
    pub start_at: Seq<char>,
    pub end_at: Seq<char>,
    pub description: Option<Seq<char>>,
    pub location: Option<Seq<char>>,
}

impl View for CalendarEventRequest {
    type V = EventRequestModel;

    open spec fn view(&self) -> EventRequestModel {
        EventRequestModel {
            title: self.title@,
            start_at: self.start_at@,
            end_at: self.end_at@,
            description: view_option(self.description),
            location: view_option(self.location),
        }
    }
}

/// A moment of an event as it was read; `label` says which one it is. What RFC 3339 reads always
/// names an offset.
pub open spec fn stated_moment(
    label: Seq<char>,
    read: Result<TimestampModel, Seq<char>>,
) -> Result<TimestampModel, Seq<char>> {
    match read {
        Err(_) => Err("время "@ + label + " должно быть RFC 3339 со смещением"@),
        Ok(moment) => Ok(moment),
    }
}

/// Checks a moment that was read.
pub fn check_moment(label: &str, read: Result<Timestamp, String>) -> (r: Result<Timestamp, String>)
    ensures
        agrees(
            r,
            stated_moment(
                label@,
                match read {
                    Ok(moment) => Ok(moment@),
                    Err(message) => Err(message@),
                },
            ),
        ),
        r is Ok ==> read is Ok && r->Ok_0 == read->Ok_0,
{
    match read {
        Err(_) => Err(
            "время ".to_owned().concat(label).concat(" должно быть RFC 3339 со смещением"),
        ),
        Ok(moment) => Ok(moment),
    }
}

/// Reads a moment of an event.
pub fn parse_timestamp(value: &str, label: &str) -> (r: Result<Timestamp, String>)
    ensures
        agrees(r, stated_moment(label@, rfc3339_read(value@))),
        r is Ok ==> in_years(r->Ok_0@),
{
    check_moment(label, read_timestamp(value))
}

/// The moments of a new event, given its start and its end as they were read.
pub open spec fn event_moments(
    title: Seq<char>,
    start: Result<TimestampModel, Seq<char>>,
    end: Result<TimestampModel, Seq<char>>,
) -> Result<(TimestampModel, TimestampModel), Seq<char>> {
    if trim(title).len() == 0 {
        Err("название события не может быть пустым"@)
    } else {
        match (start, end) {
            (Err(message), _) => Err(message),
            (_, Err(message)) => Err(message),
            (Ok(start), Ok(end)) => if after(end, start) {
                Ok((start, end))
            } else {
                Err("окончание события должно быть позже начала"@)
            },
        }
    }
}

/// Checks what is asked for a new event and gives its moments.
pub fn validate_event(request: &CalendarEventRequest) -> (r: Result<(Timestamp, Timestamp), String>)
    ensures
        match (
            r,
            event_moments(
                request@.title,
                stated_moment("начала"@, rfc3339_read(request@.start_at)),
                stated_moment("окончания"@, rfc3339_read(request@.end_at)),
            ),
        ) {
            (Ok(moments), Ok(model)) => (moments.0@, moments.1@) == model,
            (Err(message), Err(model)) => message@ == model,
            _ => false,
        },
{
    if is_blank(request.title.as_str()) {
        return Err("название события не может быть пустым".to_owned());
    }
    let start = match parse_timestamp(request.start_at.as_str(), "начала") {
        Ok(start) => start,
        Err(message) => return Err(message),
    };
    let end = match parse_timestamp(request.end_at.as_str(), "окончания") {
        Ok(end) => end,
        Err(message) => return Err(message),
    };
    if !is_after(&end, &start) {
        return Err("окончание события должно быть позже начала".to_owned());
    }
    Ok((start, end))
}

// Writing events.

/// A character as it stands in iCalendar text.
pub open spec fn escaped_char(c: char) -> Seq<char> {
    if c == '\\' {
        "\\\\"@
    } else if c == ';' {
        "\\;"@
    } else if c == ',' {
        "\\,"@
    } else if c == '\n' {
        "\\n"@
    } else if c == '\r' {
        ""@
    } else {
        seq![c]
    }
}

/// A text as it stands in iCalendar text.
pub open spec fn escaped(s: Seq<char>) -> Seq<char>
    decreases s.len(),
{
    if s.len() == 0 {
        Seq::empty()
    } else {
        escaped(s.drop_last()) + escaped_char(s.last())
    }
}

/// Writes a text as it stands in iCalendar text.
pub fn escape_icalendar_text(value: &str) -> (r: String)
    ensures
        r@ == escaped(value@),
{
    let chars = chars_of(value);
    let mut out = String::new();
    let mut i: usize = 0;
    proof {
        assert(value@.take(0).len() == 0);
        assert(out@ =~= Seq::<char>::empty());
    }
    while i < chars.len()
        invariant
            i <= chars@.len(),
            chars@ == value@,
            out@ == escaped(value@.take(i as int)),
        decreases chars.len() - i,
    {
        let c = chars[i];
        let ghost written = out@;
        proof {
            assert(value@.take(i + 1).drop_last() =~= value@.take(i as int));
            assert(value@.take(i + 1).last() == c);
            assert(written.push(c) =~= written + seq![c]);
        }
        if c == '\\' {
            out = out.concat("\\\\");
        } else if c == ';' {
            out = out.concat("\\;");
        } else if c == ',' {
            out = out.concat("\\,");
        } else if c == '\n' {
            out = out.concat("\\n");
        } else if c == '\r' {
            out = out.concat("");
        } else {
            out.push(c);
        }
        i += 1;
    }
    proof {
        assert(value@.take(i as int) =~= value@);
    }
    out
}

proof fn lemma_escaped_has_no_line_end(s: Seq<char>)
    ensures
        forall|i: int|
            0 <= i < escaped(s).len() ==> #[trigger] escaped(s)[i] != '\n' && escaped(s)[i] != '\r',
    decreases s.len(),
{
    reveal_strlit("\\\\");
    reveal_strlit("\\;");
    reveal_strlit("\\,");
    reveal_strlit("\\n");
    reveal_strlit("");
    if s.len() > 0 {
        lemma_escaped_has_no_line_end(s.drop_last());
        let head = escaped(s.drop_last());
        let tail = escaped_char(s.last());
        assert forall|i: int| 0 <= i < escaped(s).len() implies #[trigger] escaped(s)[i] != '\n'
            && escaped(s)[i] != '\r' by {
            if i < head.len() {
                assert(escaped(s)[i] == head[i]);
            } else {
                assert(escaped(s)[i] == tail[i - head.len()]);
            }
        }
    }
}

/// A text that is written into an event never breaks its line.
pub proof fn law_escaped_text_stays_on_its_line(s: Seq<char>)
    ensures
        !escaped(s).contains('\n'),
        !escaped(s).contains('\r'),
{
    lemma_escaped_has_no_line_end(s);
}

/// The line of a text of an event, where the text is there and not blank.
pub open spec fn optional_line(name: Seq<char>, text: Option<Seq<char>>) -> Seq<Seq<char>> {
    match text {
        Some(text) => if trim(text).len() > 0 {
            seq![name + escaped(trim(text))]
        } else {
            Seq::empty()
        },
        None => Seq::empty(),
    }
}

/// The first lines of a new event.
pub open spec fn event_head(
    id: Seq<char>,
    title: Seq<char>,
    now: Seq<char>,
    start: Seq<char>,
    end: Seq<char>,
) -> Seq<Seq<char>> {
    seq![
        "BEGIN:VCALENDAR"@,
        "VERSION:2.0"@,
        "PRODID:-//fox-llm//Yandex Calendar//EN"@,
        "BEGIN:VEVENT"@,
        "UID:"@ + id,
        "DTSTAMP:"@ + now,
        "DTSTART:"@ + start,
        "DTEND:"@ + end,
        "SUMMARY:"@ + escaped(trim(title)),
    ]
}

/// The lines of a new event.
pub open spec fn event_lines(
    id: Seq<char>,
    request: EventRequestModel,
    start: Seq<char>,
    end: Seq<char>,
    now: Seq<char>,
) -> Seq<Seq<char>> {
    event_head(id, request.title, now, start, end) + optional_line(
        "DESCRIPTION:"@,
        request.description,
    ) + optional_line("LOCATION:"@, request.location) + seq!["END:VEVENT"@, "END:VCALENDAR"@]
}

fn push_optional(out: &mut Vec<String>, name: &str, text: &Option<String>)
    ensures
        views(final(out)@) == views(old(out)@) + optional_line(name@, view_option(*text)),
{
    let ghost written = views(out@);
    proof {
        assert(written + Seq::<Seq<char>>::empty() =~= written);
    }
    if let Some(text) = text {
        if !is_blank(text.as_str()) {
            let line = name.to_owned().concat(
                escape_icalendar_text(trimmed(text.as_str()).as_str()).as_str(),
            );
            proof {
                assert(written.push(line@) =~= written + seq![line@]);
            }
            out.push(line);
        }
    }
}

/// Writes a new event as iCalendar text; `now` is the moment of writing, as calendars write it.
pub fn build_icalendar(
    id: &str,
    request: &CalendarEventRequest,
    start: &Timestamp,
    end: &Timestamp,
    now: &str,
) -> (r: String)
    ensures
        r@ == join(event_lines(id@, request@, start@.stamp, end@.stamp, now@), "\r\n"@) + "\r\n"@,
{
    let mut out: Vec<String> = Vec::new();
    out.push("BEGIN:VCALENDAR".to_owned());
    out.push("VERSION:2.0".to_owned());
    out.push("PRODID:-//fox-llm//Yandex Calendar//EN".to_owned());
    out.push("BEGIN:VEVENT".to_owned());
    out.push("UID:".to_owned().concat(id));
    out.push("DTSTAMP:".to_owned().concat(now));
    out.push("DTSTART:".to_owned().concat(start.stamp.as_str()));
    out.push("DTEND:".to_owned().concat(end.stamp.as_str()));
    let title = escape_icalendar_text(trimmed(request.title.as_str()).as_str());
    out.push("SUMMARY:".to_owned().concat(title.as_str()));
    proof {
        assert(views(out@) =~= event_head(
            id@,
            request@.title,
            now@,
            start@.stamp,
            end@.stamp,
        ));
    }
    push_optional(&mut out, "DESCRIPTION:", &request.description);
    push_optional(&mut out, "LOCATION:", &request.location);
    let ghost written = views(out@);
    out.push("END:VEVENT".to_owned());
    out.push("END:VCALENDAR".to_owned());
    proof {
        assert(written.push("END:VEVENT"@).push("END:VCALENDAR"@) =~= written
            + seq!["END:VEVENT"@, "END:VCALENDAR"@]);
    }
    joined(out.as_slice(), "\r\n").concat("\r\n")
}

/// What is told of an event that was created.
#[derive(Debug, PartialEq, Eq)]
pub struct CalendarEventResult {
    pub event_id: String,
    pub title: String,
    pub start_at: String,
    pub end_at: String,
    pub calendar: String,
}

/// What is told of an event that was created.
pub fn created_event(
    id: &str,
    request: &CalendarEventRequest,
    start: &Timestamp,
    end: &Timestamp,
    calendar: &str,
) -> (r: CalendarEventResult)
    ensures
        r.event_id@ == id@,
        r.title@ == trim(request@.title),
        r.start_at@ == start@.text,
        r.end_at@ == end@.text,
        r.calendar@ == calendar@,
{
    CalendarEventResult {
        event_id: id.to_owned(),
        title: trimmed(request.title.as_str()),
        start_at: start.text.clone(),
        end_at: end.text.clone(),
        calendar: calendar.to_owned(),
    }
}

// What is read of events.

/// A line of iCalendar text that continues no other.
pub open spec fn is_content_line(s: Seq<char>) -> bool {
    &&& s.len() > 0
    &&& s[0] != ' ' && s[0] != '\t'
    &&& forall|i: int| 0 <= i < s.len() ==> #[trigger] s[i] != '\n' && s[i] != '\r'
}

proof fn lemma_plain_line_ends(a: Seq<char>, b: Seq<char>)
    requires
        forall|i: int| 0 <= i < a.len() ==> #[trigger] a[i] != '\r',
    ensures
        plain_line_ends(a + b) == a + plain_line_ends(b),
    decreases a.len(),
{
    if a.len() == 0 {
        assert(a + b =~= b);
        assert(a + plain_line_ends(b) =~= plain_line_ends(b));
    } else {
        let all = a + b;
        assert(all[0] == a[0]);
        assert(all.skip(1) =~= a.skip(1) + b);
        lemma_plain_line_ends(a.skip(1), b);
        assert(seq![a[0]] + (a.skip(1) + plain_line_ends(b)) =~= a + plain_line_ends(b));
    }
}

proof fn lemma_line_end(b: Seq<char>)
    ensures
        plain_line_ends("\r\n"@ + b) == "\n"@ + plain_line_ends(b),
{
    reveal_strlit("\r\n");
    reveal_strlit("\n");
    let all = "\r\n"@ + b;
    assert(all[0] == '\r' && all[1] == '\n');
    assert(all.skip(2) =~= b);
    assert(seq!['\n'] =~= "\n"@);
}

proof fn lemma_plain_end(b: Seq<char>)
    requires
        forall|i: int| 0 <= i < b.len() ==> #[trigger] b[i] != '\r',
    ensures
        plain_line_ends(b) == b,
{
    lemma_plain_line_ends(b, Seq::empty());
    assert(b + Seq::<char>::empty() =~= b);
}

proof fn lemma_plain_joined(ls: Seq<Seq<char>>, rest: Seq<char>)
    requires
        ls.len() > 0,
        forall|i: int| 0 <= i < ls.len() ==> is_content_line(#[trigger] ls[i]),
    ensures
        plain_line_ends(join(ls, "\r\n"@) + rest) == join(ls, "\n"@) + plain_line_ends(rest),
        forall|i: int| 0 <= i < join(ls, "\n"@).len() ==> #[trigger] join(ls, "\n"@)[i] != '\r',
        join(ls, "\n"@).len() > 0,
        join(ls, "\n"@).last() != '\n',
    decreases ls.len(),
{
    reveal_strlit("\n");
    let last = ls.last();
    assert(is_content_line(ls[ls.len() - 1]));
    if ls.len() == 1 {
        assert(is_content_line(ls[0]));
        lemma_plain_line_ends(ls[0], rest);
    } else {
        let head = ls.drop_last();
        assert forall|i: int| 0 <= i < head.len() implies is_content_line(#[trigger] head[i]) by {
            assert(is_content_line(ls[i]));
        }
        let behind = "\r\n"@ + (last + rest);
        lemma_plain_joined(head, behind);
        lemma_line_end(last + rest);
        lemma_plain_line_ends(last, rest);
        assert(join(ls, "\r\n"@) + rest =~= join(head, "\r\n"@) + behind);
        assert(join(head, "\n"@) + ("\n"@ + (last + plain_line_ends(rest))) =~= join(ls, "\n"@)
            + plain_line_ends(rest));
        let text = join(ls, "\n"@);
        let before = join(head, "\n"@);
        assert forall|i: int| 0 <= i < text.len() implies #[trigger] text[i] != '\r' by {
            if i < before.len() {
                assert(text[i] == before[i]);
            } else if i > before.len() {
                assert(text[i] == last[i - before.len() - 1]);
            }
        }
        assert(text.last() == last.last());
    }
}

proof fn lemma_unfolded(ls: Seq<Seq<char>>)
    requires
        forall|i: int| 0 <= i < ls.len() ==> is_content_line(#[trigger] ls[i]),
    ensures
        unfolded(ls) == ls,
    decreases ls.len(),
{
    if ls.len() > 0 {
        let head = ls.drop_last();
        assert forall|i: int| 0 <= i < head.len() implies is_content_line(#[trigger] head[i]) by {
            assert(is_content_line(ls[i]));
        }
        lemma_unfolded(head);
        assert(is_content_line(ls[ls.len() - 1]));
        assert(head.push(ls.last()) =~= ls);
    } else {
        assert(ls =~= Seq::empty());
    }
}

proof fn lemma_last_line_end(s: Seq<char>)
    requires
        s.len() > 0,
        s.last() != '\n',
        s.last() != '\r',
    ensures
        lines(s + "\n"@) == lines(s),
    decreases s.len(),
{
    reveal_strlit("\n");
    let all = s + "\n"@;
    lemma_index_of_char(s, '\n');
    let at = index_of_char(s, '\n') as int;
    assert forall|i: int| 0 <= i < at implies #[trigger] all[i] != '\n' by {
        assert(all[i] == s[i]);
    }
    assert(all[at] == '\n');
    lemma_index_unique(all, '\n', at);
    if at < s.len() {
        let rest = s.skip(at + 1);
        assert(at < s.len() - 1);
        assert(rest.last() == s.last());
        lemma_last_line_end(rest);
        assert(all.skip(at + 1) =~= rest + "\n"@);
        assert(all.take(at) =~= s.take(at));
    } else {
        assert(all.take(at) =~= s);
        assert(all.skip(at + 1) =~= Seq::<char>::empty());
        assert(lines(all.skip(at + 1)) =~= Seq::<Seq<char>>::empty());
        assert(seq![s] + Seq::<Seq<char>>::empty() =~= seq![s]);
    }
}

/// Lines are read back as they were written, with either kind of line end, and with or without one
/// behind the last.
pub proof fn law_calendar_lines_are_read_back(ls: Seq<Seq<char>>)
    requires
        ls.len() > 0,
        forall|i: int| 0 <= i < ls.len() ==> is_content_line(#[trigger] ls[i]),
    ensures
        calendar_lines(join(ls, "\n"@)) == ls,
        calendar_lines(join(ls, "\r\n"@)) == ls,
        calendar_lines(join(ls, "\r\n"@) + "\r\n"@) == ls,
{
    let text = join(ls, "\n"@);
    let none = Seq::<char>::empty();
    assert forall|i: int| 0 <= i < ls.len() implies is_line(#[trigger] ls[i]) by {
        assert(is_content_line(ls[i]));
    }
    lemma_lines_of_join(ls);
    lemma_unfolded(ls);
    lemma_plain_joined(ls, none);
    lemma_plain_end(text);
    lemma_plain_end(none);
    assert(join(ls, "\r\n"@) + none =~= join(ls, "\r\n"@));
    assert(text + none =~= text);
    lemma_plain_joined(ls, "\r\n"@);
    lemma_line_end(none);
    assert("\r\n"@ + none =~= "\r\n"@);
    assert("\n"@ + none =~= "\n"@);
    lemma_last_line_end(text);
}

/// A line that was folded is read as one.
pub proof fn law_folded_line_is_one(a: Seq<char>, b: Seq<char>)
    requires
        is_content_line(a),
        is_content_line(b),
        !is_white(b[0]),
    ensures
        calendar_lines(a + "\r\n "@ + b) == seq![a + b],
        calendar_lines(a + "\n "@ + b) == seq![a + b],
{
    reveal_strlit("\r\n ");
    reveal_strlit("\n ");
    reveal_strlit("\r\n");
    reveal_strlit("\n");
    reveal_strlit(" ");
    let second = " "@ + b;
    let parts = seq![a, second];
    assert(is_line(a));
    assert forall|i: int| 0 <= i < second.len() implies #[trigger] second[i] != '\n' && second[i]
        != '\r' by {
        if i > 0 {
            assert(second[i] == b[i - 1]);
        }
    }
    assert(second.last() == b.last());
    assert(is_line(second));
    lemma_lines_of_join(parts);
    assert(parts.drop_last() =~= seq![a]);
    assert(join(parts.drop_last(), "\n"@) == a);
    assert(join(parts, "\n"@) == a + "\n"@ + second);
    let text = a + "\n"@ + second;
    lemma_plain_line_ends(a, "\r\n"@ + second);
    lemma_line_end(second);
    lemma_plain_end(second);
    assert(a + "\r\n "@ + b =~= a + ("\r\n"@ + second));
    assert(a + ("\n"@ + second) =~= text);
    assert(a + "\n "@ + b =~= text);
    assert forall|i: int| 0 <= i < text.len() implies #[trigger] text[i] != '\r' by {
        if i < a.len() {
            assert(text[i] == a[i]);
        } else if i > a.len() {
            assert(text[i] == second[i - a.len() - 1]);
        }
    }
    lemma_plain_end(text);
    assert(second.skip(1) =~= b);
    assert(second[0] == ' ');
    assert(trim_start(b) == b);
    assert(trim_start(second) == b);
    assert(unfolded(Seq::<Seq<char>>::empty()) =~= Seq::<Seq<char>>::empty());
    assert(seq![a].drop_last() =~= Seq::<Seq<char>>::empty());
    assert(unfolded(seq![a]) =~= seq![a]);
    assert(unfolded(parts) =~= seq![a + b]);
}

proof fn lemma_named_line(name: Seq<char>, value: Seq<char>)
    requires
        forall|i: int| 0 <= i < name.len() ==> #[trigger] name[i] != ':' && name[i] != ';',
    ensures
        line_value(name + ":"@ + value, name) == Some(value),
        raw_value(name + ":"@ + value) == value,
{
    reveal_strlit(":");
    let line = name + ":"@ + value;
    assert forall|i: int| 0 <= i < name.len() implies #[trigger] line[i] != ':' by {
        assert(line[i] == name[i]);
    }
    assert(line[name.len() as int] == ':');
    lemma_index_unique(line, ':', name.len() as int);
    assert(line.take(name.len() as int) =~= name);
    assert(line.skip(name.len() as int + 1) =~= value);
    lemma_index_unique(name, ';', name.len() as int);
    assert(split_on(name, ';') == seq![name]);
}

proof fn lemma_other_line(line: Seq<char>, name: Seq<char>)
    requires
        !name.is_prefix_of(line),
    ensures
        line_value(line, name) is None,
{
    if let Some(parts) = split_at_char(line, ':') {
        lemma_index_of_char(line, ':');
        lemma_index_of_char(parts.0, ';');
        let first = split_on(parts.0, ';')[0];
        let at = index_of_char(parts.0, ';') as int;
        if at < parts.0.len() {
            assert(first == parts.0.take(at));
            assert(first =~= line.take(at));
        } else {
            assert(first == parts.0);
            assert(first =~= line.take(parts.0.len() as int));
        }
        if first == name {
            assert(name =~= line.take(name.len() as int));
        }
    }
}

proof fn lemma_value_found(all: Seq<Seq<char>>, name: Seq<char>, at: int)
    requires
        0 <= at < all.len(),
        line_value(all[at], name) is Some,
        forall|k: int| 0 <= k < at ==> line_value(#[trigger] all[k], name) is None,
    ensures
        named_value(all, name) == line_value(all[at], name),
    decreases at,
{
    if at > 0 {
        assert(line_value(all[0], name) is None);
        let rest = all.skip(1);
        assert forall|k: int| 0 <= k < at - 1 implies line_value(#[trigger] rest[k], name)
            is None by {
            assert(rest[k] == all[k + 1]);
        }
        lemma_value_found(rest, name, at - 1);
    }
}

proof fn lemma_value_missing(all: Seq<Seq<char>>, name: Seq<char>)
    requires
        forall|k: int| 0 <= k < all.len() ==> line_value(#[trigger] all[k], name) is None,
    ensures
        named_value(all, name) is None,
    decreases all.len(),
{
    if all.len() > 0 {
        assert(line_value(all[0], name) is None);
        let rest = all.skip(1);
        assert forall|k: int| 0 <= k < rest.len() implies line_value(#[trigger] rest[k], name)
            is None by {
            assert(rest[k] == all[k + 1]);
        }
        lemma_value_missing(rest, name);
    }
}

proof fn lemma_line_found(all: Seq<Seq<char>>, start: Seq<char>, at: int)
    requires
        0 <= at < all.len(),
        start.is_prefix_of(all[at]),
        forall|k: int| 0 <= k < at ==> !start.is_prefix_of(#[trigger] all[k]),
    ensures
        line_starting(all, start) == Some(all[at]),
    decreases at,
{
    if at > 0 {
        assert(!start.is_prefix_of(all[0]));
        let rest = all.skip(1);
        assert forall|k: int| 0 <= k < at - 1 implies !start.is_prefix_of(#[trigger] rest[k]) by {
            assert(rest[k] == all[k + 1]);
        }
        lemma_line_found(rest, start, at - 1);
    }
}

/// The lines of an event give a field once, at a position.
pub open spec fn gives(all: Seq<Seq<char>>, name: Seq<char>, value: Seq<char>, at: int) -> bool {
    &&& 0 <= at < all.len()
    &&& all[at] == name + ":"@ + value
    &&& forall|k: int| 0 <= k < all.len() && k != at ==> !name.is_prefix_of(#[trigger] all[k])
}

/// The lines of an event do not give a field.
pub open spec fn lacks(all: Seq<Seq<char>>, name: Seq<char>) -> bool {
    forall|k: int| 0 <= k < all.len() ==> !name.is_prefix_of(#[trigger] all[k])
}

proof fn lemma_gives(all: Seq<Seq<char>>, name: Seq<char>, value: Seq<char>, at: int)
    requires
        gives(all, name, value, at),
        forall|i: int| 0 <= i < name.len() ==> #[trigger] name[i] != ':' && name[i] != ';',
    ensures
        named_value(all, name) == Some(value),
        line_starting(all, name) == Some(all[at]),
        raw_value(all[at]) == value,
{
    lemma_named_line(name, value);
    assert forall|k: int| 0 <= k < at implies line_value(#[trigger] all[k], name) is None by {
        lemma_other_line(all[k], name);
    }
    lemma_value_found(all, name, at);
    assert(name =~= all[at].take(name.len() as int));
    lemma_line_found(all, name, at);
}

proof fn lemma_lacks(all: Seq<Seq<char>>, name: Seq<char>)
    requires
        lacks(all, name),
    ensures
        named_value(all, name) is None,
{
    assert forall|k: int| 0 <= k < all.len() implies line_value(#[trigger] all[k], name)
        is None by {
        lemma_other_line(all[k], name);
    }
    lemma_value_missing(all, name);
}

/// The event of its lines begins and ends at the moments that its `DTSTART` and `DTEND` lines name.
/// Where one of them names none, there is no event; without a `DTEND` line the event has no end.
pub proof fn law_event_has_the_times_of_its_lines(
    ics: Seq<char>,
    start: Seq<char>,
    end: Seq<char>,
    i: int,
    j: int,
)
    requires
        gives(calendar_lines(ics), "DTSTART"@, start, i),
        gives(calendar_lines(ics), "DTEND"@, end, j) || lacks(calendar_lines(ics), "DTEND"@),
        !start.contains(';'),
    ensures
        ({
            let has_end = !lacks(calendar_lines(ics), "DTEND"@);
            match (digest_event(ics), event_time(start, false), event_time(end, false)) {
                (Ok(event), Ok(from), Ok(to)) => event.start_at == from && event.end_at
                    == (if has_end {
                    Some(to)
                } else {
                    None
                }) && !event.all_day,
                (Ok(event), Ok(from), Err(_)) => !has_end && event.start_at == from
                    && event.end_at is None,
                (Err(_), Ok(_), Ok(_)) => false,
                (Err(_), _, _) => true,
                _ => false,
            }
        }),
{
    let all = calendar_lines(ics);
    reveal_strlit("DTSTART");
    reveal_strlit("DTEND");
    reveal_strlit("VALUE=DATE");
    reveal_strlit(":");
    lemma_gives(all, "DTSTART"@, start, i);
    let line = all[i];
    assert forall|k: int| 0 <= k < line.len() implies #[trigger] line[k] != ';' by {
        if k > 7 {
            assert(line[k] == start[k - 8]);
            assert(start.contains(start[k - 8]));
        }
    }
    lemma_index_unique(line, ';', line.len() as int);
    assert(split_on(line, ';') == seq![line]);
    assert(!says_all_day(line)) by {
        if says_all_day(line) {
            let k = choose|k: int|
                0 <= k < split_on(line, ';').len() && split_on(line, ';')[k] == "VALUE=DATE"@;
            assert(line[0] == 'D');
            assert("VALUE=DATE"@[0] == 'V');
        }
    }
    if lacks(all, "DTEND"@) {
        lemma_lacks(all, "DTEND"@);
    } else {
        lemma_gives(all, "DTEND"@, end, j);
    }
}

/// An event of whole days has the dates that its lines name.
pub proof fn law_event_of_whole_days_has_its_dates(
    ics: Seq<char>,
    more: Seq<char>,
    start: Seq<char>,
    end: Seq<char>,
    i: int,
    j: int,
)
    requires
        0 <= i < calendar_lines(ics).len(),
        calendar_lines(ics)[i] == "DTSTART;VALUE=DATE;"@ + more + ":"@ + start,
        !more.contains(':'),
        forall|k: int|
            0 <= k < i ==> !"DTSTART"@.is_prefix_of(#[trigger] calendar_lines(ics)[k]),
        gives(calendar_lines(ics), "DTEND"@, end, j),
        calendar_date_read(start) is Ok,
        calendar_date_read(end) is Ok,
    ensures
        digest_event(ics) matches Ok(event) && event.all_day && event.start_at
            == calendar_date_read(start)->Ok_0 && event.end_at == Some(
            calendar_date_read(end)->Ok_0,
        ),
{
    let all = calendar_lines(ics);
    let line = all[i];
    reveal_strlit("DTSTART");
    reveal_strlit("DTEND");
    reveal_strlit("VALUE=DATE");
    reveal_strlit("DTSTART;VALUE=DATE;");
    reveal_strlit(":");
    let head = "DTSTART;VALUE=DATE;"@;
    assert("DTSTART"@ =~= line.take(7));
    lemma_line_found(all, "DTSTART"@, i);
    lemma_gives(all, "DTEND"@, end, j);
    assert forall|k: int| 0 <= k < 19 implies #[trigger] line[k] == head[k] by {}
    lemma_index_unique(line, ';', 7);
    let rest = line.skip(8);
    assert forall|k: int| 0 <= k < 10 implies #[trigger] rest[k] != ';' by {
        assert(rest[k] == head[k + 8]);
    }
    assert(rest[10] == head[18]);
    lemma_index_unique(rest, ';', 10);
    assert(rest.take(10) =~= "VALUE=DATE"@);
    let pieces = split_on(line, ';');
    assert(pieces[1] == split_on(rest, ';')[0]);
    assert(pieces[1] == "VALUE=DATE"@);
    let colon = 19 + more.len() as int;
    assert forall|k: int| 0 <= k < colon implies #[trigger] line[k] != ':' by {
        if k >= 19 {
            assert(line[k] == more[k - 19]);
            assert(more.contains(more[k - 19]));
        }
    }
    lemma_index_unique(line, ':', colon);
    assert(line.skip(colon + 1) =~= start);
}

/// A time with `Z` is a moment of UTC, and one without it is the local time of Moscow, three hours
/// ahead.
pub proof fn law_event_times_have_their_zone(digits: Seq<char>, time: (i64, u32))
    requires
        digits.len() > 0,
        digits.last() != 'Z',
        local_time_read(digits) == Ok::<(i64, u32), Seq<char>>(time),
        i64::MIN + 10_800 <= time.0,
    ensures
        event_time(digits.push('Z'), false) == match moment_at(time.0, time.1, 0) {
            Some(moment) => Ok(moment.text),
            None => Err("некорректное время события"@),
        },
        event_time(digits, false) == match moment_at((time.0 - 10_800) as i64, time.1, 10_800) {
            Some(moment) => Ok(moment.text),
            None => Err("некорректное время события"@),
        },
{
    assert(digits.push('Z').drop_last() =~= digits);
    assert(trim_end_char(digits, 'Z') == digits);
    assert(trim_end_char(digits.push('Z'), 'Z') == digits);
}

/// The title and the place of an event are those of its lines.
pub proof fn law_event_has_the_texts_of_its_lines(
    ics: Seq<char>,
    title: Seq<char>,
    place: Seq<char>,
    i: int,
    j: int,
)
    requires
        digest_event(ics) is Ok,
    ensures
        gives(calendar_lines(ics), "SUMMARY"@, title, i) ==> digest_event(ics)->Ok_0.title
            == title,
        lacks(calendar_lines(ics), "SUMMARY"@) ==> digest_event(ics)->Ok_0.title
            == "Без названия"@,
        gives(calendar_lines(ics), "LOCATION"@, place, j) && trim(place).len() > 0
            ==> digest_event(ics)->Ok_0.location == Some(place),
        lacks(calendar_lines(ics), "LOCATION"@) ==> digest_event(ics)->Ok_0.location is None,
{
    let all = calendar_lines(ics);
    reveal_strlit("SUMMARY");
    reveal_strlit("LOCATION");
    if gives(all, "SUMMARY"@, title, i) {
        lemma_gives(all, "SUMMARY"@, title, i);
    }
    if lacks(all, "SUMMARY"@) {
        lemma_lacks(all, "SUMMARY"@);
    }
    if gives(all, "LOCATION"@, place, j) {
        lemma_gives(all, "LOCATION"@, place, j);
    }
    if lacks(all, "LOCATION"@) {
        lemma_lacks(all, "LOCATION"@);
    }
}

/// Every event of a part that can be read is read, in the order of the parts, and no other.
pub proof fn law_every_readable_event_is_read(parts: Seq<Seq<char>>, i: int, event: DigestModel)
    ensures
        0 <= i < parts.len() && (event_text(parts[i]) matches Some(text) && digest_event(text)
            == Ok::<DigestModel, Seq<char>>(event)) ==> events_in_parts(parts).contains(event),
        events_in_parts(parts).contains(event) ==> exists|k: int|
            0 <= k < parts.len() && (event_text(#[trigger] parts[k]) matches Some(text)
                && digest_event(text) == Ok::<DigestModel, Seq<char>>(event)),
        events_in_parts(parts).len() <= parts.len(),
    decreases parts.len(),
{
    if parts.len() > 0 {
        let head = parts.drop_last();
        let earlier = events_in_parts(head);
        let all = events_in_parts(parts);
        law_every_readable_event_is_read(head, i, event);
        if earlier.contains(event) {
            let k = choose|k: int| 0 <= k < earlier.len() && earlier[k] == event;
            assert(all[k] == event);
        }
        if i < head.len() {
            assert(0 <= i ==> head[i] == parts[i]);
        } else if i == head.len() && (event_text(parts[i]) matches Some(text) && digest_event(text)
            == Ok::<DigestModel, Seq<char>>(event)) {
            assert(all[earlier.len() as int] == event);
        }
        if all.contains(event) {
            let k = choose|k: int| 0 <= k < all.len() && all[k] == event;
            if k < earlier.len() {
                assert(earlier[k] == event);
                let m = choose|m: int|
                    0 <= m < head.len() && (event_text(#[trigger] head[m]) matches Some(text)
                        && digest_event(text) == Ok::<DigestModel, Seq<char>>(event));
                assert(parts[m] == head[m]);
            } else {
                assert(parts[parts.len() - 1] == parts.last());
            }
        }
    }
}

proof fn lemma_inserted_contains(events: Seq<DigestModel>, event: DigestModel, x: DigestModel)
    ensures
        event_inserted(events, event).contains(x) <==> x == event || events.contains(x),
        event_inserted(events, event).len() == events.len() + 1,
    decreases events.len(),
{
    let all = event_inserted(events, event);
    if events.len() > 0 && before(event.start_at, events.last().start_at) {
        let head = events.drop_last();
        let inner = event_inserted(head, event);
        lemma_inserted_contains(head, event, x);
        assert(all == inner.push(events.last()));
        assert(all[inner.len() as int] == events.last());
        if inner.contains(x) {
            let k = choose|k: int| 0 <= k < inner.len() && inner[k] == x;
            assert(all[k] == x);
        }
        if head.contains(x) {
            let k = choose|k: int| 0 <= k < head.len() && head[k] == x;
            assert(events[k] == x);
        }
        if events.contains(x) {
            let k = choose|k: int| 0 <= k < events.len() && events[k] == x;
            if k < head.len() {
                assert(head[k] == x);
            }
        }
        if all.contains(x) {
            let k = choose|k: int| 0 <= k < all.len() && all[k] == x;
            if k < inner.len() {
                assert(inner[k] == x);
            } else {
                assert(events[events.len() - 1] == x);
            }
        }
    } else {
        assert(all[events.len() as int] == event);
        if events.contains(x) {
            let k = choose|k: int| 0 <= k < events.len() && events[k] == x;
            assert(all[k] == x);
        }
        if all.contains(x) {
            let k = choose|k: int| 0 <= k < all.len() && all[k] == x;
            if k < events.len() {
                assert(events[k] == x);
            }
        }
    }
}

proof fn lemma_added_contains(
    sorted: Seq<DigestModel>,
    events: Seq<DigestModel>,
    from: TimestampModel,
    to: TimestampModel,
    x: DigestModel,
)
    ensures
        events_added(sorted, events, from, to).contains(x) <==> sorted.contains(x)
            || events.contains(x) && overlaps(x, from, to),
    decreases events.len(),
{
    if events.len() > 0 {
        let head = events.drop_last();
        let last = events.last();
        lemma_added_contains(sorted, head, from, to, x);
        let earlier = events_added(sorted, head, from, to);
        if overlaps(last, from, to) {
            lemma_inserted_contains(earlier, last, x);
        }
        assert(events[events.len() - 1] == last);
        if head.contains(x) {
            let k = choose|k: int| 0 <= k < head.len() && head[k] == x;
            assert(events[k] == x);
        }
        if events.contains(x) {
            let k = choose|k: int| 0 <= k < events.len() && events[k] == x;
            if k < head.len() {
                assert(head[k] == x);
            }
        }
    }
}

/// The list of an interval holds every event of the answers that lies in the interval, and no other.
pub proof fn law_list_holds_the_events_of_the_interval(
    blocks: Seq<Seq<char>>,
    from: TimestampModel,
    to: TimestampModel,
    event: DigestModel,
)
    ensures
        events_of_blocks(blocks, from, to).contains(event) <==> overlaps(event, from, to)
            && exists|i: int|
            0 <= i < blocks.len() && digest_events(#[trigger] blocks[i]).contains(event),
    decreases blocks.len(),
{
    if blocks.len() > 0 {
        let head = blocks.drop_last();
        law_list_holds_the_events_of_the_interval(head, from, to, event);
        lemma_added_contains(
            events_of_blocks(head, from, to),
            digest_events(blocks.last()),
            from,
            to,
            event,
        );
        if exists|i: int|
            0 <= i < head.len() && digest_events(#[trigger] head[i]).contains(event) {
            let i = choose|i: int|
                0 <= i < head.len() && digest_events(#[trigger] head[i]).contains(event);
            assert(digest_events(blocks[i]).contains(event));
        }
        if digest_events(blocks.last()).contains(event) {
            assert(digest_events(blocks[blocks.len() - 1]).contains(event));
        }
        if exists|i: int|
            0 <= i < blocks.len() && digest_events(#[trigger] blocks[i]).contains(event) {
            let i = choose|i: int|
                0 <= i < blocks.len() && digest_events(#[trigger] blocks[i]).contains(event);
            if i < head.len() {
                assert(digest_events(head[i]).contains(event));
            }
        }
    }
}

/// A number lies in a range, the end of which is left out.
pub open spec fn is_within(x: int, from: int, to: int) -> bool {
    from <= x < to
}

/// An event at a time lies in an interval exactly where they share some time: it is not over when the
/// interval begins, and has begun before the interval ends. Without an end it takes a minute.
pub proof fn law_event_lies_where_it_goes_on(
    event: DigestModel,
    start: TimestampModel,
    from: TimestampModel,
    to: TimestampModel,
)
    requires
        !event.all_day,
        rfc3339_read(event.start_at) == Ok::<TimestampModel, Seq<char>>(start),
        start.nanos == 0,
        from.nanos == 0,
        to.nanos == 0,
    ensures
        match event.end_at {
            Some(text) => rfc3339_read(text) matches Ok(end) ==> end.nanos == 0 && end.seconds
                > start.seconds && to.seconds > from.seconds ==> (overlaps(event, from, to)
                <==> exists|second: int|
                #[trigger] is_within(second, start.seconds as int, end.seconds as int)
                    && is_within(second, from.seconds as int, to.seconds as int)),
            None => to.seconds > from.seconds ==> (overlaps(event, from, to) <==> exists|
                second: int,
            |
                #[trigger] is_within(second, start.seconds as int, start.seconds + 60) && is_within(
                    second,
                    from.seconds as int,
                    to.seconds as int,
                )),
        },
{
    let last = match event.end_at {
        Some(text) => match rfc3339_read(text) {
            Ok(end) => end.seconds as int,
            Err(_) => start.seconds as int,
        },
        None => start.seconds + 60,
    };
    let first = if start.seconds >= from.seconds {
        start.seconds as int
    } else {
        from.seconds as int
    };
    if first < last && first < to.seconds {
        assert(is_within(first, start.seconds as int, last));
    }
}

/// An event of whole days, which ends before its last date, lies in an interval exactly where a day
/// of it lies between the days on which the interval begins and ends, the last one left out.
pub proof fn law_whole_days_lie_where_they_fall(
    event: DigestModel,
    first: i32,
    last: i32,
    from: TimestampModel,
    to: TimestampModel,
)
    requires
        event.all_day,
        day_read(event.start_at) matches Some(day) && day.0 == first,
        event.end_at is Some,
        day_read(event.end_at->Some_0) matches Some(day) && day.0 == last,
        first < last,
        local_day(from) < local_day(to),
    ensures
        overlaps(event, from, to) <==> exists|day: int|
            #[trigger] is_within(day, first as int, last as int) && is_within(
                day,
                local_day(from),
                local_day(to),
            ),
{
    let day = if first >= local_day(from) {
        first as int
    } else {
        local_day(from)
    };
    if day < last && day < local_day(to) {
        assert(is_within(day, first as int, last as int));
    }
}

/// A new event needs a title and has to end after it begins; then it has the moments that were asked
/// for.
pub proof fn law_new_event_has_a_title_and_takes_time(
    title: Seq<char>,
    start: TimestampModel,
    end: TimestampModel,
)
    ensures
        match event_moments(title, Ok(start), Ok(end)) {
            Ok(moments) => moments == (start, end) && trim(title).len() > 0 && (end.seconds
                > start.seconds || end.seconds == start.seconds && end.nanos > start.nanos),
            Err(_) => trim(title).len() == 0 || end.seconds < start.seconds || end.seconds
                == start.seconds && end.nanos <= start.nanos,
        },
{
}

/// A text of iCalendar as it was before it was written.
pub open spec fn unescaped(s: Seq<char>) -> Seq<char>
    decreases s.len(),
{
    if s.len() == 0 {
        Seq::empty()
    } else if s[0] == '\\' && s.len() > 1 {
        seq![
            if s[1] == 'n' {
                '\n'
            } else {
                s[1]
            },
        ] + unescaped(s.skip(2))
    } else {
        seq![s[0]] + unescaped(s.skip(1))
    }
}

proof fn lemma_escaped_front(s: Seq<char>)
    requires
        s.len() > 0,
    ensures
        escaped(s) == escaped_char(s[0]) + escaped(s.skip(1)),
    decreases s.len(),
{
    if s.len() == 1 {
        assert(s.drop_last() =~= Seq::<char>::empty());
        assert(s.skip(1) =~= Seq::<char>::empty());
        assert(escaped(Seq::<char>::empty()) =~= Seq::<char>::empty());
        assert(escaped(s) =~= escaped_char(s[0]));
        assert(escaped_char(s[0]) + Seq::<char>::empty() =~= escaped_char(s[0]));
    } else {
        lemma_escaped_front(s.drop_last());
        assert(s.drop_last().skip(1) =~= s.skip(1).drop_last());
        assert(s.skip(1).last() == s.last());
        assert(escaped_char(s[0]) + escaped(s.skip(1).drop_last()) + escaped_char(s.last())
            =~= escaped_char(s[0]) + (escaped(s.skip(1).drop_last()) + escaped_char(s.last())));
    }
}

/// A text that is written into an event can be read back, but for carriage returns.
pub proof fn law_escaped_text_can_be_read_back(s: Seq<char>)
    requires
        !s.contains('\r'),
    ensures
        unescaped(escaped(s)) == s,
    decreases s.len(),
{
    reveal_strlit("\\\\");
    reveal_strlit("\\;");
    reveal_strlit("\\,");
    reveal_strlit("\\n");
    if s.len() == 0 {
        assert(unescaped(escaped(s)) =~= s);
    } else {
        assert(s.contains(s[0]));
        assert forall|c: char| s.skip(1).contains(c) implies s.contains(c) by {
            let k = choose|k: int| 0 <= k < s.skip(1).len() && s.skip(1)[k] == c;
            assert(s[k + 1] == c);
        }
        law_escaped_text_can_be_read_back(s.skip(1));
        lemma_escaped_front(s);
        let head = escaped_char(s[0]);
        let tail = escaped(s.skip(1));
        let all = head + tail;
        if head.len() == 2 {
            assert(all[0] == '\\' && all[1] == head[1]);
            assert(all.skip(2) =~= tail);
        } else {
            assert(all[0] == s[0]);
            assert(all.skip(1) =~= tail);
        }
        assert(seq![s[0]] + s.skip(1) =~= s);
    }
}

/// An event that is written is read back with the moments and the texts that it was written with:
/// the `DTSTART` and `DTEND` lines hold the stamps of its moments.
pub proof fn law_written_event_is_read_back(
    id: Seq<char>,
    request: EventRequestModel,
    start: Seq<char>,
    end: Seq<char>,
    now: Seq<char>,
)
    requires
        is_content_line("UID:"@ + id),
        is_content_line("DTSTAMP:"@ + now),
        is_content_line("DTSTART:"@ + start),
        is_content_line("DTEND:"@ + end),
        !start.contains(';'),
        event_time(start, false) is Ok,
        event_time(end, false) is Ok,
    ensures
        ({
            let ics = join(event_lines(id, request, start, end, now), "\r\n"@) + "\r\n"@;
            digest_event(ics) matches Ok(event) && event.start_at == event_time(start, false)->Ok_0
                && event.end_at == Some(event_time(end, false)->Ok_0) && event.title == escaped(
                trim(request.title),
            )
        }),
{
    let ls = event_lines(id, request, start, end, now);
    let ics = join(ls, "\r\n"@) + "\r\n"@;
    reveal_strlit("BEGIN:VCALENDAR");
    reveal_strlit("VERSION:2.0");
    reveal_strlit("PRODID:-//fox-llm//Yandex Calendar//EN");
    reveal_strlit("BEGIN:VEVENT");
    reveal_strlit("UID:");
    reveal_strlit("DTSTAMP:");
    reveal_strlit("DTSTART:");
    reveal_strlit("DTEND:");
    reveal_strlit("SUMMARY:");
    reveal_strlit("DESCRIPTION:");
    reveal_strlit("LOCATION:");
    reveal_strlit("END:VEVENT");
    reveal_strlit("END:VCALENDAR");
    reveal_strlit("DTSTART");
    reveal_strlit("DTEND");
    reveal_strlit("SUMMARY");
    reveal_strlit(":");
    let head = event_head(id, request.title, now, start, end);
    let d = optional_line("DESCRIPTION:"@, request.description);
    let l = optional_line("LOCATION:"@, request.location);
    let tail = seq!["END:VEVENT"@, "END:VCALENDAR"@];
    assert(ls.len() == 9 + d.len() + l.len() + 2);
    assert forall|k: int| 0 <= k < ls.len() implies is_content_line(#[trigger] ls[k]) && (k == 6
        || !"DTSTART"@.is_prefix_of(ls[k])) && (k == 7 || !"DTEND"@.is_prefix_of(ls[k])) && (k == 8
        || !"SUMMARY"@.is_prefix_of(ls[k])) by {
        lemma_event_line(id, request, start, end, now, k);
    }
    law_calendar_lines_are_read_back(ls);
    assert(ls[6] =~= "DTSTART"@ + ":"@ + start);
    assert(ls[7] =~= "DTEND"@ + ":"@ + end);
    assert(ls[8] =~= "SUMMARY"@ + ":"@ + escaped(trim(request.title)));
    assert(gives(ls, "DTSTART"@, start, 6));
    assert(gives(ls, "DTEND"@, end, 7));
    assert(gives(ls, "SUMMARY"@, escaped(trim(request.title)), 8));
    assert(!lacks(ls, "DTEND"@)) by {
        assert("DTEND"@ =~= ls[7].take(5));
    }
    law_event_has_the_times_of_its_lines(ics, start, end, 6, 7);
    law_event_has_the_texts_of_its_lines(
        ics,
        escaped(trim(request.title)),
        Seq::empty(),
        8,
        0,
    );
}

proof fn lemma_no_prefix(a: Seq<char>, b: Seq<char>, i: int)
    requires
        0 <= i < a.len(),
        i < b.len(),
        a[i] != b[i],
    ensures
        !a.is_prefix_of(b),
{
    if a.is_prefix_of(b) {
        assert(a[i] == b.subrange(0, a.len() as int)[i]);
    }
}

proof fn lemma_event_line(
    id: Seq<char>,
    request: EventRequestModel,
    start: Seq<char>,
    end: Seq<char>,
    now: Seq<char>,
    k: int,
)
    requires
        is_content_line("UID:"@ + id),
        is_content_line("DTSTAMP:"@ + now),
        is_content_line("DTSTART:"@ + start),
        is_content_line("DTEND:"@ + end),
        0 <= k < event_lines(id, request, start, end, now).len(),
    ensures
        ({
            let line = event_lines(id, request, start, end, now)[k];
            &&& is_content_line(line)
            &&& k == 6 || !"DTSTART"@.is_prefix_of(line)
            &&& k == 7 || !"DTEND"@.is_prefix_of(line)
            &&& k == 8 || !"SUMMARY"@.is_prefix_of(line)
        }),
{
    let line = event_lines(id, request, start, end, now)[k];
    reveal_strlit("BEGIN:VCALENDAR");
    reveal_strlit("VERSION:2.0");
    reveal_strlit("PRODID:-//fox-llm//Yandex Calendar//EN");
    reveal_strlit("BEGIN:VEVENT");
    reveal_strlit("UID:");
    reveal_strlit("DTSTAMP:");
    reveal_strlit("DTSTART:");
    reveal_strlit("DTEND:");
    reveal_strlit("SUMMARY:");
    reveal_strlit("DESCRIPTION:");
    reveal_strlit("LOCATION:");
    reveal_strlit("END:VEVENT");
    reveal_strlit("END:VCALENDAR");
    reveal_strlit("DTSTART");
    reveal_strlit("DTEND");
    reveal_strlit("SUMMARY");
    let head = event_head(id, request.title, now, start, end);
    let d = optional_line("DESCRIPTION:"@, request.description);
    let l = optional_line("LOCATION:"@, request.location);
    lemma_escaped_has_no_line_end(trim(request.title));
    if k == 5 {
        lemma_no_prefix("DTEND"@, line, 2);
        lemma_no_prefix("DTSTART"@, line, 5);
        lemma_no_prefix("SUMMARY"@, line, 0);
    } else if k == 6 {
        lemma_no_prefix("DTEND"@, line, 2);
        lemma_no_prefix("SUMMARY"@, line, 0);
    } else if k == 7 {
        lemma_no_prefix("DTSTART"@, line, 2);
        lemma_no_prefix("SUMMARY"@, line, 0);
    } else if k == 8 {
        let text = escaped(trim(request.title));
        assert forall|i: int| 0 <= i < line.len() implies #[trigger] line[i] != '\n' && line[i]
            != '\r' by {
            if i >= 8 {
                assert(line[i] == text[i - 8]);
            }
        }
        lemma_no_prefix("DTSTART"@, line, 0);
        lemma_no_prefix("DTEND"@, line, 0);
    } else if k < 9 {
        assert(line == head[k]);
        assert(is_content_line(line));
        lemma_no_prefix("DTSTART"@, line, 0);
        lemma_no_prefix("DTEND"@, line, 0);
        lemma_no_prefix("SUMMARY"@, line, 0);
    } else if k < 9 + d.len() {
        let text = escaped(trim(request.description->Some_0));
        lemma_escaped_has_no_line_end(trim(request.description->Some_0));
        assert(line == d[k - 9]);
        assert(line =~= "DESCRIPTION:"@ + text);
        assert forall|i: int| 0 <= i < line.len() implies #[trigger] line[i] != '\n' && line[i]
            != '\r' by {
            if i >= 12 {
                assert(line[i] == text[i - 12]);
            }
        }
        lemma_no_prefix("DTSTART"@, line, 1);
        lemma_no_prefix("DTEND"@, line, 1);
        lemma_no_prefix("SUMMARY"@, line, 0);
    } else if k < 9 + d.len() + l.len() {
        let text = escaped(trim(request.location->Some_0));
        lemma_escaped_has_no_line_end(trim(request.location->Some_0));
        assert(line == l[k - 9 - d.len()]);
        assert(line =~= "LOCATION:"@ + text);
        assert forall|i: int| 0 <= i < line.len() implies #[trigger] line[i] != '\n' && line[i]
            != '\r' by {
            if i >= 9 {
                assert(line[i] == text[i - 9]);
            }
        }
        lemma_no_prefix("DTSTART"@, line, 0);
        lemma_no_prefix("DTEND"@, line, 0);
        lemma_no_prefix("SUMMARY"@, line, 0);
    } else {
        assert(line[0] == 'E');
        lemma_no_prefix("DTSTART"@, line, 0);
        lemma_no_prefix("DTEND"@, line, 0);
        lemma_no_prefix("SUMMARY"@, line, 0);
    }
}

/// The request for events names the interval that is asked about.
pub proof fn law_request_names_the_interval(from: Seq<char>, to: Seq<char>)
    ensures
        has_part(events_request(from, to), from + "\" end=\""@ + to),
{
    let head = "<c:calendar-query xmlns:d=\"DAV:\" xmlns:c=\"urn:ietf:params:xml:ns:caldav\"><d:prop><d:getetag/><c:calendar-data/></d:prop><c:filter><c:comp-filter name=\"VCALENDAR\"><c:comp-filter name=\"VEVENT\"><c:time-range start=\""@;
    let end = "\"/></c:comp-filter></c:comp-filter></c:filter></c:calendar-query>"@;
    let named = from + "\" end=\""@ + to;
    assert(events_request(from, to) =~= head + named + end);
    lemma_middle_part(head, named, end);
}

} // verus!
