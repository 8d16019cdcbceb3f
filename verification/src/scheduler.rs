//! Schedules: when a job runs next.

use vstd::prelude::*;

use crate::config::agrees_check;
use crate::json::{
    field, lemma_array_view, lemma_object_view, member_of, Json, JsonModel,
};
use crate::text::{agrees, lemma_views_push, same, view_option, views};
use crate::time::{
    after, clock_read, in_years, is_after, law_next_clock_is_the_first, moment_at, next_clock,
    next_time, read_clock, read_timestamp, rfc3339_read, timestamp_at, Timestamp, TimestampModel,
    DAY_SECONDS, EARLIEST_SECOND, LATEST_SECOND, MOSCOW_OFFSET,
};
use crate::tools::{has_only_keys, item_at, item_of, json_option, only_keys};

verus! {

broadcast use lemma_views_push;

/// The time zone of daily schedules.
pub const DEFAULT_TIMEZONE: &'static str = "Europe/Moscow";

/// When a job runs: once at a moment, or every day at a time.
#[derive(Debug, PartialEq, Eq)]
pub enum ScheduleSpec {
    Once(String),
    Daily(String, String),
}

/// When a job runs, mathematically.
pub ghost enum ScheduleModel {
    Once(Seq<char>),
    Daily(Seq<char>, Seq<char>),
}

impl View for ScheduleSpec {
    type V = ScheduleModel;

    open spec fn view(&self) -> ScheduleModel {
        match self {
            ScheduleSpec::Once(run_at) => ScheduleModel::Once(run_at@),
            ScheduleSpec::Daily(time, timezone) => ScheduleModel::Daily(time@, timezone@),
        }
    }
}

/// The time zone of a schedule that names none.
pub fn default_timezone() -> (r: String)
    ensures
        r@ == DEFAULT_TIMEZONE@,
{
    DEFAULT_TIMEZONE.to_owned()
}

impl ScheduleSpec {
    /// A copy of the schedule.
    pub fn copy(&self) -> (r: ScheduleSpec)
        ensures
            r@ == self@,
    {
        match self {
            ScheduleSpec::Once(run_at) => ScheduleSpec::Once(run_at.clone()),
            ScheduleSpec::Daily(time, timezone) => ScheduleSpec::Daily(
                time.clone(),
                timezone.clone(),
            ),
        }
    }
}

// Schedules as values.

/// The schedule that its fields stand for: its type, its moment or time, and its time zone.
pub open spec fn schedule_of_fields(
    kind: Option<JsonModel>,
    run_at: Option<JsonModel>,
    time: Option<JsonModel>,
    timezone: Option<JsonModel>,
) -> Option<ScheduleModel> {
    match kind {
        Some(JsonModel::Text(kind)) => if kind == "once"@ {
            match (run_at, time, timezone) {
                (Some(JsonModel::Text(run_at)), None, None) => Some(ScheduleModel::Once(run_at)),
                _ => None,
            }
        } else if kind == "daily"@ {
            match (run_at, time, timezone) {
                (None, Some(JsonModel::Text(time)), None) => Some(
                    ScheduleModel::Daily(time, DEFAULT_TIMEZONE@),
                ),
                (None, Some(JsonModel::Text(time)), Some(JsonModel::Text(timezone))) => Some(
                    ScheduleModel::Daily(time, timezone),
                ),
                _ => None,
            }
        } else {
            None
        },
        _ => None,
    }
}

/// The schedule that a value stands for.
pub open spec fn schedule_in(value: JsonModel) -> Option<ScheduleModel> {
    match value {
        JsonModel::Object(members) => if only_keys(
            members,
            seq!["type"@, "run_at"@, "time"@, "timezone"@],
        ) {
            schedule_of_fields(
                member_of(value, "type"@),
                member_of(value, "run_at"@),
                member_of(value, "time"@),
                member_of(value, "timezone"@),
            )
        } else {
            None
        },
        JsonModel::Array(items) => if items.len() > 3 {
            None
        } else if item_at(items, 0) == Some(JsonModel::Text("once"@)) {
            schedule_of_fields(item_at(items, 0), item_at(items, 1), None, item_at(items, 2))
        } else {
            schedule_of_fields(item_at(items, 0), None, item_at(items, 1), item_at(items, 2))
        },
        _ => None,
    }
}

fn make_schedule(
    kind: Option<&Json>,
    run_at: Option<&Json>,
    time: Option<&Json>,
    timezone: Option<&Json>,
) -> (r: Option<ScheduleSpec>)
    ensures
        view_option(r) == schedule_of_fields(
            json_option(kind),
            json_option(run_at),
            json_option(time),
            json_option(timezone),
        ),
{
    match kind {
        Some(Json::Text(kind)) => if same(kind.as_str(), "once") {
            match (run_at, time, timezone) {
                (Some(Json::Text(run_at)), None, None) => Some(ScheduleSpec::Once(run_at.clone())),
                _ => None,
            }
        } else if same(kind.as_str(), "daily") {
            match (run_at, time, timezone) {
                (None, Some(Json::Text(time)), None) => Some(
                    ScheduleSpec::Daily(time.clone(), default_timezone()),
                ),
                (None, Some(Json::Text(time)), Some(Json::Text(timezone))) => Some(
                    ScheduleSpec::Daily(time.clone(), timezone.clone()),
                ),
                _ => None,
            }
        } else {
            None
        },
        _ => None,
    }
}

/// Reads a schedule; nothing, where the value is none.
pub fn parse_schedule(value: &Json) -> (r: Option<ScheduleSpec>)
    ensures
        view_option(r) == schedule_in(value@),
{
    match value {
        Json::Object(members) => {
            let mut keys: Vec<String> = Vec::new();
            keys.push("type".to_owned());
            keys.push("run_at".to_owned());
            keys.push("time".to_owned());
            keys.push("timezone".to_owned());
            proof {
                lemma_object_view(*members);
                assert(views(keys@) =~= seq!["type"@, "run_at"@, "time"@, "timezone"@]);
            }
            if !has_only_keys(members, &keys) {
                return None;
            }
            make_schedule(
                value.get("type"),
                value.get("run_at"),
                value.get("time"),
                value.get("timezone"),
            )
        },
        Json::Array(items) => {
            proof {
                lemma_array_view(*items);
            }
            if items.len() > 3 {
                return None;
            }
            let first = item_of(items, 0);
            let second = item_of(items, 1);
            let third = item_of(items, 2);
            let once = match first {
                Some(Json::Text(kind)) => same(kind.as_str(), "once"),
                _ => false,
            };
            if once {
                make_schedule(first, second, None, third)
            } else {
                make_schedule(first, None, second, third)
            }
        },
        _ => None,
    }
}

/// The value that stands for a schedule, in the order of its fields.
pub open spec fn schedule_value(schedule: ScheduleModel) -> JsonModel {
    match schedule {
        ScheduleModel::Once(run_at) => JsonModel::Object(
            seq![
                field("type"@, JsonModel::Text("once"@)),
                field("run_at"@, JsonModel::Text(run_at)),
            ],
        ),
        ScheduleModel::Daily(time, timezone) => JsonModel::Object(
            seq![
                field("type"@, JsonModel::Text("daily"@)),
                field("time"@, JsonModel::Text(time)),
                field("timezone"@, JsonModel::Text(timezone)),
            ],
        ),
    }
}

// When a job runs.

/// Why a schedule is refused at a moment; `read` and `clock` are what is read of its time.
pub open spec fn schedule_error(
    schedule: ScheduleModel,
    now: TimestampModel,
    read: Option<TimestampModel>,
    clock: Option<u32>,
) -> Option<Seq<char>> {
    match schedule {
        ScheduleModel::Once(_) => match read {
            None => Some("одноразовое время должно быть RFC 3339 со смещением"@),
            Some(run_at) => if !after(run_at, now) {
                Some("одноразовое время должно быть в будущем"@)
            } else {
                None
            },
        },
        ScheduleModel::Daily(_, timezone) => if clock is None {
            Some("ежедневное время должно иметь формат HH:MM"@)
        } else if timezone != DEFAULT_TIMEZONE@ {
            Some("поддерживается только Europe/Moscow"@)
        } else {
            None
        },
    }
}

/// The text of a schedule in which its time stands.
pub open spec fn schedule_time(schedule: ScheduleModel) -> Seq<char> {
    match schedule {
        ScheduleModel::Once(run_at) => run_at,
        ScheduleModel::Daily(time, _) => time,
    }
}

/// Checks a schedule whose time was read.
pub fn check_schedule(
    schedule: &ScheduleSpec,
    now: &Timestamp,
    read: Option<Timestamp>,
    clock: Option<u32>,
) -> (r: Result<(), String>)
    ensures
        agrees_check(r, schedule_error(schedule@, now@, view_option(read), clock)),
{
    match schedule {
        ScheduleSpec::Once(_) => match read {
            None => Err("одноразовое время должно быть RFC 3339 со смещением".to_owned()),
            Some(run_at) => if !is_after(&run_at, now) {
                Err("одноразовое время должно быть в будущем".to_owned())
            } else {
                Ok(())
            },
        },
        ScheduleSpec::Daily(_, timezone) => if clock.is_none() {
            Err("ежедневное время должно иметь формат HH:MM".to_owned())
        } else if !same(timezone.as_str(), DEFAULT_TIMEZONE) {
            Err("поддерживается только Europe/Moscow".to_owned())
        } else {
            Ok(())
        },
    }
}

/// What is read of the moment of a schedule.
pub open spec fn moment_read(schedule: ScheduleModel) -> Option<TimestampModel> {
    match rfc3339_read(schedule_time(schedule)) {
        Ok(moment) => Some(moment),
        Err(_) => None,
    }
}

/// What is read of the time of the day of a schedule.
pub open spec fn time_read(schedule: ScheduleModel) -> Option<u32> {
    match clock_read(schedule_time(schedule)) {
        Ok(clock) => Some(clock),
        Err(_) => None,
    }
}

/// Checks a schedule at a moment.
pub fn validate_schedule(schedule: &ScheduleSpec, now: &Timestamp) -> (r: Result<(), String>)
    ensures
        agrees_check(
            r,
            schedule_error(schedule@, now@, moment_read(schedule@), time_read(schedule@)),
        ),
{
    match schedule {
        ScheduleSpec::Once(run_at) => {
            let read = match read_timestamp(run_at.as_str()) {
                Ok(moment) => Some(moment),
                Err(_) => None,
            };
            check_schedule(schedule, now, read, None)
        },
        ScheduleSpec::Daily(time, _) => {
            let clock = match read_clock(time.as_str()) {
                Ok(clock) => Some(clock),
                Err(_) => None,
            };
            check_schedule(schedule, now, None, clock)
        },
    }
}

/// The moment of the next daily run after a second.
pub open spec fn daily_run(now: i64, clock: u32) -> Result<TimestampModel, Seq<char>> {
    match moment_at(next_clock(now as int, clock as int) as i64, 0, MOSCOW_OFFSET) {
        Some(run) => Ok(run),
        None => Err("не удалось вычислить ежедневный запуск"@),
    }
}

/// The moment of the next daily run after a second. Within the years of four digits there always is
/// one: it lies ahead, at most a day, and the clocks of Moscow then show the time of the schedule.
pub fn run_daily(now: i64, clock: u32) -> (r: Result<Timestamp, String>)
    requires
        i64::MIN + 1_000_000 <= now <= i64::MAX - 1_000_000,
        clock < DAY_SECONDS,
    ensures
        agrees(r, daily_run(now, clock)),
        EARLIEST_SECOND <= now <= LATEST_SECOND + 1 ==> r is Ok && now < r->Ok_0@.seconds <= now
            + DAY_SECONDS && (r->Ok_0@.seconds + MOSCOW_OFFSET) % (DAY_SECONDS as int) == clock,
{
    proof {
        law_next_clock_is_the_first(now as int, clock as int, 0);
    }
    match timestamp_at(next_time(now, clock), 0, MOSCOW_OFFSET) {
        Some(run) => Ok(run),
        None => Err("не удалось вычислить ежедневный запуск".to_owned()),
    }
}

/// The moment of the next run of a schedule after a moment.
pub open spec fn following_run(
    schedule: ScheduleModel,
    now: TimestampModel,
) -> Result<TimestampModel, Seq<char>> {
    match schedule {
        ScheduleModel::Once(run_at) => rfc3339_read(run_at),
        ScheduleModel::Daily(time, _) => match clock_read(time) {
            Ok(clock) => daily_run(now.seconds, clock),
            Err(message) => Err(message),
        },
    }
}

/// The moment of the next run of a schedule after a moment.
pub fn next_run(schedule: &ScheduleSpec, now: &Timestamp) -> (r: Result<Timestamp, String>)
    requires
        i64::MIN + 1_000_000 <= now@.seconds <= i64::MAX - 1_000_000,
    ensures
        agrees(r, following_run(schedule@, now@)),
        schedule_error(
            schedule@,
            now@,
            moment_read(schedule@),
            time_read(schedule@),
        ) is None && in_years(now@) ==> r is Ok && after(r->Ok_0@, now@),
{
    match schedule {
        ScheduleSpec::Once(run_at) => read_timestamp(run_at.as_str()),
        ScheduleSpec::Daily(time, _) => match read_clock(time.as_str()) {
            Ok(clock) => run_daily(now.seconds, clock),
            Err(message) => Err(message),
        },
    }
}

/// A schedule is accepted exactly when it names a moment to come, or a time of day in Moscow.
pub proof fn law_accepted_schedules_lie_ahead(
    text: Seq<char>,
    timezone: Seq<char>,
    now: TimestampModel,
)
    ensures
        schedule_error(
            ScheduleModel::Once(text),
            now,
            moment_read(ScheduleModel::Once(text)),
            time_read(ScheduleModel::Once(text)),
        ) is None <==> (rfc3339_read(text) matches Ok(moment) && (moment.seconds > now.seconds
            || moment.seconds == now.seconds && moment.nanos > now.nanos)),
        schedule_error(
            ScheduleModel::Daily(text, timezone),
            now,
            moment_read(ScheduleModel::Daily(text, timezone)),
            time_read(ScheduleModel::Daily(text, timezone)),
        ) is None <==> clock_read(text) is Ok && timezone == "Europe/Moscow"@,
{
}

/// A job that runs once runs at the moment that its schedule names; one that runs daily runs later
/// than now, within a day, when Moscow clocks show its time.
pub proof fn law_next_run_follows_the_schedule(
    text: Seq<char>,
    timezone: Seq<char>,
    now: TimestampModel,
    clock: u32,
    next: i64,
    run: TimestampModel,
)
    requires
        clock < DAY_SECONDS,
        clock_read(text) == Ok::<u32, Seq<char>>(clock),
        now.seconds < next <= now.seconds + DAY_SECONDS,
        (next + MOSCOW_OFFSET) % (DAY_SECONDS as int) == clock,
        moment_at(next, 0, MOSCOW_OFFSET) == Some(run),
    ensures
        following_run(ScheduleModel::Once(text), now) == rfc3339_read(text),
        following_run(ScheduleModel::Daily(text, timezone), now) == Ok::<
            TimestampModel,
            Seq<char>,
        >(run),
{
    let due = next_clock(now.seconds as int, clock as int);
    law_next_clock_is_the_first(now.seconds as int, clock as int, next as int);
    assert(due == next) by {
        let day = DAY_SECONDS as int;
        assert((due + MOSCOW_OFFSET) % day == (next + MOSCOW_OFFSET) % day);
        assert(due <= next && next - due < day);
        assert((next - due) % day == 0) by {
            vstd::arithmetic::div_mod::lemma_mod_equivalence(
                next + MOSCOW_OFFSET,
                due + MOSCOW_OFFSET,
                day,
            );
            assert(next + MOSCOW_OFFSET - (due + MOSCOW_OFFSET) == next - due);
        }
    }
}

} // verus!
