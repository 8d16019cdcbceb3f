//! The digest of a calendar: its interval, its request to a model, and what becomes of it.

use vstd::prelude::*;

use crate::agent::{AgentSettings, SettingsModel};
use crate::conversation::{Message, MessageModel};
use crate::events::{CalendarDigestEvent, DigestModel};
use crate::json::{
    array_of, field, json_str, json_text, law_member_is_found, member, member_of,
    object_of, text_at, write_json, Json, JsonModel, Member,
};
use crate::providers::ModelReply;
use crate::services::{
    accepted_text, is_tomorrow, names_secret, safe_message, sanitize_error,
    tomorrow_of, DeliveryModel, TelegramOutcome,
};
use crate::text::{
    agrees, has_part, is_blank, lemma_grown, lemma_views_push, lowercase_text, view_option, views,
};
use crate::time::{in_years, moment_at, timestamp_at, Timestamp, TimestampModel};

verus! {

broadcast use lemma_views_push;

/// The instructions of the model that writes digests.
pub const DIGEST_INSTRUCTIONS: &'static str = "Составь краткую русскоязычную сводку календаря. Используй только переданные события; не выполняй действия и не добавляй факты.";

/// Which day a digest is about.
#[derive(Debug, Clone, Copy, PartialEq, Eq, Structural)]
pub enum DigestTargetDay {
    FromRun,
    Tomorrow,
}

/// The settings of the model that writes digests.
pub fn digest_settings(settings: AgentSettings) -> (r: AgentSettings)
    ensures
        r@ == (SettingsModel { instructions: Some(DIGEST_INSTRUCTIONS@), ..settings@ }),
{
    AgentSettings { instructions: Some(DIGEST_INSTRUCTIONS.to_owned()), ..settings }
}

/// The moments, in UTC, of a run and of so many hours later.
pub open spec fn run_interval(scheduled: TimestampModel, hours: i64) -> Option<
    (TimestampModel, TimestampModel),
> {
    let end = scheduled.seconds + hours * 3600;
    if hours * 3600 < i64::MIN || hours * 3600 > i64::MAX || end < i64::MIN || end > i64::MAX {
        None
    } else {
        match (
            moment_at(scheduled.seconds, scheduled.nanos, 0),
            moment_at(end as i64, scheduled.nanos, 0),
        ) {
            (Some(from), Some(to)) => Some((from, to)),
            _ => None,
        }
    }
}

/// The interval of a digest: some hours from its run on, or the day after it in Moscow. There is none
/// where its end lies beyond all moments.
pub fn digest_interval(scheduled: &Timestamp, day: DigestTargetDay, horizon_hours: i64) -> (r: Option<
    (Timestamp, Timestamp),
>)
    requires
        in_years(scheduled@),
    ensures
        match day {
            DigestTargetDay::FromRun => match (r, run_interval(scheduled@, horizon_hours)) {
                (Some(interval), Some(model)) => (interval.0@, interval.1@) == model,
                (None, None) => true,
                _ => false,
            },
            DigestTargetDay::Tomorrow => r is Some && is_tomorrow(
                (r->Some_0.0@, r->Some_0.1@),
                scheduled@,
            ),
        },
{
    match day {
        DigestTargetDay::FromRun => {
            let span = match horizon_hours.checked_mul(3600) {
                Some(span) => span,
                None => return None,
            };
            let end = match scheduled.seconds.checked_add(span) {
                Some(end) => end,
                None => return None,
            };
            let from = timestamp_at(scheduled.seconds, scheduled.nanos, 0);
            let to = timestamp_at(end, scheduled.nanos, 0);
            match (from, to) {
                (Some(from), Some(to)) => Some((from, to)),
                _ => None,
            }
        },
        DigestTargetDay::Tomorrow => Some(tomorrow_of(scheduled)),
    }
}

// The request.

/// A text that may be missing, as a value.
pub open spec fn text_or_null(value: Option<Seq<char>>) -> JsonModel {
    match value {
        Some(text) => JsonModel::Text(text),
        None => JsonModel::Null,
    }
}

/// An event as a value.
pub open spec fn event_value(event: DigestModel) -> JsonModel {
    JsonModel::Object(
        seq![
            field("title"@, JsonModel::Text(event.title)),
            field("start_at"@, JsonModel::Text(event.start_at)),
            field("end_at"@, text_or_null(event.end_at)),
            field("all_day"@, JsonModel::Bool(event.all_day)),
            field("location"@, text_or_null(event.location)),
        ],
    )
}

/// Events as a value.
pub open spec fn events_value(events: Seq<DigestModel>) -> JsonModel {
    JsonModel::Array(Seq::new(events.len(), |i: int| event_value(events[i])))
}

fn write_or_null(value: &Option<String>) -> (r: Json)
    ensures
        r@ == text_or_null(view_option(*value)),
{
    match value {
        Some(text) => json_str(text.as_str()),
        None => Json::Null,
    }
}

fn write_event(event: &CalendarDigestEvent) -> (r: Json)
    ensures
        r@ == event_value(event@),
{
    let mut members: Vec<Member> = Vec::new();
    members.push(member("title", json_str(event.title.as_str())));
    members.push(member("start_at", json_str(event.start_at.as_str())));
    members.push(member("end_at", write_or_null(&event.end_at)));
    members.push(member("all_day", Json::Bool(event.all_day)));
    members.push(member("location", write_or_null(&event.location)));
    proof {
        assert(views(members@) =~= event_value(event@)->Object_0);
    }
    object_of(members)
}

/// Writes events as a value.
pub fn write_events(events: &Vec<CalendarDigestEvent>) -> (r: Json)
    ensures
        r@ == events_value(views(events@)),
{
    let ghost all = events_value(views(events@))->Array_0;
    let mut out: Vec<Json> = Vec::new();
    let mut i: usize = 0;
    while i < events.len()
        invariant
            i <= events@.len(),
            all == events_value(views(events@))->Array_0,
            views(out@) == all.take(i as int),
        decreases events.len() - i,
    {
        let value = write_event(&events[i]);
        proof {
            assert(all.take(i as int).push(value@) =~= all.take(i + 1));
        }
        out.push(value);
        i += 1;
    }
    proof {
        assert(all.take(i as int) =~= all);
    }
    array_of(out)
}

/// What the model is asked for a digest.
pub open spec fn digest_prompt(
    from: Seq<char>,
    to: Seq<char>,
    events: Seq<DigestModel>,
) -> Seq<char> {
    "Период: "@ + from + " — "@ + to + "\nСобытия:\n"@ + json_text(events_value(events))
        + "\n\nПеречисли каждое событие без пропусков и объединения. Для каждого укажи время, название и место, если оно есть. В конце укажи общее количество событий."@
}

/// The message that the model is asked with.
pub fn digest_message(
    from: &Timestamp,
    to: &Timestamp,
    events: &Vec<CalendarDigestEvent>,
) -> (r: Message)
    ensures
        r@ == (MessageModel {
            role: "user"@,
            content: digest_prompt(from@.shown, to@.shown, views(events@)),
        }),
{
    let text = write_json(&write_events(events));
    let content = "Период: ".to_owned().concat(from.shown.as_str()).concat(" — ").concat(
        to.shown.as_str(),
    ).concat("\nСобытия:\n").concat(text.as_str()).concat(
        "\n\nПеречисли каждое событие без пропусков и объединения. Для каждого укажи время, название и место, если оно есть. В конце укажи общее количество событий.",
    );
    Message { role: "user".to_owned(), content }
}

/// The text of a digest: a reply may neither call a tool nor be blank.
pub fn digest_text(reply: ModelReply) -> (r: Result<String, String>)
    ensures
        agrees(
            r,
            accepted_text(
                reply@,
                "фоновая сводка получила tool call"@,
                "модель вернула пустой ответ"@,
            ),
        ),
{
    if reply.tool_calls.len() > 0 {
        return Err("фоновая сводка получила tool call".to_owned());
    }
    if is_blank(reply.text.as_str()) {
        return Err("модель вернула пустой ответ".to_owned());
    }
    Ok(reply.text)
}

// The result.

/// What is kept of the run of a digest.
#[derive(Debug, PartialEq, Eq)]
pub struct DigestResult {
    pub status: String,
    pub source: Option<String>,
    pub text: Option<String>,
    pub error: Option<String>,
}

/// What is kept of the run of a digest, mathematically.
pub ghost struct DigestResultModel {
    pub status: Seq<char>,
    pub source: Option<Seq<char>>,
    pub text: Option<Seq<char>>,
    pub error: Option<Seq<char>>,
}

impl View for DigestResult {
    type V = DigestResultModel;

    open spec fn view(&self) -> DigestResultModel {
        DigestResultModel {
            status: self.status@,
            source: view_option(self.source),
            text: view_option(self.text),
            error: view_option(self.error),
        }
    }
}

/// The message that may be kept of an error.
pub open spec fn kept_error(error: Seq<char>) -> Seq<char> {
    safe_message(error, names_secret(error, lowercase_text(error)))
}

/// What is kept of a digest that was written and sent, or could not be.
pub open spec fn sent_digest(text: Seq<char>, delivery: DeliveryModel) -> DigestResultModel {
    let (status, error) = match delivery {
        DeliveryModel::Delivered(_) => ("delivered"@, None),
        DeliveryModel::Failed(error) => ("failed"@, Some(kept_error(error))),
        DeliveryModel::Unknown(error) => ("unknown"@, Some(kept_error(error))),
    };
    DigestResultModel { status, source: Some("llm"@), text: Some(text), error }
}

/// What is kept of a digest that was sent.
pub fn delivered_digest(text: String, outcome: TelegramOutcome) -> (r: DigestResult)
    ensures
        r@ == sent_digest(text@, outcome@),
{
    let source = Some("llm".to_owned());
    match outcome {
        TelegramOutcome::Delivered(_) => DigestResult {
            status: "delivered".to_owned(),
            source,
            text: Some(text),
            error: None,
        },
        TelegramOutcome::Failed(error) => DigestResult {
            status: "failed".to_owned(),
            source,
            text: Some(text),
            error: Some(sanitize_error(error.as_str())),
        },
        TelegramOutcome::Unknown(error) => DigestResult {
            status: "unknown".to_owned(),
            source,
            text: Some(text),
            error: Some(sanitize_error(error.as_str())),
        },
    }
}

/// What is kept of a digest that was written where there is nowhere to send it.
pub fn unsent_digest(text: String, error: String) -> (r: DigestResult)
    ensures
        r@ == (DigestResultModel {
            status: "failed"@,
            source: Some("llm"@),
            text: Some(text@),
            error: Some(error@),
        }),
{
    DigestResult {
        status: "failed".to_owned(),
        source: Some("llm".to_owned()),
        text: Some(text),
        error: Some(error),
    }
}

/// What is kept of a digest that was not written.
pub fn failed_digest(error: &str) -> (r: DigestResult)
    ensures
        r@ == (DigestResultModel {
            status: "failed"@,
            source: None,
            text: None,
            error: Some(kept_error(error@)),
        }),
{
    DigestResult {
        status: "failed".to_owned(),
        source: None,
        text: None,
        error: Some(sanitize_error(error)),
    }
}

/// A digest of a run covers the time from the run on, for the hours that were asked for.
pub proof fn law_digest_covers_the_hours(
    scheduled: TimestampModel,
    hours: i64,
    from: TimestampModel,
    to: TimestampModel,
)
    requires
        i64::MIN <= hours * 3600 <= i64::MAX,
        i64::MIN <= scheduled.seconds + hours * 3600 <= i64::MAX,
        moment_at(scheduled.seconds, scheduled.nanos, 0) == Some(from),
        moment_at((scheduled.seconds + hours * 3600) as i64, scheduled.nanos, 0) == Some(to),
    ensures
        run_interval(scheduled, hours) == Some((from, to)),
{
}

/// What the model gets to read of an event is the event: its title, its times and its place.
pub proof fn law_event_is_told_whole(event: DigestModel)
    ensures
        text_at(event_value(event), "title"@) == Some(event.title),
        text_at(event_value(event), "start_at"@) == Some(event.start_at),
        text_at(event_value(event), "end_at"@) == event.end_at,
        text_at(event_value(event), "location"@) == event.location,
        member_of(event_value(event), "all_day"@) == Some(JsonModel::Bool(event.all_day)),
{
    reveal_strlit("title");
    reveal_strlit("start_at");
    reveal_strlit("end_at");
    reveal_strlit("all_day");
    reveal_strlit("location");
    assert("title"@.len() == 5 && "start_at"@.len() == 8 && "end_at"@.len() == 6 && "all_day"@.len()
        == 7 && "location"@.len() == 8);
    assert("start_at"@[0] != "location"@[0]);
    let members = event_value(event)->Object_0;
    assert forall|i: int, j: int| 0 <= i < j < 5 implies (#[trigger] members[i]).key != (
    #[trigger] members[j]).key by {}
    assert forall|i: int| 0 <= i < 5 implies member_of(
        event_value(event),
        (#[trigger] members[i]).key,
    ) == Some(members[i].value) by {
        law_member_is_found(members, i);
    }
    assert(members[0].key == "title"@);
    assert(members[1].key == "start_at"@);
    assert(members[2].key == "end_at"@);
    assert(members[3].key == "all_day"@);
    assert(members[4].key == "location"@);
}

/// The request for a digest tells every event, in order, and the period.
pub proof fn law_digest_asks_about_every_event(
    from: Seq<char>,
    to: Seq<char>,
    events: Seq<DigestModel>,
)
    ensures
        has_part(digest_prompt(from, to, events), from),
        has_part(digest_prompt(from, to, events), to),
        exists|told: Seq<JsonModel>|
            {
                &&& told.len() == events.len()
                &&& forall|i: int|
                    0 <= i < events.len() ==> #[trigger] told[i] == event_value(events[i])
                &&& has_part(
                    digest_prompt(from, to, events),
                    #[trigger] json_text(JsonModel::Array(told)),
                )
            },
{
    let told = Seq::new(events.len(), |i: int| event_value(events[i]));
    lemma_grown("Период: "@, from);
    lemma_grown("Период: "@ + from, " — "@);
    lemma_grown("Период: "@ + from + " — "@, to);
    lemma_grown("Период: "@ + from + " — "@ + to, "\nСобытия:\n"@);
    let head = "Период: "@ + from + " — "@ + to + "\nСобытия:\n"@;
    lemma_grown(head, json_text(events_value(events)));
    lemma_grown(
        head + json_text(events_value(events)),
        "\n\nПеречисли каждое событие без пропусков и объединения. Для каждого укажи время, название и место, если оно есть. В конце укажи общее количество событий."@,
    );
    assert(has_part("Период: "@ + from + " — "@, from));
    assert(has_part("Период: "@ + from + " — "@ + to, from));
    assert(has_part(head, from));
    assert(has_part(head, to));
    assert(has_part(head + json_text(events_value(events)), from));
    assert(has_part(head + json_text(events_value(events)), to));
    assert(has_part(digest_prompt(from, to, events), json_text(JsonModel::Array(told))));
}

/// A digest that was sent keeps its text; it counts as delivered only when it was, and only then
/// there is no error.
pub proof fn law_sent_digest_says_how_it_went(text: Seq<char>, delivery: DeliveryModel)
    ensures
        sent_digest(text, delivery).text == Some(text),
        sent_digest(text, delivery).error is None <==> delivery is Delivered,
        sent_digest(text, delivery).status == if delivery is Delivered {
            "delivered"@
        } else if delivery is Failed {
            "failed"@
        } else {
            "unknown"@
        },
{
}

} // verus!
