//! The services behind the servers of tools: what they accept, and what they answer.

use vstd::prelude::*;

use crate::agent::{AgentSettings, SettingsModel};
use crate::config::{provider_title, Provider, ProviderName};
use crate::conversation::{Message, MessageModel};
use crate::json::{
    field, json_str, json_text, law_member_is_found, lemma_array_view, lemma_object_view, member_of,
    object2, text_at, write_json, Json, JsonModel,
};
use crate::numbers::i64_of;
use crate::providers::{ModelReply, ModelReplyModel};
use crate::registry::McpServerKind;
use crate::text::{
    byte_len, bytes_in, contains_text, has_part, is_blank, lemma_grown, lemma_views_push,
    lowercase_text, occurs_at, prefix_of, same, take_chars, to_lowercase, trim, view_option, views,
};
use crate::time::{
    after, in_years, is_after, law_tomorrow_begins_at_midnight, moment_at, moscow_midnight,
    moscow_tomorrow, read_timestamp, rfc3339_read, timestamp_at, Timestamp, TimestampModel,
    DAY_SECONDS, MOSCOW_OFFSET,
};
use crate::tools::{has_only_keys, item_at, item_of, json_option, only_keys};

verus! {

broadcast use lemma_views_push;

// Messages of errors.

/// A message names a secret, given the message in lower case.
pub open spec fn names_secret(message: Seq<char>, lower: Seq<char>) -> bool {
    ||| has_part(message, "TELEGRAM_BOT_TOKEN"@)
    ||| has_part(message, "TELEGRAM_CHAT_ID"@)
    ||| has_part(lower, "password"@)
    ||| has_part(lower, "парол"@)
}

/// Whether a message names a secret, given the message in lower case.
pub fn mentions_secret(message: &str, lower: &str) -> (r: bool)
    ensures
        r == names_secret(message@, lower@),
{
    contains_text(message, "TELEGRAM_BOT_TOKEN") || contains_text(message, "TELEGRAM_CHAT_ID")
        || contains_text(lower, "password") || contains_text(lower, "парол")
}

/// The message that may be shown in place of another.
pub open spec fn safe_message(message: Seq<char>, secret: bool) -> Seq<char> {
    if secret {
        "не удалось настроить внешний сервис"@
    } else {
        prefix_of(message, 500)
    }
}

/// The message that may be kept of a failed run.
pub fn sanitize_error(error: &str) -> (r: String)
    ensures
        r@ == safe_message(error@, names_secret(error@, lowercase_text(error@))),
{
    let lower = to_lowercase(error);
    if mentions_secret(error, lower.as_str()) {
        "не удалось настроить внешний сервис".to_owned()
    } else {
        take_chars(error, 500)
    }
}

/// The message that a server of tools may answer with.
pub fn safe_error(error: &str) -> (r: String)
    ensures
        r@ == safe_message(
            error@,
            names_secret(error@, lowercase_text(error@)) || has_part(error@, "YANDEX_CALDAV_"@),
        ),
{
    let lower = to_lowercase(error);
    if mentions_secret(error, lower.as_str()) || contains_text(error, "YANDEX_CALDAV_") {
        "не удалось настроить внешний сервис".to_owned()
    } else {
        take_chars(error, 500)
    }
}

/// The message that may be shown of a failed request to a model.
pub open spec fn model_error(message: Seq<char>, api_key: Seq<char>, safe: Seq<char>) -> Seq<char> {
    if api_key.len() > 0 && has_part(message, api_key) {
        "ошибка AI-провайдера"@
    } else {
        safe
    }
}

/// The message that may be shown of a failed request to a model: never one that holds the key.
pub fn safe_ai_error(error: &str, api_key: &str) -> (r: String)
    ensures
        r@ == model_error(
            error@,
            api_key@,
            safe_message(
                error@,
                names_secret(error@, lowercase_text(error@)) || has_part(error@, "YANDEX_CALDAV_"@),
            ),
        ),
{
    if api_key.unicode_len() > 0 && contains_text(error, api_key) {
        "ошибка AI-провайдера".to_owned()
    } else {
        safe_error(error)
    }
}

proof fn lemma_prefix_has_no_new_part(s: Seq<char>, part: Seq<char>, max: nat)
    requires
        !has_part(s, part),
    ensures
        !has_part(prefix_of(s, max), part),
{
    if has_part(prefix_of(s, max), part) && s.len() > max {
        let at = choose|at: int| occurs_at(prefix_of(s, max), part, at);
        assert(s.subrange(at, at + part.len()) =~= prefix_of(s, max).subrange(
            at,
            at + part.len(),
        ));
        assert(occurs_at(s, part, at));
    }
}

/// A message that is shown of a failed request never holds the key, unless one of the two fixed
/// messages does.
pub proof fn law_key_is_never_shown(message: Seq<char>, api_key: Seq<char>, secret: bool)
    requires
        api_key.len() > 0,
        !has_part("ошибка AI-провайдера"@, api_key),
        !has_part("не удалось настроить внешний сервис"@, api_key),
    ensures
        !has_part(model_error(message, api_key, safe_message(message, secret)), api_key),
{
    if !has_part(message, api_key) {
        lemma_prefix_has_no_new_part(message, api_key, 500);
    }
}

// Requests as values.

/// A value may stand for fields with these names: an object that names no others, or a list that is
/// not longer.
pub open spec fn may_hold(value: JsonModel, keys: Seq<Seq<char>>) -> bool {
    match value {
        JsonModel::Object(members) => only_keys(members, keys),
        JsonModel::Array(items) => items.len() <= keys.len(),
        _ => false,
    }
}

/// The field at a position among the names.
pub open spec fn held(value: JsonModel, keys: Seq<Seq<char>>, i: int) -> Option<JsonModel> {
    match value {
        JsonModel::Array(items) => item_at(items, i),
        _ => member_of(value, keys[i]),
    }
}

fn fits(value: &Json, keys: &Vec<String>) -> (r: bool)
    ensures
        r == may_hold(value@, views(keys@)),
{
    match value {
        Json::Object(members) => {
            proof {
                lemma_object_view(*members);
            }
            has_only_keys(members, keys)
        },
        Json::Array(items) => {
            proof {
                lemma_array_view(*items);
            }
            items.len() <= keys.len()
        },
        _ => false,
    }
}

fn held_field<'a>(value: &'a Json, keys: &Vec<String>, i: usize) -> (r: Option<&'a Json>)
    requires
        i < keys@.len(),
    ensures
        json_option(r) == held(value@, views(keys@), i as int),
{
    match value {
        Json::Array(items) => {
            proof {
                lemma_array_view(*items);
            }
            item_of(items, i)
        },
        _ => {
            proof {
                assert(views(keys@)[i as int] == keys@[i as int]@);
            }
            value.get(keys[i].as_str())
        },
    }
}

/// An optional text: nothing where it is not there or null, an error where it is something else.
pub open spec fn optional_text(value: Option<JsonModel>) -> Option<Option<Seq<char>>> {
    match value {
        None => Some(None),
        Some(JsonModel::Null) => Some(None),
        Some(JsonModel::Text(text)) => Some(Some(text)),
        Some(_) => None,
    }
}

fn read_optional(value: Option<&Json>) -> (r: Option<Option<String>>)
    ensures
        match (r, optional_text(json_option(value))) {
            (Some(text), Some(model)) => view_option(text) == model,
            (None, None) => true,
            _ => false,
        },
{
    match value {
        None => Some(None),
        Some(Json::Null) => Some(None),
        Some(Json::Text(text)) => Some(Some(text.clone())),
        Some(_) => None,
    }
}

// The interval of a calendar.

/// Which events are asked for.
#[derive(Debug, PartialEq, Eq)]
pub struct ListEventsRequest {
    pub from: Option<String>,
    pub to: Option<String>,
    pub relative_to: Option<String>,
    pub target_day: Option<String>,
    pub timezone: String,
}

/// Which events are asked for, mathematically.
pub ghost struct ListModel {
    pub from: Option<Seq<char>>,
    pub to: Option<Seq<char>>,
    pub relative_to: Option<Seq<char>>,
    pub target_day: Option<Seq<char>>,
    pub timezone: Seq<char>,
}

impl View for ListEventsRequest {
    type V = ListModel;

    open spec fn view(&self) -> ListModel {
        ListModel {
            from: view_option(self.from),
            to: view_option(self.to),
            relative_to: view_option(self.relative_to),
            target_day: view_option(self.target_day),
            timezone: self.timezone@,
        }
    }
}

/// The names of the fields of a request for events.
pub open spec fn list_keys() -> Seq<Seq<char>> {
    seq!["from"@, "to"@, "relative_to"@, "target_day"@, "timezone"@]
}

/// The request for events that a value stands for.
pub open spec fn list_request_in(value: JsonModel) -> Option<ListModel> {
    if !may_hold(value, list_keys()) {
        None
    } else {
        let timezone = match held(value, list_keys(), 4) {
            None => Some("Europe/Moscow"@),
            Some(JsonModel::Text(text)) => Some(text),
            Some(_) => None,
        };
        match (
            optional_text(held(value, list_keys(), 0)),
            optional_text(held(value, list_keys(), 1)),
            optional_text(held(value, list_keys(), 2)),
            optional_text(held(value, list_keys(), 3)),
            timezone,
        ) {
            (Some(from), Some(to), Some(relative_to), Some(target_day), Some(timezone)) => Some(
                ListModel { from, to, relative_to, target_day, timezone },
            ),
            _ => None,
        }
    }
}

/// Reads a request for events; nothing, where the value is none.
pub fn parse_list_request(value: &Json) -> (r: Option<ListEventsRequest>)
    ensures
        view_option(r) == list_request_in(value@),
{
    let mut keys: Vec<String> = Vec::new();
    keys.push("from".to_owned());
    keys.push("to".to_owned());
    keys.push("relative_to".to_owned());
    keys.push("target_day".to_owned());
    keys.push("timezone".to_owned());
    proof {
        assert(views(keys@) =~= list_keys());
    }
    if !fits(value, &keys) {
        return None;
    }
    let timezone = match held_field(value, &keys, 4) {
        None => "Europe/Moscow".to_owned(),
        Some(Json::Text(text)) => text.clone(),
        Some(_) => return None,
    };
    let from = match read_optional(held_field(value, &keys, 0)) {
        Some(text) => text,
        None => return None,
    };
    let to = match read_optional(held_field(value, &keys, 1)) {
        Some(text) => text,
        None => return None,
    };
    let relative_to = match read_optional(held_field(value, &keys, 2)) {
        Some(text) => text,
        None => return None,
    };
    let target_day = match read_optional(held_field(value, &keys, 3)) {
        Some(text) => text,
        None => return None,
    };
    Some(ListEventsRequest { from, to, relative_to, target_day, timezone })
}

/// The interval between two moments that were read.
pub open spec fn stated_interval(
    from: Result<TimestampModel, Seq<char>>,
    to: Result<TimestampModel, Seq<char>>,
) -> Result<(TimestampModel, TimestampModel), Seq<char>> {
    match (from, to) {
        (Err(_), _) => Err("from должен быть RFC 3339 со смещением"@),
        (_, Err(_)) => Err("to должен быть RFC 3339 со смещением"@),
        (Ok(from), Ok(to)) => if after(to, from) {
            Ok((from, to))
        } else {
            Err("интервал календаря должен быть положительным"@)
        },
    }
}

/// The day after a moment in Moscow, from midnight to midnight.
pub open spec fn is_tomorrow(
    interval: (TimestampModel, TimestampModel),
    reference: TimestampModel,
) -> bool {
    &&& moment_at(moscow_tomorrow(reference.seconds as int) as i64, 0, MOSCOW_OFFSET) == Some(
        interval.0,
    )
    &&& moment_at(
        (moscow_tomorrow(reference.seconds as int) + DAY_SECONDS) as i64,
        0,
        MOSCOW_OFFSET,
    ) == Some(interval.1)
    &&& interval.0.seconds == moscow_tomorrow(reference.seconds as int)
    &&& interval.1.seconds == interval.0.seconds + DAY_SECONDS
    &&& interval.0.offset == MOSCOW_OFFSET
    &&& interval.1.offset == MOSCOW_OFFSET
    &&& interval.0.nanos == 0 && interval.1.nanos == 0
}

/// An interval agrees with a mathematical one, or a message with a message.
pub open spec fn agrees_interval(
    r: Result<(Timestamp, Timestamp), String>,
    s: Result<(TimestampModel, TimestampModel), Seq<char>>,
) -> bool {
    match (r, s) {
        (Ok(moments), Ok(model)) => (moments.0@, moments.1@) == model,
        (Err(message), Err(model)) => message@ == model,
        _ => false,
    }
}

/// The day after a moment in Moscow.
pub fn tomorrow_of(reference: &Timestamp) -> (r: (Timestamp, Timestamp))
    requires
        in_years(reference@),
    ensures
        is_tomorrow((r.0@, r.1@), reference@),
{
    let midnight = moscow_midnight(reference.seconds);
    let from = timestamp_at(midnight, 0, MOSCOW_OFFSET).unwrap();
    let to = timestamp_at(midnight + DAY_SECONDS, 0, MOSCOW_OFFSET).unwrap();
    (from, to)
}

/// What is answered to a request for events: the interval that it names.
pub open spec fn names_interval(
    request: ListModel,
    r: Result<(Timestamp, Timestamp), String>,
) -> bool {
    match (request.from, request.to, request.relative_to, request.target_day) {
        (Some(from), Some(to), None, None) => agrees_interval(
            r,
            stated_interval(rfc3339_read(from), rfc3339_read(to)),
        ),
        (None, None, Some(relative_to), Some(day)) => if day != "tomorrow"@ {
            r is Err && r->Err_0@ == "поддерживается только target_day=tomorrow"@
        } else if request.timezone != "Europe/Moscow"@ {
            r is Err && r->Err_0@ == "поддерживается только Europe/Moscow"@
        } else {
            match rfc3339_read(relative_to) {
                Ok(reference) => r is Ok && is_tomorrow((r->Ok_0.0@, r->Ok_0.1@), reference),
                Err(_) => r is Err && r->Err_0@ == "relative_to должен быть RFC 3339 со смещением"@,
            }
        },
        _ => r is Err && r->Err_0@ == "задайте либо from/to, либо relative_to/target_day"@,
    }
}

/// The interval between two moments that were read.
pub fn interval_between(
    from: Result<Timestamp, String>,
    to: Result<Timestamp, String>,
) -> (r: Result<(Timestamp, Timestamp), String>)
    ensures
        agrees_interval(
            r,
            stated_interval(
                match from {
                    Ok(moment) => Ok(moment@),
                    Err(message) => Err(message@),
                },
                match to {
                    Ok(moment) => Ok(moment@),
                    Err(message) => Err(message@),
                },
            ),
        ),
        r is Ok ==> r->Ok_0.0 == from->Ok_0 && r->Ok_0.1 == to->Ok_0,
{
    let from = match from {
        Ok(from) => from,
        Err(_) => return Err("from должен быть RFC 3339 со смещением".to_owned()),
    };
    let to = match to {
        Ok(to) => to,
        Err(_) => return Err("to должен быть RFC 3339 со смещением".to_owned()),
    };
    if is_after(&to, &from) {
        Ok((from, to))
    } else {
        Err("интервал календаря должен быть положительным".to_owned())
    }
}

/// The interval that a request for events names.
pub fn resolve_calendar_interval(request: &ListEventsRequest) -> (r: Result<
    (Timestamp, Timestamp),
    String,
>)
    ensures
        names_interval(request@, r),
{
    match (&request.from, &request.to, &request.relative_to, &request.target_day) {
        (Some(from), Some(to), None, None) => {
            let first = read_timestamp(from.as_str());
            let last = read_timestamp(to.as_str());
            interval_between(first, last)
        },
        (None, None, Some(relative_to), Some(day)) => {
            if !same(day.as_str(), "tomorrow") {
                return Err("поддерживается только target_day=tomorrow".to_owned());
            }
            if !same(request.timezone.as_str(), "Europe/Moscow") {
                return Err("поддерживается только Europe/Moscow".to_owned());
            }
            match read_timestamp(relative_to.as_str()) {
                Ok(reference) => Ok(tomorrow_of(&reference)),
                Err(_) => Err("relative_to должен быть RFC 3339 со смещением".to_owned()),
            }
        },
        _ => Err("задайте либо from/to, либо relative_to/target_day".to_owned()),
    }
}

// Texts by a model.

/// The instructions of a model that works on nothing but the input of one call.
pub const AI_SYSTEM_INSTRUCTIONS: &'static str = "Преобразуй только явно переданный JSON-вход по инструкциям текущего вызова. Не используй внешние инструменты, не выполняй действия и не добавляй неизвестные факты.";

/// What a model is asked to write.
#[derive(Debug, PartialEq, Eq)]
pub struct GenerateTextRequest {
    pub instructions: String,
    pub input: Json,
}

/// What a model is asked to write, mathematically.
pub ghost struct GenerateModel {
    pub instructions: Seq<char>,
    pub input: JsonModel,
}

impl View for GenerateTextRequest {
    type V = GenerateModel;

    open spec fn view(&self) -> GenerateModel {
        GenerateModel { instructions: self.instructions@, input: self.input@ }
    }
}

/// The names of the fields of a request for a text.
pub open spec fn generate_keys() -> Seq<Seq<char>> {
    seq!["instructions"@, "input"@]
}

/// The request for a text that a value stands for: one that names nothing else.
pub open spec fn generate_request_in(value: JsonModel) -> Option<GenerateModel> {
    if !may_hold(value, generate_keys()) {
        None
    } else {
        match (held(value, generate_keys(), 0), held(value, generate_keys(), 1)) {
            (Some(JsonModel::Text(instructions)), Some(input)) => Some(
                GenerateModel { instructions, input },
            ),
            _ => None,
        }
    }
}

/// Reads a request for a text; nothing, where the value is none.
pub fn parse_generate_request(value: &Json) -> (r: Option<GenerateTextRequest>)
    ensures
        view_option(r) == generate_request_in(value@),
{
    let mut keys: Vec<String> = Vec::new();
    keys.push("instructions".to_owned());
    keys.push("input".to_owned());
    proof {
        assert(views(keys@) =~= generate_keys());
    }
    if !fits(value, &keys) {
        return None;
    }
    match (held_field(value, &keys, 0), held_field(value, &keys, 1)) {
        (Some(Json::Text(instructions)), Some(input)) => Some(
            GenerateTextRequest { instructions: instructions.clone(), input: input.copy() },
        ),
        _ => None,
    }
}

/// The settings of a model with its own instructions and nothing else changed.
pub fn isolated_ai_settings(settings: AgentSettings) -> (r: AgentSettings)
    ensures
        r@ == (SettingsModel { instructions: Some(AI_SYSTEM_INSTRUCTIONS@), ..settings@ }),
{
    AgentSettings { instructions: Some(AI_SYSTEM_INSTRUCTIONS.to_owned()), ..settings }
}

/// The message that a model is asked with.
pub open spec fn generate_message(request: GenerateModel) -> Result<MessageModel, Seq<char>> {
    let text = json_text(request.input);
    if trim(request.instructions).len() == 0 || byte_len(request.instructions) > 10_000 {
        Err("instructions пусты или превышают допустимый размер"@)
    } else if byte_len(text) == 0 || byte_len(text) > 100_000 {
        Err("AI input вне допустимого размера"@)
    } else {
        Ok(
            MessageModel {
                role: "user"@,
                content: "Инструкции:\n"@ + request.instructions + "\n\nВход JSON:\n"@ + text,
            },
        )
    }
}

/// The messages that a model is asked with: one, made of the request alone.
pub fn prepare_ai_messages(request: &GenerateTextRequest) -> (r: Result<Vec<Message>, String>)
    ensures
        match (r, generate_message(request@)) {
            (Ok(messages), Ok(model)) => views(messages@) == seq![model],
            (Err(message), Err(model)) => message@ == model,
            _ => false,
        },
{
    if is_blank(request.instructions.as_str()) || bytes_in(request.instructions.as_str()) > 10_000 {
        return Err("instructions пусты или превышают допустимый размер".to_owned());
    }
    let text = write_json(&request.input);
    let size: usize = bytes_in(text.as_str());
    if size == 0 || size > 100_000 {
        return Err("AI input вне допустимого размера".to_owned());
    }
    let content = "Инструкции:\n".to_owned().concat(request.instructions.as_str()).concat(
        "\n\nВход JSON:\n",
    ).concat(text.as_str());
    let mut messages: Vec<Message> = Vec::new();
    messages.push(Message { role: "user".to_owned(), content });
    proof {
        assert(views(messages@) =~= seq![messages@[0]@]);
    }
    Ok(messages)
}

/// A text that a model wrote.
#[derive(Debug, PartialEq, Eq)]
pub struct GenerateTextResult {
    pub text: String,
    pub provider: String,
    pub model: String,
}

/// The text of a reply, or why it is refused.
pub open spec fn accepted_text(
    reply: ModelReplyModel,
    on_call: Seq<char>,
    on_blank: Seq<char>,
) -> Result<Seq<char>, Seq<char>> {
    if reply.tool_calls.len() > 0 {
        Err(on_call)
    } else if trim(reply.text).len() == 0 {
        Err(on_blank)
    } else {
        Ok(reply.text)
    }
}

/// The text that a model wrote, with what wrote it: a reply may neither call a tool nor be blank.
pub fn generated_text(settings: &AgentSettings, reply: ModelReply, second: &ProviderName) -> (r:
    Result<GenerateTextResult, String>)
    ensures
        match (
            r,
            accepted_text(reply@, "AI-сервер получил tool call"@, "модель вернула пустой текст"@),
        ) {
            (Ok(result), Ok(text)) => result.text@ == text && result.provider@ == provider_title(
                settings@.provider,
                second@,
            ) && result.model@ == settings@.model,
            (Err(message), Err(model)) => message@ == model,
            _ => false,
        },
{
    if reply.tool_calls.len() > 0 {
        return Err("AI-сервер получил tool call".to_owned());
    }
    if is_blank(reply.text.as_str()) {
        return Err("модель вернула пустой текст".to_owned());
    }
    Ok(
        GenerateTextResult {
            text: reply.text,
            provider: settings.provider.title(second).to_owned(),
            model: settings.model.clone(),
        },
    )
}

/// The provider of background work: the last one used, or the first.
pub fn service_provider(last: Option<Provider>) -> (r: Provider)
    ensures
        r == match last {
            Some(provider) => provider,
            None => Provider::Openai,
        },
{
    match last {
        Some(provider) => provider,
        None => Provider::Openai,
    }
}

// Telegram.

/// The chat that messages are sent to.
#[derive(Debug, PartialEq, Eq)]
pub struct TelegramChat {
    pub token: String,
    pub chat_id: String,
}

/// The chat that the variables name, or why there is none.
pub open spec fn chat_of(token: Option<Seq<char>>, chat_id: Option<Seq<char>>) -> Result<
    (Seq<char>, Seq<char>),
    Seq<char>,
> {
    match (token, chat_id) {
        (None, _) => Err("не задан TELEGRAM_BOT_TOKEN"@),
        (_, None) => Err("не задан TELEGRAM_CHAT_ID"@),
        (Some(token), Some(chat_id)) => if trim(token).len() > 0 && trim(chat_id).len() > 0 {
            Ok((token, chat_id))
        } else {
            Err("настройки Telegram пусты"@)
        },
    }
}

impl TelegramChat {
    /// The chat that the variables name.
    pub fn from_variables(token: Option<String>, chat_id: Option<String>) -> (r: Result<
        TelegramChat,
        String,
    >)
        ensures
            match (r, chat_of(view_option(token), view_option(chat_id))) {
                (Ok(chat), Ok(model)) => (chat.token@, chat.chat_id@) == model,
                (Err(message), Err(model)) => message@ == model,
                _ => false,
            },
    {
        let token = match token {
            Some(token) => token,
            None => return Err("не задан TELEGRAM_BOT_TOKEN".to_owned()),
        };
        let chat_id = match chat_id {
            Some(chat_id) => chat_id,
            None => return Err("не задан TELEGRAM_CHAT_ID".to_owned()),
        };
        if is_blank(token.as_str()) || is_blank(chat_id.as_str()) {
            return Err("настройки Telegram пусты".to_owned());
        }
        Ok(TelegramChat { token, chat_id })
    }

    /// The address that messages are sent to.
    pub fn address(&self, base: &str) -> (r: String)
        ensures
            r@ == base@ + "/bot"@ + self.token@ + "/sendMessage"@,
    {
        base.to_owned().concat("/bot").concat(self.token.as_str()).concat("/sendMessage")
    }

    /// What is sent for a text.
    pub fn payload(&self, text: &str) -> (r: Json)
        ensures
            r@ == JsonModel::Object(
                seq![
                    field("chat_id"@, JsonModel::Text(self.chat_id@)),
                    field("text"@, JsonModel::Text(text@)),
                ],
            ),
    {
        object2("chat_id", json_str(self.chat_id.as_str()), "text", json_str(text))
    }
}

/// What became of a message.
#[derive(Debug, PartialEq, Eq)]
pub enum TelegramOutcome {
    Delivered(Option<i64>),
    Failed(String),
    Unknown(String),
}

/// What became of a message, mathematically.
pub ghost enum DeliveryModel {
    Delivered(Option<i64>),
    Failed(Seq<char>),
    Unknown(Seq<char>),
}

impl View for TelegramOutcome {
    type V = DeliveryModel;

    open spec fn view(&self) -> DeliveryModel {
        match self {
            TelegramOutcome::Delivered(id) => DeliveryModel::Delivered(*id),
            TelegramOutcome::Failed(error) => DeliveryModel::Failed(error@),
            TelegramOutcome::Unknown(error) => DeliveryModel::Unknown(error@),
        }
    }
}

/// The number of a message that an answer names.
pub open spec fn message_number(body: JsonModel) -> Option<int> {
    match member_of(body, "result"@) {
        Some(result) => match member_of(result, "message_id"@) {
            Some(JsonModel::Number(text)) => i64_of(text),
            _ => None,
        },
        None => None,
    }
}

/// Why an answer says that a message was not delivered.
pub open spec fn refusal(body: JsonModel) -> Seq<char> {
    match member_of(body, "description"@) {
        Some(JsonModel::Text(text)) => text,
        _ => "Telegram отклонил сообщение"@,
    }
}

/// An answer says that a message was delivered.
pub open spec fn confirms(success: bool, body: JsonModel) -> bool {
    success && member_of(body, "ok"@) == Some(JsonModel::Bool(true))
}

/// What became of a message that was answered.
pub fn classify_delivery(success: bool, body: &Json) -> (r: TelegramOutcome)
    ensures
        confirms(success, body@) ==> match r {
            TelegramOutcome::Delivered(id) => match (id, message_number(body@)) {
                (Some(id), Some(model)) => id == model,
                (None, None) => true,
                _ => false,
            },
            _ => false,
        },
        !confirms(success, body@) ==> r@ == DeliveryModel::Failed(refusal(body@)),
{
    let ok = match body.get("ok") {
        Some(Json::Bool(ok)) => *ok,
        _ => false,
    };
    if success && ok {
        let id = match body.get("result") {
            Some(result) => match result.get("message_id") {
                Some(number) => number.as_i64(),
                None => None,
            },
            None => None,
        };
        TelegramOutcome::Delivered(id)
    } else {
        match body.get("description") {
            Some(Json::Text(text)) => TelegramOutcome::Failed(text.clone()),
            _ => TelegramOutcome::Failed("Telegram отклонил сообщение".to_owned()),
        }
    }
}

/// What became of a message that was not answered: nobody knows.
pub fn lost_delivery() -> (r: TelegramOutcome)
    ensures
        r@ == DeliveryModel::Unknown("ошибка сети Telegram"@),
{
    TelegramOutcome::Unknown("ошибка сети Telegram".to_owned())
}

/// The request to send a text that a value stands for: one that names nothing else.
pub open spec fn send_request_in(value: JsonModel) -> Option<Seq<char>> {
    if !may_hold(value, seq!["text"@]) {
        None
    } else {
        match held(value, seq!["text"@], 0) {
            Some(JsonModel::Text(text)) => Some(text),
            _ => None,
        }
    }
}

/// Reads a request to send a text; nothing, where the value is none.
pub fn parse_send_request(value: &Json) -> (r: Option<String>)
    ensures
        view_option(r) == send_request_in(value@),
{
    let mut keys: Vec<String> = Vec::new();
    keys.push("text".to_owned());
    proof {
        assert(views(keys@) =~= seq!["text"@]);
    }
    if !fits(value, &keys) {
        return None;
    }
    match held_field(value, &keys, 0) {
        Some(Json::Text(text)) => Some(text.clone()),
        _ => None,
    }
}

/// Checks a text that is to be sent.
pub fn check_telegram_text(text: &str) -> (r: Result<(), String>)
    ensures
        r is Ok <==> trim(text@).len() > 0 && byte_len(text@) <= 4096,
        r is Err ==> r->Err_0@ == "текст Telegram вне допустимого размера"@,
{
    if is_blank(text) || bytes_in(text) > 4096 {
        Err("текст Telegram вне допустимого размера".to_owned())
    } else {
        Ok(())
    }
}

/// What is answered of a message that was sent.
#[derive(Debug, PartialEq, Eq)]
pub struct SendMessageResult {
    pub outcome: String,
    pub message_id: Option<i64>,
    pub error: Option<String>,
}

/// What is answered of a message that was sent.
pub fn delivery_result(outcome: TelegramOutcome) -> (r: SendMessageResult)
    ensures
        match outcome@ {
            DeliveryModel::Delivered(id) => r.outcome@ == "delivered"@ && r.message_id == id
                && r.error is None,
            DeliveryModel::Failed(error) => r.outcome@ == "failed"@ && r.message_id is None
                && view_option(r.error) == Some(error),
            DeliveryModel::Unknown(error) => r.outcome@ == "unknown"@ && r.message_id is None
                && view_option(r.error) == Some(error),
        },
{
    match outcome {
        TelegramOutcome::Delivered(message_id) => SendMessageResult {
            outcome: "delivered".to_owned(),
            message_id,
            error: None,
        },
        TelegramOutcome::Failed(error) => SendMessageResult {
            outcome: "failed".to_owned(),
            message_id: None,
            error: Some(error),
        },
        TelegramOutcome::Unknown(error) => SendMessageResult {
            outcome: "unknown".to_owned(),
            message_id: None,
            error: Some(error),
        },
    }
}

// Configurations.

/// Where the configuration of a server comes from.
#[derive(Debug, Clone, Copy, PartialEq, Eq, Structural)]
pub enum ConfigSource {
    /// The file, except for the servers it registers.
    WithoutServers,
    /// The whole file.
    File,
    /// Nowhere: the server needs none.
    Default,
}

/// Where the configuration of a server comes from: a server that stands on its own is not stopped by
/// settings it does not use.
pub fn config_for_server(kind: McpServerKind) -> (r: ConfigSource)
    ensures
        r == match kind {
            McpServerKind::Ai => ConfigSource::WithoutServers,
            McpServerKind::Orchestrator => ConfigSource::File,
            _ => ConfigSource::Default,
        },
{
    match kind {
        McpServerKind::Ai => ConfigSource::WithoutServers,
        McpServerKind::Orchestrator => ConfigSource::File,
        _ => ConfigSource::Default,
    }
}

/// The texts of a request for events are the members of those names; without a time zone it is that
/// of Moscow.
pub proof fn law_request_for_events_is_read(value: JsonModel)
    requires
        value is Object,
    ensures
        list_request_in(value) matches Some(request) ==> {
            &&& request.from == text_at(value, "from"@)
            &&& request.to == text_at(value, "to"@)
            &&& request.relative_to == text_at(value, "relative_to"@)
            &&& request.target_day == text_at(value, "target_day"@)
            &&& member_of(value, "timezone"@) is Some ==> Some(request.timezone) == text_at(
                value,
                "timezone"@,
            )
            &&& member_of(value, "timezone"@) is None ==> request.timezone == "Europe/Moscow"@
        },
{
    assert(list_keys()[0] == "from"@);
    assert(list_keys()[1] == "to"@);
    assert(list_keys()[2] == "relative_to"@);
    assert(list_keys()[3] == "target_day"@);
    assert(list_keys()[4] == "timezone"@);
}

/// A stated interval lies between the two moments that were stated, and takes time.
pub proof fn law_stated_interval_takes_time(from: Seq<char>, to: Seq<char>)
    ensures
        stated_interval(rfc3339_read(from), rfc3339_read(to)) matches Ok((start, end)) ==> {
            &&& rfc3339_read(from) == Ok::<TimestampModel, Seq<char>>(start)
            &&& rfc3339_read(to) == Ok::<TimestampModel, Seq<char>>(end)
            &&& end.seconds > start.seconds || end.seconds == start.seconds && end.nanos
                > start.nanos
        },
        rfc3339_read(from) matches Ok(start) ==> (rfc3339_read(to) matches Ok(end) ==> end.seconds
            > start.seconds ==> stated_interval(rfc3339_read(from), rfc3339_read(to)) is Ok),
{
}

/// The interval of tomorrow is one whole day of Moscow, the next one to begin.
pub proof fn law_tomorrow_is_the_next_day(
    interval: (TimestampModel, TimestampModel),
    reference: TimestampModel,
)
    requires
        is_tomorrow(interval, reference),
    ensures
        interval.1.seconds == interval.0.seconds + 86_400,
        reference.seconds < interval.0.seconds <= reference.seconds + 86_400,
        (interval.0.seconds + 10_800) % 86_400 == 0,
{
    law_tomorrow_begins_at_midnight(reference.seconds as int);
}

/// The model gets the instructions and the input of the call, and takes them as the words of a user.
pub proof fn law_model_gets_instructions_and_input(request: GenerateModel)
    ensures
        generate_message(request) matches Ok(message) ==> {
            &&& message.role == "user"@
            &&& has_part(message.content, request.instructions)
            &&& has_part(message.content, json_text(request.input))
        },
        generate_message(request) is Ok ==> trim(request.instructions).len() > 0 && byte_len(
            request.instructions,
        ) <= 10_000 && 0 < byte_len(json_text(request.input)) <= 100_000,
        trim(request.instructions).len() > 0 && byte_len(request.instructions) <= 10_000 && 0
            < byte_len(json_text(request.input)) <= 100_000 ==> generate_message(request) is Ok,
{
    let head = "Инструкции:\n"@;
    lemma_grown(head, request.instructions);
    lemma_grown(head + request.instructions, "\n\nВход JSON:\n"@);
    lemma_grown(
        head + request.instructions + "\n\nВход JSON:\n"@,
        json_text(request.input),
    );
    assert(has_part(head + request.instructions + "\n\nВход JSON:\n"@, request.instructions));
}

/// The request of a generation is read from the members of its names.
pub proof fn law_request_to_generate_is_read(value: JsonModel)
    requires
        value is Object,
    ensures
        generate_request_in(value) matches Some(request) ==> Some(request.instructions) == text_at(
            value,
            "instructions"@,
        ) && Some(request.input) == member_of(value, "input"@),
        send_request_in(value) matches Some(text) ==> text_at(value, "text"@) == Some(text),
{
    assert(generate_keys()[0] == "instructions"@);
    assert(generate_keys()[1] == "input"@);
    assert(seq!["text"@][0] == "text"@);
}

/// A reply is taken as it is when it has a text and calls nothing; else it is refused.
pub proof fn law_accepted_text_is_the_reply(
    reply: ModelReplyModel,
    on_call: Seq<char>,
    on_blank: Seq<char>,
)
    ensures
        accepted_text(reply, on_call, on_blank) matches Ok(text) ==> text == reply.text,
        accepted_text(reply, on_call, on_blank) is Ok <==> reply.tool_calls.len() == 0 && trim(
            reply.text,
        ).len() > 0,
{
}

/// A message that names no secret is told up to a length; one that does is not told at all.
pub proof fn law_secrets_are_not_told(message: Seq<char>, lower: Seq<char>, part: Seq<char>)
    requires
        part == "TELEGRAM_BOT_TOKEN"@ || part == "TELEGRAM_CHAT_ID"@,
        !has_part("не удалось настроить внешний сервис"@, part),
    ensures
        !has_part(safe_message(message, names_secret(message, lower)), part),
        !names_secret(message, lower) && message.len() <= 500 ==> safe_message(
            message,
            names_secret(message, lower),
        ) == message,
        !names_secret(message, lower) ==> safe_message(
            message,
            names_secret(message, lower),
        ).is_prefix_of(message),
{
    let shown = safe_message(message, names_secret(message, lower));
    if !names_secret(message, lower) && has_part(shown, part) {
        let rest = message.skip(shown.len() as int);
        assert(shown + rest =~= message);
        lemma_grown(shown, rest);
    }
}

/// A bot writes to the chat that was given, with the token that was given.
pub proof fn law_chat_is_the_given_one(token: Seq<char>, chat_id: Seq<char>)
    ensures
        trim(token).len() > 0 && trim(chat_id).len() > 0 ==> chat_of(Some(token), Some(chat_id))
            == Ok::<(Seq<char>, Seq<char>), Seq<char>>((token, chat_id)),
        trim(token).len() == 0 || trim(chat_id).len() == 0 ==> chat_of(
            Some(token),
            Some(chat_id),
        ) is Err,
        chat_of(None, Some(chat_id)) is Err,
        chat_of(Some(token), None) is Err,
{
}

/// A message counts as sent only when the service says so, and has the number that it was given.
pub proof fn law_sent_message_has_its_number(number: Seq<char>, message: Seq<char>)
    ensures
        message_number(
            JsonModel::Object(
                seq![
                    field(
                        "result"@,
                        JsonModel::Object(seq![field("message_id"@, JsonModel::Number(number))]),
                    ),
                ],
            ),
        ) == i64_of(number),
        refusal(JsonModel::Object(seq![field("description"@, JsonModel::Text(message))])) == message,
        confirms(true, JsonModel::Object(seq![field("ok"@, JsonModel::Bool(true))])),
        !confirms(false, JsonModel::Object(seq![field("ok"@, JsonModel::Bool(true))])),
        !confirms(true, JsonModel::Object(seq![field("ok"@, JsonModel::Bool(false))])),
{
    let inner = seq![field("message_id"@, JsonModel::Number(number))];
    let outer = seq![field("result"@, JsonModel::Object(inner))];
    let refused = seq![field("description"@, JsonModel::Text(message))];
    let well = seq![field("ok"@, JsonModel::Bool(true))];
    let ill = seq![field("ok"@, JsonModel::Bool(false))];
    assert(inner[0].key == "message_id"@ && outer[0].key == "result"@ && refused[0].key
        == "description"@ && well[0].key == "ok"@ && ill[0].key == "ok"@);
    law_member_is_found(inner, 0);
    law_member_is_found(outer, 0);
    law_member_is_found(refused, 0);
    law_member_is_found(well, 0);
    law_member_is_found(ill, 0);
}

/// The interval of a request is the stated one, or the whole of tomorrow; a request that states both
/// or neither is refused.
pub proof fn law_interval_is_the_requested_one(
    request: ListModel,
    r: Result<(Timestamp, Timestamp), String>,
)
    requires
        names_interval(request, r),
    ensures
        request.relative_to is None && request.target_day is None ==> (request.from matches Some(
            from,
        ) ==> (request.to matches Some(to) ==> (rfc3339_read(from) matches Ok(start) ==> (
        rfc3339_read(to) matches Ok(end) ==> end.seconds > start.seconds ==> (r matches Ok(moments)
            && moments.0@ == start && moments.1@ == end))))),
        request.from is None && request.to is None && request.target_day == Some("tomorrow"@)
            && request.timezone == "Europe/Moscow"@ ==> (request.relative_to matches Some(text)
            ==> (rfc3339_read(text) matches Ok(reference) ==> (r matches Ok(moments) && {
            &&& moments.1@.seconds == moments.0@.seconds + 86_400
            &&& reference.seconds < moments.0@.seconds <= reference.seconds + 86_400
            &&& (moments.0@.seconds + 10_800) % 86_400 == 0
        }))),
        request.from is Some && request.relative_to is Some ==> r is Err,
        request.from is None && request.relative_to is None ==> r is Err,
{
    if let Some(text) = request.relative_to {
        if let Ok(reference) = rfc3339_read(text) {
            law_tomorrow_begins_at_midnight(reference.seconds as int);
        }
    }
}

} // verus!
