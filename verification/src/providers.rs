//! The interfaces of the providers: which models can be used, what a request looks like, and what
//! is read out of a reply.

use vstd::prelude::*;

use crate::agent::{AgentSettings, SettingsModel};
use crate::config::{agrees_check, provider_title, NameModel, Provider, ProviderName};
use crate::conversation::{cut, truncate, Message, MessageModel};
use crate::json::{
    array_at, array_of, field, json_str, json_text, json_value, law_member_is_found,
    law_missing_member_is_not_found, lemma_member_index, member, member_of, object1, object2,
    object3, object4, object_of, parse_json, text_at, text_value, u64_at, write_json, Json,
    JsonModel, Member, MemberModel, JSON_DEPTH,
};
use crate::order::{ascending, same_texts, sorted_texts};
use crate::text::{
    agrees, chars_of, contains_text, has_part, is_blank, join, joined, lemma_views_push, same,
    starts_with_text, trim, views,
};
use crate::tools::{
    no_options, CallModel, DefinitionModel, OptionsModel, RequestOptions, ToolCall, ToolDefinition,
    ToolResultModel,
};

verus! {

broadcast use lemma_views_push;

// Models.

/// Whether a model is one of the first GPT-5 models, which take no temperature but the default.
pub open spec fn is_original_gpt5(model: Seq<char>) -> bool {
    model == "gpt-5"@ || "gpt-5-"@.is_prefix_of(model)
}

/// Whether a model is one of the first GPT-5 models, which take no temperature but the default.
pub fn is_original_gpt5_model(model: &str) -> (r: bool)
    ensures
        r == is_original_gpt5(model@),
{
    same(model, "gpt-5") || starts_with_text(model, "gpt-5-")
}

/// Whether a model takes a temperature once it is asked not to reason.
pub open spec fn takes_temperature_without_reasoning(model: Seq<char>) -> bool {
    ||| "gpt-5.1"@.is_prefix_of(model)
    ||| "gpt-5.2"@.is_prefix_of(model)
    ||| "gpt-5.3"@.is_prefix_of(model)
    ||| "gpt-5.4"@.is_prefix_of(model)
    ||| "gpt-5.5"@.is_prefix_of(model)
    ||| "gpt-5.6"@.is_prefix_of(model)
}

/// Whether a model takes a temperature once it is asked not to reason.
pub fn supports_temperature_with_reasoning_none(model: &str) -> (r: bool)
    ensures
        r == takes_temperature_without_reasoning(model@),
{
    starts_with_text(model, "gpt-5.1") || starts_with_text(model, "gpt-5.2") || starts_with_text(
        model,
        "gpt-5.3",
    ) || starts_with_text(model, "gpt-5.4") || starts_with_text(model, "gpt-5.5")
        || starts_with_text(model, "gpt-5.6")
}

/// The greatest temperature of a model.
pub open spec fn greatest_temperature(provider: Provider, model: Seq<char>) -> u32 {
    match provider {
        Provider::Claude => 1,
        Provider::Openai => if is_original_gpt5(model) {
            1
        } else {
            2
        },
    }
}

/// The greatest temperature of a model.
pub fn temperature_limit(provider: Provider, model: &str) -> (r: u32)
    ensures
        r == greatest_temperature(provider, model@),
{
    match provider {
        Provider::Claude => 1,
        Provider::Openai => if is_original_gpt5_model(model) {
            1
        } else {
            2
        },
    }
}

/// Whether the temperature of a model cannot be chosen.
pub fn has_fixed_temperature(provider: Provider, model: &str) -> (r: bool)
    ensures
        r == (provider == Provider::Openai && is_original_gpt5(model@)),
{
    provider == Provider::Openai && is_original_gpt5_model(model)
}

/// A character with a capital ASCII letter made small.
pub open spec fn ascii_lower(c: char) -> char {
    if 'A' <= c <= 'Z' {
        (c as u32 + 32) as char
    } else {
        c
    }
}

/// A text with the capital ASCII letters made small.
pub open spec fn ascii_lowercase(s: Seq<char>) -> Seq<char> {
    Seq::new(s.len(), |i: int| ascii_lower(s[i]))
}

/// A text with the capital ASCII letters made small.
pub fn to_ascii_lowercase(s: &str) -> (r: String)
    ensures
        r@ == ascii_lowercase(s@),
{
    let chars = chars_of(s);
    let mut out = String::new();
    let mut i: usize = 0;
    while i < chars.len()
        invariant
            i <= chars@.len(),
            chars@ == s@,
            out@ == ascii_lowercase(s@).take(i as int),
        decreases chars.len() - i,
    {
        let c = chars[i];
        let lower = if 'A' <= c && c <= 'Z' {
            (c as u8 + 32) as char
        } else {
            c
        };
        proof {
            assert(ascii_lowercase(s@).take(i as int).push(lower) =~= ascii_lowercase(s@).take(
                i + 1,
            ));
        }
        out.push(lower);
        i += 1;
    }
    proof {
        assert(ascii_lowercase(s@).take(i as int) =~= ascii_lowercase(s@));
    }
    out
}

/// Whether a name is that of a model for text.
pub open spec fn is_text_model(model: Seq<char>) -> bool {
    ||| "gpt-"@.is_prefix_of(model)
    ||| "o1"@.is_prefix_of(model)
    ||| "o3"@.is_prefix_of(model)
    ||| "o4"@.is_prefix_of(model)
    ||| "ft:gpt-"@.is_prefix_of(model)
}

/// Whether a name is that of a model for something else than dialogues.
pub open spec fn is_special_model(model: Seq<char>) -> bool {
    ||| has_part(model, "audio"@)
    ||| has_part(model, "realtime"@)
    ||| has_part(model, "transcribe"@)
    ||| has_part(model, "tts"@)
    ||| has_part(model, "image"@)
    ||| has_part(model, "moderation"@)
    ||| has_part(model, "search-preview"@)
    ||| has_part(model, "deep-research"@)
}

/// Whether a model can be used for dialogues.
pub open spec fn is_usable_model(provider: Provider, model: Seq<char>) -> bool {
    let name = ascii_lowercase(model);
    provider == Provider::Claude || (is_text_model(name) && !is_special_model(name)
        && !"gpt-3.5-turbo-instruct"@.is_prefix_of(name))
}

/// Whether a model can be used for dialogues.
pub fn model_supports_responses_api(provider: Provider, model: &str) -> (r: bool)
    ensures
        r == is_usable_model(provider, model@),
{
    if provider == Provider::Claude {
        return true;
    }
    let name = to_ascii_lowercase(model);
    let name = name.as_str();
    let text_model = starts_with_text(name, "gpt-") || starts_with_text(name, "o1")
        || starts_with_text(name, "o3") || starts_with_text(name, "o4") || starts_with_text(
        name,
        "ft:gpt-",
    );
    let special_model = contains_text(name, "audio") || contains_text(name, "realtime")
        || contains_text(name, "transcribe") || contains_text(name, "tts") || contains_text(
        name,
        "image",
    ) || contains_text(name, "moderation") || contains_text(name, "search-preview")
        || contains_text(name, "deep-research");
    text_model && !special_model && !starts_with_text(name, "gpt-3.5-turbo-instruct")
}

/// The name of the usable model that an entry of a list is, if it is one.
pub open spec fn usable_id(provider: Provider, item: JsonModel) -> Option<Seq<char>> {
    match text_at(item, "id"@) {
        Some(id) => if trim(id).len() > 0 && is_usable_model(provider, id) {
            Some(id)
        } else {
            None
        },
        None => None,
    }
}

/// The names of the usable models in a list.
pub open spec fn usable_ids(provider: Provider, items: Seq<JsonModel>) -> Seq<Seq<char>>
    decreases items.len(),
{
    if items.len() == 0 {
        Seq::empty()
    } else {
        match usable_id(provider, items.last()) {
            Some(id) => usable_ids(provider, items.drop_last()).push(id),
            None => usable_ids(provider, items.drop_last()),
        }
    }
}

/// The names of the usable models in a reply, each once and in order.
pub fn parse_model_ids(body: &Json, provider: Provider) -> (r: Result<Vec<String>, String>)
    ensures
        match (r, array_at(body@, "data"@)) {
            (Ok(ids), Some(items)) => ascending(views(ids@)) && same_texts(
                views(ids@),
                usable_ids(provider, items),
            ),
            (Err(message), None) => message@
                == "API вернул список моделей в неизвестном формате"@,
            _ => false,
        },
{
    let items = match body.get_array("data") {
        Some(items) => items,
        None => return Err("API вернул список моделей в неизвестном формате".to_owned()),
    };
    let ghost model = views(items@);
    let mut ids: Vec<String> = Vec::new();
    let mut i: usize = 0;
    proof {
        assert(model.take(0).len() == 0);
        assert(views(ids@) =~= Seq::<Seq<char>>::empty());
    }
    while i < items.len()
        invariant
            i <= items@.len(),
            model == views(items@),
            views(ids@) == usable_ids(provider, model.take(i as int)),
        decreases items.len() - i,
    {
        proof {
            assert(model.take(i + 1).drop_last() =~= model.take(i as int));
            assert(model.take(i + 1).last() == items@[i as int]@);
        }
        if let Some(id) = items[i].get_text("id") {
            if !is_blank(id.as_str()) && model_supports_responses_api(provider, id.as_str()) {
                ids.push(id.clone());
            }
        }
        i += 1;
    }
    proof {
        assert(model.take(i as int) =~= model);
    }
    Ok(sorted_texts(&ids))
}

// Requests.

/// A message of a request.
pub open spec fn message_json(message: MessageModel) -> JsonModel {
    JsonModel::Object(
        seq![
            field("content"@, JsonModel::Text(message.content)),
            field("role"@, JsonModel::Text(message.role)),
        ],
    )
}

/// The messages of a request.
pub open spec fn messages_json(messages: Seq<MessageModel>) -> Seq<JsonModel> {
    Seq::new(messages.len(), |i: int| message_json(messages[i]))
}

/// The description of a tool, which may be empty.
pub open spec fn description_of(tool: DefinitionModel) -> Seq<char> {
    match tool.description {
        Some(text) => text,
        None => Seq::empty(),
    }
}

/// A call that was made, for OpenAI.
pub open spec fn openai_call_json(call: CallModel) -> JsonModel {
    JsonModel::Object(
        seq![
            field("arguments"@, JsonModel::Text(json_text(call.arguments))),
            field("call_id"@, JsonModel::Text(call.id)),
            field("name"@, JsonModel::Text(call.name)),
            field("type"@, JsonModel::Text("function_call"@)),
        ],
    )
}

/// The result of a call as a text.
pub open spec fn output_text(content: JsonModel) -> Seq<char> {
    match content {
        JsonModel::Text(text) => text,
        _ => json_text(content),
    }
}

/// The result of a call, for OpenAI.
pub open spec fn openai_result_json(result: ToolResultModel) -> JsonModel {
    JsonModel::Object(
        seq![
            field("call_id"@, JsonModel::Text(result.call_id)),
            field("output"@, JsonModel::Text(output_text(result.content))),
            field("type"@, JsonModel::Text("function_call_output"@)),
        ],
    )
}

/// A tool that is offered, for OpenAI.
pub open spec fn openai_tool_json(tool: DefinitionModel) -> JsonModel {
    JsonModel::Object(
        seq![
            field("description"@, JsonModel::Text(description_of(tool))),
            field("name"@, JsonModel::Text(tool.name)),
            field("parameters"@, tool.input_schema),
            field("type"@, JsonModel::Text("function"@)),
        ],
    )
}

/// The input of a request to OpenAI: messages, calls that were made, and their results.
pub open spec fn openai_input(history: Seq<MessageModel>, options: OptionsModel) -> Seq<JsonModel> {
    messages_json(history) + Seq::new(
        options.tool_calls.len(),
        |i: int| openai_call_json(options.tool_calls[i]),
    ) + Seq::new(
        options.tool_results.len(),
        |i: int| openai_result_json(options.tool_results[i]),
    )
}

/// The tools that a request to OpenAI offers.
pub open spec fn openai_tools(options: OptionsModel) -> Seq<JsonModel> {
    Seq::new(options.tools.len(), |i: int| openai_tool_json(options.tools[i]))
}

/// An optional member of a request.
pub open spec fn member_if(condition: bool, key: Seq<char>, value: JsonModel) -> Seq<MemberModel> {
    if condition {
        seq![field(key, value)]
    } else {
        Seq::empty()
    }
}

/// The instructions of a request under the key that the provider gives them.
pub open spec fn instructions_member(key: Seq<char>, settings: SettingsModel) -> Seq<MemberModel> {
    match settings.instructions {
        Some(text) => seq![field(key, JsonModel::Text(text))],
        None => Seq::empty(),
    }
}

/// A request to OpenAI.
pub open spec fn openai_payload(
    settings: SettingsModel,
    history: Seq<MessageModel>,
    options: OptionsModel,
) -> JsonModel {
    JsonModel::Object(
        seq![field("input"@, JsonModel::Array(openai_input(history, options)))]
            + instructions_member("instructions"@, settings) + seq![
            field("model"@, JsonModel::Text(settings.model)),
        ] + member_if(
            takes_temperature_without_reasoning(settings.model),
            "reasoning"@,
            JsonModel::Object(seq![field("effort"@, JsonModel::Text("none"@))]),
        ) + seq![field("temperature"@, JsonModel::Number(settings.temperature))] + member_if(
            options.tools.len() > 0,
            "tools"@,
            JsonModel::Array(openai_tools(options)),
        ),
    )
}

fn push_messages(items: &mut Vec<Json>, history: &Vec<Message>)
    ensures
        views(final(items)@) == views(old(items)@) + messages_json(views(history@)),
{
    let ghost start = views(items@);
    let ghost all = messages_json(views(history@));
    let mut i: usize = 0;
    proof {
        assert(start + all.take(0) =~= start);
    }
    while i < history.len()
        invariant
            i <= history@.len(),
            start == views(old(items)@),
            all == messages_json(views(history@)),
            views(items@) == start + all.take(i as int),
        decreases history.len() - i,
    {
        let item = object2(
            "content",
            json_str(history[i].content.as_str()),
            "role",
            json_str(history[i].role.as_str()),
        );
        proof {
            assert(all[i as int] == item@);
            assert((start + all.take(i as int)).push(item@) =~= start + all.take(i + 1));
        }
        items.push(item);
        i += 1;
    }
    proof {
        assert(all.take(i as int) =~= all);
    }
}

/// A request to OpenAI without tools.
pub fn build_openai_payload(settings: &AgentSettings, history: &Vec<Message>) -> (r: Json)
    ensures
        r@ == openai_payload(settings@, views(history@), no_options()),
{
    build_openai_payload_with_options(settings, history, &RequestOptions::default())
}

fn make_openai_input(history: &Vec<Message>, options: &RequestOptions) -> (r: Vec<Json>)
    ensures
        views(r@) == openai_input(views(history@), options@),
{
    let mut items: Vec<Json> = Vec::new();
    let ghost all = openai_input(views(history@), options@);
    push_messages(&mut items, history);
    let ghost n = history@.len() as int;
    proof {
        assert(views(items@) =~= all.take(n));
    }
    let mut i: usize = 0;
    while i < options.tool_calls.len()
        invariant
            i <= options.tool_calls@.len(),
            n == history@.len(),
            all == openai_input(views(history@), options@),
            views(items@) == all.take(n + i),
        decreases options.tool_calls.len() - i,
    {
        let call = &options.tool_calls[i];
        let item = object4(
            "arguments",
            json_str(write_json(&call.arguments).as_str()),
            "call_id",
            json_str(call.id.as_str()),
            "name",
            json_str(call.name.as_str()),
            "type",
            json_str("function_call"),
        );
        proof {
            assert(all[n + i] == item@);
            assert(all.take(n + i).push(item@) =~= all.take(n + i + 1));
        }
        items.push(item);
        i += 1;
    }
    let ghost m = n + i;
    let mut i: usize = 0;
    while i < options.tool_results.len()
        invariant
            i <= options.tool_results@.len(),
            m == history@.len() + options.tool_calls@.len(),
            all == openai_input(views(history@), options@),
            views(items@) == all.take(m + i),
        decreases options.tool_results.len() - i,
    {
        let result = &options.tool_results[i];
        let output = match &result.content {
            Json::Text(text) => text.clone(),
            other => write_json(other),
        };
        let item = object3(
            "call_id",
            json_str(result.call_id.as_str()),
            "output",
            json_str(output.as_str()),
            "type",
            json_str("function_call_output"),
        );
        proof {
            assert(all[m + i] == item@);
            assert(all.take(m + i).push(item@) =~= all.take(m + i + 1));
        }
        items.push(item);
        i += 1;
    }
    proof {
        assert(all.take(m + i) =~= all);
    }
    items
}

fn make_description(tool: &ToolDefinition) -> (r: Json)
    ensures
        r@ == JsonModel::Text(description_of(tool@)),
{
    match &tool.description {
        Some(text) => json_str(text.as_str()),
        None => Json::Text(String::new()),
    }
}

fn make_openai_tools(options: &RequestOptions) -> (r: Vec<Json>)
    ensures
        views(r@) == openai_tools(options@),
{
    let ghost all = openai_tools(options@);
    let mut items: Vec<Json> = Vec::new();
    let mut i: usize = 0;
    while i < options.tools.len()
        invariant
            i <= options.tools@.len(),
            all == openai_tools(options@),
            views(items@) == all.take(i as int),
        decreases options.tools.len() - i,
    {
        let tool = &options.tools[i];
        let item = object4(
            "description",
            make_description(tool),
            "name",
            json_str(tool.name.as_str()),
            "parameters",
            tool.input_schema.copy(),
            "type",
            json_str("function"),
        );
        proof {
            assert(all[i as int] == item@);
            assert(all.take(i as int).push(item@) =~= all.take(i + 1));
        }
        items.push(item);
        i += 1;
    }
    proof {
        assert(all.take(i as int) =~= all);
    }
    items
}

fn push_member(members: &mut Vec<Member>, key: &str, value: Json)
    ensures
        views(final(members)@) == views(old(members)@) + seq![field(key@, value@)],
{
    let ghost before = views(members@);
    let ghost view = field(key@, value@);
    members.push(member(key, value));
    proof {
        assert(views(members@) =~= before + seq![view]);
    }
}

fn push_instructions(members: &mut Vec<Member>, key: &str, settings: &AgentSettings)
    ensures
        views(final(members)@) == views(old(members)@) + instructions_member(key@, settings@),
{
    let ghost before = views(members@);
    match &settings.instructions {
        Some(text) => push_member(members, key, json_str(text.as_str())),
        None => {
            proof {
                assert(before + Seq::<MemberModel>::empty() =~= before);
            }
        },
    }
}

/// A request to OpenAI.
pub fn build_openai_payload_with_options(
    settings: &AgentSettings,
    history: &Vec<Message>,
    options: &RequestOptions,
) -> (r: Json)
    ensures
        r@ == openai_payload(settings@, views(history@), options@),
{
    let mut members: Vec<Member> = Vec::new();
    push_member(&mut members, "input", array_of(make_openai_input(history, options)));
    proof {
        assert(views(members@) =~= seq![
            field("input"@, JsonModel::Array(openai_input(views(history@), options@))),
        ]);
    }
    push_instructions(&mut members, "instructions", settings);
    push_member(&mut members, "model", json_str(settings.model.as_str()));
    let ghost before = views(members@);
    if supports_temperature_with_reasoning_none(settings.model.as_str()) {
        push_member(&mut members, "reasoning", object1("effort", json_str("none")));
    } else {
        proof {
            assert(before + Seq::<MemberModel>::empty() =~= before);
        }
    }
    push_member(&mut members, "temperature", Json::Number(settings.temperature.clone()));
    let ghost before = views(members@);
    if options.tools.len() > 0 {
        push_member(&mut members, "tools", array_of(make_openai_tools(options)));
    } else {
        proof {
            assert(before + Seq::<MemberModel>::empty() =~= before);
        }
    }
    object_of(members)
}

/// A call that was made, for the second provider.
pub open spec fn claude_call_json(call: CallModel) -> JsonModel {
    JsonModel::Object(
        seq![
            field("id"@, JsonModel::Text(call.id)),
            field("input"@, call.arguments),
            field("name"@, JsonModel::Text(call.name)),
            field("type"@, JsonModel::Text("tool_use"@)),
        ],
    )
}

/// The result of a call, for the second provider.
pub open spec fn claude_result_json(result: ToolResultModel) -> JsonModel {
    JsonModel::Object(
        seq![
            field("content"@, result.content),
            field("is_error"@, JsonModel::Bool(result.is_error)),
            field("tool_use_id"@, JsonModel::Text(result.call_id)),
            field("type"@, JsonModel::Text("tool_result"@)),
        ],
    )
}

/// A tool that is offered, for the second provider.
pub open spec fn claude_tool_json(tool: DefinitionModel) -> JsonModel {
    JsonModel::Object(
        seq![
            field("description"@, JsonModel::Text(description_of(tool))),
            field("input_schema"@, tool.input_schema),
            field("name"@, JsonModel::Text(tool.name)),
        ],
    )
}

/// The calls that were made, for the second provider.
pub open spec fn claude_calls(options: OptionsModel) -> Seq<JsonModel> {
    Seq::new(options.tool_calls.len(), |i: int| claude_call_json(options.tool_calls[i]))
}

/// The results of the calls, for the second provider.
pub open spec fn claude_results(options: OptionsModel) -> Seq<JsonModel> {
    Seq::new(options.tool_results.len(), |i: int| claude_result_json(options.tool_results[i]))
}

/// The tools that a request to the second provider offers.
pub open spec fn claude_tools(options: OptionsModel) -> Seq<JsonModel> {
    Seq::new(options.tools.len(), |i: int| claude_tool_json(options.tools[i]))
}

/// A message of several parts.
pub open spec fn parts_message(parts: Seq<JsonModel>, role: Seq<char>) -> JsonModel {
    JsonModel::Object(
        seq![field("content"@, JsonModel::Array(parts)), field("role"@, JsonModel::Text(role))],
    )
}

/// A message of several parts, unless there are none.
pub open spec fn parts_list(parts: Seq<JsonModel>, role: Seq<char>) -> Seq<JsonModel> {
    if parts.len() > 0 {
        seq![parts_message(parts, role)]
    } else {
        Seq::empty()
    }
}

/// The messages of a request to the second provider.
pub open spec fn claude_messages(history: Seq<MessageModel>, options: OptionsModel) -> Seq<
    JsonModel,
> {
    messages_json(history) + parts_list(claude_calls(options), "assistant"@) + parts_list(
        claude_results(options),
        "user"@,
    )
}

/// A request to the second provider.
pub open spec fn claude_payload(
    settings: SettingsModel,
    history: Seq<MessageModel>,
    options: OptionsModel,
) -> JsonModel {
    JsonModel::Object(
        seq![
            field("max_tokens"@, JsonModel::Number("4096"@)),
            field("messages"@, JsonModel::Array(claude_messages(history, options))),
            field("model"@, JsonModel::Text(settings.model)),
        ] + instructions_member("system"@, settings) + seq![
            field("temperature"@, JsonModel::Number(settings.temperature)),
        ] + member_if(
            options.tools.len() > 0,
            "tools"@,
            JsonModel::Array(claude_tools(options)),
        ),
    )
}

fn make_claude_calls(options: &RequestOptions) -> (r: Vec<Json>)
    ensures
        views(r@) == claude_calls(options@),
{
    let ghost all = claude_calls(options@);
    let mut items: Vec<Json> = Vec::new();
    let mut i: usize = 0;
    while i < options.tool_calls.len()
        invariant
            i <= options.tool_calls@.len(),
            all == claude_calls(options@),
            views(items@) == all.take(i as int),
        decreases options.tool_calls.len() - i,
    {
        let call = &options.tool_calls[i];
        let item = object4(
            "id",
            json_str(call.id.as_str()),
            "input",
            call.arguments.copy(),
            "name",
            json_str(call.name.as_str()),
            "type",
            json_str("tool_use"),
        );
        proof {
            assert(all[i as int] == item@);
            assert(all.take(i as int).push(item@) =~= all.take(i + 1));
        }
        items.push(item);
        i += 1;
    }
    proof {
        assert(all.take(i as int) =~= all);
    }
    items
}

fn make_claude_results(options: &RequestOptions) -> (r: Vec<Json>)
    ensures
        views(r@) == claude_results(options@),
{
    let ghost all = claude_results(options@);
    let mut items: Vec<Json> = Vec::new();
    let mut i: usize = 0;
    while i < options.tool_results.len()
        invariant
            i <= options.tool_results@.len(),
            all == claude_results(options@),
            views(items@) == all.take(i as int),
        decreases options.tool_results.len() - i,
    {
        let result = &options.tool_results[i];
        let item = object4(
            "content",
            result.content.copy(),
            "is_error",
            Json::Bool(result.is_error),
            "tool_use_id",
            json_str(result.call_id.as_str()),
            "type",
            json_str("tool_result"),
        );
        proof {
            assert(all[i as int] == item@);
            assert(all.take(i as int).push(item@) =~= all.take(i + 1));
        }
        items.push(item);
        i += 1;
    }
    proof {
        assert(all.take(i as int) =~= all);
    }
    items
}

fn make_claude_tools(options: &RequestOptions) -> (r: Vec<Json>)
    ensures
        views(r@) == claude_tools(options@),
{
    let ghost all = claude_tools(options@);
    let mut items: Vec<Json> = Vec::new();
    let mut i: usize = 0;
    while i < options.tools.len()
        invariant
            i <= options.tools@.len(),
            all == claude_tools(options@),
            views(items@) == all.take(i as int),
        decreases options.tools.len() - i,
    {
        let tool = &options.tools[i];
        let item = object3(
            "description",
            make_description(tool),
            "input_schema",
            tool.input_schema.copy(),
            "name",
            json_str(tool.name.as_str()),
        );
        proof {
            assert(all[i as int] == item@);
            assert(all.take(i as int).push(item@) =~= all.take(i + 1));
        }
        items.push(item);
        i += 1;
    }
    proof {
        assert(all.take(i as int) =~= all);
    }
    items
}

fn push_parts(items: &mut Vec<Json>, parts: Vec<Json>, role: &str)
    ensures
        views(final(items)@) == views(old(items)@) + parts_list(views(parts@), role@),
{
    let ghost before = views(items@);
    if parts.len() > 0 {
        let item = object2("content", array_of(parts), "role", json_str(role));
        let ghost view = item@;
        items.push(item);
        proof {
            assert(views(items@) =~= before + seq![view]);
        }
    } else {
        proof {
            assert(before + Seq::<JsonModel>::empty() =~= before);
        }
    }
}

/// A request to the second provider without tools.
pub fn build_claude_payload(settings: &AgentSettings, history: &Vec<Message>) -> (r: Json)
    ensures
        r@ == claude_payload(settings@, views(history@), no_options()),
{
    build_claude_payload_with_options(settings, history, &RequestOptions::default())
}

/// A request to the second provider.
pub fn build_claude_payload_with_options(
    settings: &AgentSettings,
    history: &Vec<Message>,
    options: &RequestOptions,
) -> (r: Json)
    ensures
        r@ == claude_payload(settings@, views(history@), options@),
{
    let mut messages: Vec<Json> = Vec::new();
    push_messages(&mut messages, history);
    proof {
        assert(views(messages@) =~= messages_json(views(history@)));
    }
    push_parts(&mut messages, make_claude_calls(options), "assistant");
    push_parts(&mut messages, make_claude_results(options), "user");
    let mut members: Vec<Member> = Vec::new();
    members.push(member("max_tokens", Json::Number("4096".to_owned())));
    members.push(member("messages", array_of(messages)));
    members.push(member("model", json_str(settings.model.as_str())));
    proof {
        assert(views(members@) =~= seq![
            field("max_tokens"@, JsonModel::Number("4096"@)),
            field("messages"@, JsonModel::Array(claude_messages(views(history@), options@))),
            field("model"@, JsonModel::Text(settings@.model)),
        ]);
    }
    push_instructions(&mut members, "system", settings);
    push_member(&mut members, "temperature", Json::Number(settings.temperature.clone()));
    let ghost before = views(members@);
    if options.tools.len() > 0 {
        push_member(&mut members, "tools", array_of(make_claude_tools(options)));
    } else {
        proof {
            assert(before + Seq::<MemberModel>::empty() =~= before);
        }
    }
    object_of(members)
}

// Replies.

/// The value of the body of a reply, or the beginning of a body that is none.
pub open spec fn body_of(text: Seq<char>) -> Result<JsonModel, Seq<char>> {
    match json_value(text, JSON_DEPTH as nat) {
        Ok(value) => Ok(value),
        Err(_) => Err("API вернул не JSON: "@ + cut(text, 300)),
    }
}

/// Reads the body of a reply.
pub fn read_body(text: &str) -> (r: Result<Json, String>)
    ensures
        agrees(r, body_of(text@)),
{
    match parse_json(text) {
        Ok(value) => Ok(value),
        Err(_) => Err("API вернул не JSON: ".to_owned().concat(truncate(text, 300).as_str())),
    }
}

/// The message of a reply that reports an error.
pub open spec fn error_message(body: JsonModel) -> Seq<char> {
    match member_of(body, "error"@) {
        Some(error) => match text_at(error, "message"@) {
            Some(message) => message,
            None => "неизвестная ошибка API"@,
        },
        None => "неизвестная ошибка API"@,
    }
}

/// Checks that a reply reports success; `status` is the status line of the reply.
pub fn ensure_success(success: bool, status: &str, body: &Json, provider: &str) -> (r: Result<
    (),
    String,
>)
    ensures
        agrees_check(
            r,
            if success {
                None
            } else {
                Some(provider@ + " вернул "@ + status@ + ": "@ + error_message(body@))
            },
        ),
{
    if success {
        return Ok(());
    }
    let message = match body.get("error") {
        Some(error) => match error.get_text("message") {
            Some(message) => message.as_str(),
            None => "неизвестная ошибка API",
        },
        None => "неизвестная ошибка API",
    };
    Err(provider.to_owned().concat(" вернул ").concat(status).concat(": ").concat(message))
}

/// What the model replied.
#[derive(Debug, PartialEq, Eq)]
pub struct ModelReply {
    pub text: String,
    pub tool_calls: Vec<ToolCall>,
    pub input_tokens: u64,
    pub output_tokens: u64,
}

/// What the model replied, mathematically.
pub ghost struct ModelReplyModel {
    pub text: Seq<char>,
    pub tool_calls: Seq<CallModel>,
    pub input_tokens: nat,
    pub output_tokens: nat,
}

impl View for ModelReply {
    type V = ModelReplyModel;

    open spec fn view(&self) -> ModelReplyModel {
        ModelReplyModel {
            text: self.text@,
            tool_calls: views(self.tool_calls@),
            input_tokens: self.input_tokens as nat,
            output_tokens: self.output_tokens as nat,
        }
    }
}

/// How many tokens of a kind a reply counts.
pub open spec fn token_count(body: JsonModel, key: Seq<char>) -> nat {
    match member_of(body, "usage"@) {
        Some(usage) => match u64_at(usage, key) {
            Some(n) => n,
            None => 0,
        },
        None => 0,
    }
}

fn count_tokens(body: &Json, key: &str) -> (r: u64)
    ensures
        r == token_count(body@, key@),
{
    match body.get("usage") {
        Some(usage) => match usage.get_u64(key) {
            Some(n) => n,
            None => 0,
        },
        None => 0,
    }
}

/// The list under a key, or an empty one.
pub open spec fn list_at(value: JsonModel, key: Seq<char>) -> Seq<JsonModel> {
    match array_at(value, key) {
        Some(items) => items,
        None => Seq::empty(),
    }
}

/// The texts of the parts of a message.
pub open spec fn part_texts(parts: Seq<JsonModel>) -> Seq<Seq<char>>
    decreases parts.len(),
{
    if parts.len() == 0 {
        Seq::empty()
    } else {
        match text_at(parts.last(), "text"@) {
            Some(text) => part_texts(parts.drop_last()).push(text),
            None => part_texts(parts.drop_last()),
        }
    }
}

/// The texts of the messages of a reply of OpenAI.
pub open spec fn openai_texts(items: Seq<JsonModel>) -> Seq<Seq<char>>
    decreases items.len(),
{
    if items.len() == 0 {
        Seq::empty()
    } else {
        openai_texts(items.drop_last()) + part_texts(list_at(items.last(), "content"@))
    }
}

/// The text of a reply of OpenAI.
pub open spec fn openai_text(body: JsonModel) -> Seq<char> {
    join(openai_texts(list_at(body, "output"@)), "\n"@)
}

fn push_part_texts(texts: &mut Vec<String>, parts: &Vec<Json>)
    ensures
        views(final(texts)@) == views(old(texts)@) + part_texts(views(parts@)),
{
    let ghost start = views(texts@);
    let ghost model = views(parts@);
    let mut i: usize = 0;
    proof {
        assert(model.take(0).len() == 0);
        assert(start + part_texts(model.take(0)) =~= start);
    }
    while i < parts.len()
        invariant
            i <= parts@.len(),
            start == views(old(texts)@),
            model == views(parts@),
            views(texts@) == start + part_texts(model.take(i as int)),
        decreases parts.len() - i,
    {
        proof {
            assert(model.take(i + 1).drop_last() =~= model.take(i as int));
            assert(model.take(i + 1).last() == parts@[i as int]@);
        }
        if let Some(text) = parts[i].get_text("text") {
            proof {
                assert((start + part_texts(model.take(i as int))).push(text@) =~= start
                    + part_texts(model.take(i + 1)));
            }
            texts.push(text.clone());
        }
        i += 1;
    }
    proof {
        assert(model.take(i as int) =~= model);
    }
}

fn read_openai_text(body: &Json) -> (r: String)
    ensures
        r@ == openai_text(body@),
{
    let mut texts: Vec<String> = Vec::new();
    if let Some(items) = body.get_array("output") {
        let ghost model = views(items@);
        let mut i: usize = 0;
        proof {
            assert(model.take(0).len() == 0);
            assert(views(texts@) =~= Seq::<Seq<char>>::empty());
        }
        while i < items.len()
            invariant
                i <= items@.len(),
                model == views(items@),
                views(texts@) == openai_texts(model.take(i as int)),
            decreases items.len() - i,
        {
            proof {
                assert(model.take(i + 1).drop_last() =~= model.take(i as int));
                assert(model.take(i + 1).last() == items@[i as int]@);
            }
            let ghost before = views(texts@);
            if let Some(parts) = items[i].get_array("content") {
                push_part_texts(&mut texts, parts);
            } else {
                proof {
                    assert(before + part_texts(Seq::empty()) =~= before);
                }
            }
            i += 1;
        }
        proof {
            assert(model.take(i as int) =~= model);
        }
    } else {
        proof {
            assert(views(texts@) =~= openai_texts(Seq::empty()));
        }
    }
    joined(texts.as_slice(), "\n")
}

/// The text of a reply of OpenAI, which has to be there.
pub fn extract_openai_text(body: &Json) -> (r: Result<String, String>)
    ensures
        match r {
            Ok(text) => text@ == openai_text(body@) && trim(text@).len() > 0,
            Err(message) => trim(openai_text(body@)).len() == 0 && message@
                == "OpenAI не вернул текст"@,
        },
{
    let text = read_openai_text(body);
    if is_blank(text.as_str()) {
        Err("OpenAI не вернул текст".to_owned())
    } else {
        Ok(text)
    }
}

/// The parts of a reply of a kind.
pub open spec fn of_type(items: Seq<JsonModel>, kind: Seq<char>) -> Seq<JsonModel>
    decreases items.len(),
{
    if items.len() == 0 {
        Seq::empty()
    } else if text_at(items.last(), "type"@) == Some(kind) {
        of_type(items.drop_last(), kind).push(items.last())
    } else {
        of_type(items.drop_last(), kind)
    }
}

/// The text of a reply of the second provider.
pub open spec fn claude_text(body: JsonModel) -> Seq<char> {
    join(part_texts(of_type(list_at(body, "content"@), "text"@)), "\n"@)
}

fn pick_type(items: &Vec<Json>, kind: &str) -> (r: Vec<Json>)
    ensures
        views(r@) == of_type(views(items@), kind@),
{
    let ghost model = views(items@);
    let mut out: Vec<Json> = Vec::new();
    let mut i: usize = 0;
    proof {
        assert(model.take(0).len() == 0);
        assert(views(out@) =~= Seq::<JsonModel>::empty());
    }
    while i < items.len()
        invariant
            i <= items@.len(),
            model == views(items@),
            views(out@) == of_type(model.take(i as int), kind@),
        decreases items.len() - i,
    {
        proof {
            assert(model.take(i + 1).drop_last() =~= model.take(i as int));
            assert(model.take(i + 1).last() == items@[i as int]@);
        }
        if let Some(found) = items[i].get_text("type") {
            if same(found.as_str(), kind) {
                out.push(items[i].copy());
            }
        }
        i += 1;
    }
    proof {
        assert(model.take(i as int) =~= model);
    }
    out
}

fn pick_list(body: &Json, key: &str, kind: &str) -> (r: Vec<Json>)
    ensures
        views(r@) == of_type(list_at(body@, key@), kind@),
{
    match body.get_array(key) {
        Some(items) => pick_type(items, kind),
        None => {
            let empty: Vec<Json> = Vec::new();
            proof {
                assert(views(empty@) =~= of_type(Seq::empty(), kind@));
            }
            empty
        },
    }
}

fn read_claude_text(body: &Json) -> (r: String)
    ensures
        r@ == claude_text(body@),
{
    let parts = pick_list(body, "content", "text");
    let mut texts: Vec<String> = Vec::new();
    push_part_texts(&mut texts, &parts);
    proof {
        assert(views(texts@) =~= part_texts(views(parts@)));
    }
    joined(texts.as_slice(), "\n")
}

/// The text of a reply of the second provider, which has to be there.
pub fn extract_claude_text(body: &Json, title: &str) -> (r: Result<String, String>)
    ensures
        match r {
            Ok(text) => text@ == claude_text(body@) && trim(text@).len() > 0,
            Err(message) => trim(claude_text(body@)).len() == 0 && message@ == title@
                + " не вернул текст"@,
        },
{
    let text = read_claude_text(body);
    if is_blank(text.as_str()) {
        Err(title.to_owned().concat(" не вернул текст"))
    } else {
        Ok(text)
    }
}

/// The call that a part of a reply of OpenAI is.
pub open spec fn openai_call(item: JsonModel) -> Result<CallModel, Seq<char>> {
    let id = match member_of(item, "call_id"@) {
        Some(value) => text_value(value),
        None => text_at(item, "id"@),
    };
    match id {
        None => Err("OpenAI tool call не содержит call_id"@),
        Some(id) => match text_at(item, "name"@) {
            None => Err("OpenAI tool call не содержит name"@),
            Some(name) => match text_at(item, "arguments"@) {
                None => Err("OpenAI tool call не содержит arguments"@),
                Some(raw) => match json_value(raw, JSON_DEPTH as nat) {
                    Err(_) => Err("OpenAI tool call "@ + name + " содержит неверный JSON"@),
                    Ok(arguments) => Ok(CallModel { id, name, arguments }),
                },
            },
        },
    }
}

/// The call that a part of a reply of the second provider is.
pub open spec fn claude_call(item: JsonModel, title: Seq<char>) -> Result<CallModel, Seq<char>> {
    match text_at(item, "id"@) {
        None => Err(title + " tool_use не содержит id"@),
        Some(id) => match text_at(item, "name"@) {
            None => Err(title + " tool_use не содержит name"@),
            Some(name) => Ok(
                CallModel {
                    id,
                    name,
                    arguments: match member_of(item, "input"@) {
                        Some(value) => value,
                        None => JsonModel::Object(Seq::empty()),
                    },
                },
            ),
        },
    }
}

/// The call that a part of a reply is.
pub open spec fn provider_call(provider: Provider, item: JsonModel, title: Seq<char>) -> Result<
    CallModel,
    Seq<char>,
> {
    match provider {
        Provider::Openai => openai_call(item),
        Provider::Claude => claude_call(item, title),
    }
}

/// The calls that parts of a reply are, or what is wrong with the first bad one.
pub open spec fn provider_calls(
    provider: Provider,
    items: Seq<JsonModel>,
    title: Seq<char>,
) -> Result<Seq<CallModel>, Seq<char>>
    decreases items.len(),
{
    if items.len() == 0 {
        Ok(Seq::empty())
    } else {
        match provider_calls(provider, items.drop_last(), title) {
            Err(message) => Err(message),
            Ok(head) => match provider_call(provider, items.last(), title) {
                Err(message) => Err(message),
                Ok(call) => Ok(head.push(call)),
            },
        }
    }
}

proof fn lemma_calls_error(provider: Provider, items: Seq<JsonModel>, title: Seq<char>, n: int)
    requires
        0 <= n <= items.len(),
        provider_calls(provider, items.take(n), title) is Err,
    ensures
        provider_calls(provider, items, title) == provider_calls(provider, items.take(n), title),
    decreases items.len(),
{
    if n == items.len() {
        assert(items.take(n) =~= items);
    } else {
        assert(items.drop_last().take(n) =~= items.take(n));
        lemma_calls_error(provider, items.drop_last(), title, n);
    }
}

fn read_openai_call(item: &Json) -> (r: Result<ToolCall, String>)
    ensures
        agrees(r, openai_call(item@)),
{
    let id = match item.get("call_id") {
        Some(value) => value.as_text(),
        None => item.get_text("id"),
    };
    let id = match id {
        Some(id) => id,
        None => return Err("OpenAI tool call не содержит call_id".to_owned()),
    };
    let name = match item.get_text("name") {
        Some(name) => name,
        None => return Err("OpenAI tool call не содержит name".to_owned()),
    };
    let raw = match item.get_text("arguments") {
        Some(raw) => raw,
        None => return Err("OpenAI tool call не содержит arguments".to_owned()),
    };
    match parse_json(raw.as_str()) {
        Ok(arguments) => Ok(ToolCall { id: id.clone(), name: name.clone(), arguments }),
        Err(_) => Err(
            "OpenAI tool call ".to_owned().concat(name.as_str()).concat(" содержит неверный JSON"),
        ),
    }
}

fn read_claude_call(item: &Json, title: &str) -> (r: Result<ToolCall, String>)
    ensures
        agrees(r, claude_call(item@, title@)),
{
    let id = match item.get_text("id") {
        Some(id) => id,
        None => return Err(title.to_owned().concat(" tool_use не содержит id")),
    };
    let name = match item.get_text("name") {
        Some(name) => name,
        None => return Err(title.to_owned().concat(" tool_use не содержит name")),
    };
    let arguments = match item.get("input") {
        Some(value) => value.copy(),
        None => {
            let empty: Vec<Member> = Vec::new();
            proof {
                assert(views(empty@) =~= Seq::<MemberModel>::empty());
            }
            object_of(empty)
        },
    };
    Ok(ToolCall { id: id.clone(), name: name.clone(), arguments })
}

/// A list of calls shows what a mathematical result says.
pub open spec fn agrees_calls(
    r: Result<Vec<ToolCall>, String>,
    s: Result<Seq<CallModel>, Seq<char>>,
) -> bool {
    match (r, s) {
        (Ok(calls), Ok(model)) => views(calls@) == model,
        (Err(message), Err(model)) => message@ == model,
        _ => false,
    }
}

fn read_calls(provider: Provider, items: &Vec<Json>, title: &str) -> (r: Result<
    Vec<ToolCall>,
    String,
>)
    ensures
        agrees_calls(r, provider_calls(provider, views(items@), title@)),
{
    let ghost model = views(items@);
    let mut calls: Vec<ToolCall> = Vec::new();
    let mut i: usize = 0;
    proof {
        assert(model.take(0).len() == 0);
        assert(views(calls@) =~= Seq::<CallModel>::empty());
    }
    while i < items.len()
        invariant
            i <= items@.len(),
            model == views(items@),
            provider_calls(provider, model.take(i as int), title@) == Ok::<
                Seq<CallModel>,
                Seq<char>,
            >(views(calls@)),
        decreases items.len() - i,
    {
        proof {
            assert(model.take(i + 1).drop_last() =~= model.take(i as int));
            assert(model.take(i + 1).last() == items@[i as int]@);
        }
        let call = match provider {
            Provider::Openai => read_openai_call(&items[i]),
            Provider::Claude => read_claude_call(&items[i], title),
        };
        match call {
            Ok(call) => calls.push(call),
            Err(message) => {
                proof {
                    lemma_calls_error(provider, model, title@, i + 1);
                }
                return Err(message);
            },
        }
        i += 1;
    }
    proof {
        assert(model.take(i as int) =~= model);
    }
    Ok(calls)
}

/// The calls that a reply of OpenAI asks for.
pub fn extract_openai_tool_calls(body: &Json) -> (r: Result<Vec<ToolCall>, String>)
    ensures
        agrees_calls(
            r,
            provider_calls(
                Provider::Openai,
                of_type(list_at(body@, "output"@), "function_call"@),
                "OpenAI"@,
            ),
        ),
{
    read_calls(Provider::Openai, &pick_list(body, "output", "function_call"), "OpenAI")
}

/// The calls that a reply of the second provider asks for.
pub fn extract_claude_tool_calls(body: &Json, title: &str) -> (r: Result<Vec<ToolCall>, String>)
    ensures
        agrees_calls(
            r,
            provider_calls(
                Provider::Claude,
                of_type(list_at(body@, "content"@), "tool_use"@),
                title@,
            ),
        ),
{
    read_calls(Provider::Claude, &pick_list(body, "content", "tool_use"), title)
}

/// What the body of a reply says, or why it says nothing.
pub open spec fn reply_in(provider: Provider, body: JsonModel, second: NameModel) -> Result<
    ModelReplyModel,
    Seq<char>,
> {
    let title = provider_title(provider, second);
    let text = match provider {
        Provider::Openai => openai_text(body),
        Provider::Claude => claude_text(body),
    };
    let items = match provider {
        Provider::Openai => of_type(list_at(body, "output"@), "function_call"@),
        Provider::Claude => of_type(list_at(body, "content"@), "tool_use"@),
    };
    match provider_calls(provider, items, title) {
        Err(message) => Err(message),
        Ok(tool_calls) => if trim(text).len() == 0 && tool_calls.len() == 0 {
            Err(title + " не вернул текст или tool call"@)
        } else {
            Ok(
                ModelReplyModel {
                    text,
                    tool_calls,
                    input_tokens: token_count(body, "input_tokens"@),
                    output_tokens: token_count(body, "output_tokens"@),
                },
            )
        },
    }
}

/// Reads what the body of a reply says.
pub fn read_reply(provider: Provider, body: &Json, second: &ProviderName) -> (r: Result<
    ModelReply,
    String,
>)
    ensures
        agrees(r, reply_in(provider, body@, second@)),
{
    let title = provider.title(second);
    let text = match provider {
        Provider::Openai => read_openai_text(body),
        Provider::Claude => read_claude_text(body),
    };
    let calls = match provider {
        Provider::Openai => extract_openai_tool_calls(body),
        Provider::Claude => extract_claude_tool_calls(body, title),
    };
    match calls {
        Err(message) => Err(message),
        Ok(tool_calls) => {
            if is_blank(text.as_str()) && tool_calls.len() == 0 {
                return Err(title.to_owned().concat(" не вернул текст или tool call"));
            }
            Ok(
                ModelReply {
                    text,
                    tool_calls,
                    input_tokens: count_tokens(body, "input_tokens"),
                    output_tokens: count_tokens(body, "output_tokens"),
                },
            )
        },
    }
}

/// Both providers are told the same: the instructions of a request reach each of them unchanged.
pub proof fn law_instructions_reach_every_provider(
    settings: SettingsModel,
    history: Seq<MessageModel>,
    options: OptionsModel,
)
    ensures
        member_of(openai_payload(settings, history, options), "instructions"@)
            == match settings.instructions {
            Some(text) => Some(JsonModel::Text(text)),
            None => None,
        },
        member_of(claude_payload(settings, history, options), "system"@)
            == match settings.instructions {
            Some(text) => Some(JsonModel::Text(text)),
            None => None,
        },
{
    let openai = openai_payload(settings, history, options)->Object_0;
    let claude = claude_payload(settings, history, options)->Object_0;
    reveal_strlit("input");
    reveal_strlit("instructions");
    reveal_strlit("model");
    reveal_strlit("reasoning");
    reveal_strlit("temperature");
    reveal_strlit("tools");
    reveal_strlit("max_tokens");
    reveal_strlit("messages");
    reveal_strlit("system");
    let present = settings.instructions is Some;
    assert("input"@.len() == 5 && "model"@.len() == 5 && "tools"@.len() == 5);
    assert("reasoning"@.len() == 9 && "temperature"@.len() == 11 && "instructions"@.len() == 12);
    assert("max_tokens"@.len() == 10 && "messages"@.len() == 8 && "system"@.len() == 6);
    assert forall|i: int| 0 <= i < openai.len() && !(present && i == 1) implies (
    #[trigger] openai[i]).key.len() != 12 by {
        lemma_openai_keys(settings, history, options, i);
    }
    assert forall|i: int| 0 <= i < claude.len() && !(present && i == 3) implies (
    #[trigger] claude[i]).key.len() != 6 by {
        lemma_claude_keys(settings, history, options, i);
    }
    lemma_member_found(openai, "instructions"@, 1, present);
    lemma_member_found(claude, "system"@, 3, present);
}

proof fn lemma_openai_keys(
    settings: SettingsModel,
    history: Seq<MessageModel>,
    options: OptionsModel,
    i: int,
)
    requires
        0 <= i < openai_payload(settings, history, options)->Object_0.len(),
        !(settings.instructions is Some && i == 1),
    ensures
        ({
            let key = openai_payload(settings, history, options)->Object_0[i].key;
            key == "input"@ || key == "model"@ || key == "tools"@ || key == "reasoning"@ || key
                == "temperature"@
        }),
{
    let first = seq![field("input"@, JsonModel::Array(openai_input(history, options)))];
    let second = first + instructions_member("instructions"@, settings);
    let third = second + seq![field("model"@, JsonModel::Text(settings.model))];
    let fourth = third + member_if(
        takes_temperature_without_reasoning(settings.model),
        "reasoning"@,
        JsonModel::Object(seq![field("effort"@, JsonModel::Text("none"@))]),
    );
    let fifth = fourth + seq![field("temperature"@, JsonModel::Number(settings.temperature))];
    let all = openai_payload(settings, history, options)->Object_0;
    if i < first.len() {
        assert(all[i] == first[i]);
    } else if i < third.len() {
        assert(all[i] == third[i]);
    } else if i < fourth.len() {
        assert(all[i] == fourth[i]);
    } else if i < fifth.len() {
        assert(all[i] == fifth[i]);
    }
}

proof fn lemma_claude_keys(
    settings: SettingsModel,
    history: Seq<MessageModel>,
    options: OptionsModel,
    i: int,
)
    requires
        0 <= i < claude_payload(settings, history, options)->Object_0.len(),
        !(settings.instructions is Some && i == 3),
    ensures
        ({
            let key = claude_payload(settings, history, options)->Object_0[i].key;
            key == "max_tokens"@ || key == "messages"@ || key == "model"@ || key == "tools"@ || key
                == "temperature"@
        }),
{
    let first = seq![
        field("max_tokens"@, JsonModel::Number("4096"@)),
        field("messages"@, JsonModel::Array(claude_messages(history, options))),
        field("model"@, JsonModel::Text(settings.model)),
    ];
    let second = first + instructions_member("system"@, settings);
    let third = second + seq![field("temperature"@, JsonModel::Number(settings.temperature))];
    let all = claude_payload(settings, history, options)->Object_0;
    if i < first.len() {
        assert(all[i] == first[i]);
    } else if i < third.len() {
        assert(all[i] == third[i]);
    }
}

proof fn lemma_member_found(members: Seq<MemberModel>, key: Seq<char>, at: int, present: bool)
    requires
        0 <= at < members.len(),
        present ==> members[at].key == key,
        forall|i: int| 0 <= i < at ==> (#[trigger] members[i]).key != key,
        !present ==> forall|i: int| 0 <= i < members.len() ==> (#[trigger] members[i]).key != key,
    ensures
        member_of(JsonModel::Object(members), key) == if present {
            Some(members[at].value)
        } else {
            None
        },
{
    lemma_member_index(
        members,
        key,
        if present {
            at
        } else {
            members.len() as int
        },
    );
}

proof fn lemma_keys_differ()
    ensures
        "content"@ != "role"@,
        "input"@ != "instructions"@,
        "input"@ != "model"@,
        "input"@ != "reasoning"@,
        "input"@ != "temperature"@,
        "input"@ != "tools"@,
        "instructions"@ != "model"@,
        "instructions"@ != "reasoning"@,
        "instructions"@ != "temperature"@,
        "instructions"@ != "tools"@,
        "model"@ != "reasoning"@,
        "model"@ != "temperature"@,
        "model"@ != "tools"@,
        "reasoning"@ != "temperature"@,
        "reasoning"@ != "tools"@,
        "temperature"@ != "tools"@,
        "max_tokens"@ != "messages"@,
        "max_tokens"@ != "model"@,
        "max_tokens"@ != "system"@,
        "max_tokens"@ != "temperature"@,
        "max_tokens"@ != "tools"@,
        "messages"@ != "model"@,
        "messages"@ != "system"@,
        "messages"@ != "temperature"@,
        "messages"@ != "tools"@,
        "system"@ != "model"@,
        "system"@ != "temperature"@,
        "system"@ != "tools"@,
{
    reveal_strlit("content");
    reveal_strlit("role");
    reveal_strlit("input");
    reveal_strlit("instructions");
    reveal_strlit("model");
    reveal_strlit("reasoning");
    reveal_strlit("temperature");
    reveal_strlit("tools");
    reveal_strlit("max_tokens");
    reveal_strlit("messages");
    reveal_strlit("system");
    assert("content"@.len() == 7 && "role"@.len() == 4);
    assert("input"@.len() == 5 && "model"@.len() == 5 && "tools"@.len() == 5);
    assert("input"@[0] == 'i' && "model"@[0] == 'm' && "tools"@[0] == 't');
    assert("reasoning"@.len() == 9 && "temperature"@.len() == 11 && "instructions"@.len() == 12);
    assert("max_tokens"@.len() == 10 && "messages"@.len() == 8 && "system"@.len() == 6);
}

proof fn lemma_openai_members(
    settings: SettingsModel,
    history: Seq<MessageModel>,
    options: OptionsModel,
)
    ensures
        ({
            let payload = openai_payload(settings, history, options);
            &&& array_at(payload, "input"@) == Some(openai_input(history, options))
            &&& text_at(payload, "model"@) == Some(settings.model)
            &&& member_of(payload, "temperature"@) == Some(JsonModel::Number(settings.temperature))
            &&& options.tools.len() > 0 ==> array_at(payload, "tools"@) == Some(
                openai_tools(options),
            )
            &&& options.tools.len() == 0 ==> member_of(payload, "tools"@) is None
        }),
{
    lemma_keys_differ();
    let all = openai_payload(settings, history, options)->Object_0;
    let i = instructions_member("instructions"@, settings).len() as int;
    let r = member_if(
        takes_temperature_without_reasoning(settings.model),
        "reasoning"@,
        JsonModel::Object(seq![field("effort"@, JsonModel::Text("none"@))]),
    ).len() as int;
    assert(all[0].key == "input"@);
    assert(i == 1 ==> all[1].key == "instructions"@);
    assert(all[1 + i].key == "model"@);
    assert(r == 1 ==> all[2 + i].key == "reasoning"@);
    assert(all[2 + i + r].key == "temperature"@);
    law_member_is_found(all, 0);
    law_member_is_found(all, 1 + i);
    assert forall|k: int| 0 <= k < 2 + i + r implies (#[trigger] all[k]).key
        != "temperature"@ && all[k].key != "tools"@ by {
        assert(k == 0 || i == 1 && k == 1 || k == 1 + i || k == 2 + i);
    }
    law_member_is_found(all, 2 + i + r);
    if options.tools.len() > 0 {
        assert(all[3 + i + r].key == "tools"@);
        law_member_is_found(all, 3 + i + r);
    } else {
        law_missing_member_is_not_found(all, "tools"@);
    }
}

proof fn lemma_claude_members(
    settings: SettingsModel,
    history: Seq<MessageModel>,
    options: OptionsModel,
)
    ensures
        ({
            let payload = claude_payload(settings, history, options);
            &&& array_at(payload, "messages"@) == Some(claude_messages(history, options))
            &&& text_at(payload, "model"@) == Some(settings.model)
            &&& member_of(payload, "temperature"@) == Some(JsonModel::Number(settings.temperature))
            &&& options.tools.len() > 0 ==> array_at(payload, "tools"@) == Some(
                claude_tools(options),
            )
            &&& options.tools.len() == 0 ==> member_of(payload, "tools"@) is None
        }),
{
    lemma_keys_differ();
    let all = claude_payload(settings, history, options)->Object_0;
    let i = instructions_member("system"@, settings).len() as int;
    assert(all[0].key == "max_tokens"@);
    assert(all[1].key == "messages"@);
    assert(all[2].key == "model"@);
    assert(i == 1 ==> all[3].key == "system"@);
    assert(all[3 + i].key == "temperature"@);
    law_member_is_found(all, 1);
    law_member_is_found(all, 2);
    law_member_is_found(all, 3 + i);
    if options.tools.len() > 0 {
        assert(all[4 + i].key == "tools"@);
        law_member_is_found(all, 4 + i);
    } else {
        law_missing_member_is_not_found(all, "tools"@);
    }
}

/// Every message of the dialogue is sent to each provider at its own place, with its own role and its
/// own content; without calls of tools nothing else is sent.
pub proof fn law_messages_keep_their_roles(
    settings: SettingsModel,
    history: Seq<MessageModel>,
    options: OptionsModel,
    i: int,
)
    ensures
        array_at(openai_payload(settings, history, options), "input"@) matches Some(items) && {
            &&& items.len() == history.len() + options.tool_calls.len()
                + options.tool_results.len()
            &&& 0 <= i < history.len() ==> text_at(items[i], "role"@) == Some(history[i].role)
                && text_at(items[i], "content"@) == Some(history[i].content)
        },
        array_at(claude_payload(settings, history, options), "messages"@) matches Some(items) && {
            &&& items.len() >= history.len()
            &&& options.tool_calls.len() == 0 && options.tool_results.len() == 0 ==> items.len()
                == history.len()
            &&& 0 <= i < history.len() ==> text_at(items[i], "role"@) == Some(history[i].role)
                && text_at(items[i], "content"@) == Some(history[i].content)
        },
{
    lemma_openai_members(settings, history, options);
    lemma_claude_members(settings, history, options);
    lemma_keys_differ();
    if 0 <= i < history.len() {
        let members = message_json(history[i])->Object_0;
        law_member_is_found(members, 0);
        law_member_is_found(members, 1);
        assert(openai_input(history, options)[i] == message_json(history[i]));
        assert(claude_messages(history, options)[i] == message_json(history[i]));
    }
}

/// Two dialogues that differ in a role or in a content are sent as different requests.
pub proof fn law_different_dialogues_are_sent_differently(
    settings: SettingsModel,
    a: Seq<MessageModel>,
    b: Seq<MessageModel>,
    options: OptionsModel,
    i: int,
)
    requires
        0 <= i < a.len(),
        i < b.len(),
        a[i] != b[i],
    ensures
        openai_payload(settings, a, options) != openai_payload(settings, b, options),
        claude_payload(settings, a, options) != claude_payload(settings, b, options),
{
    law_messages_keep_their_roles(settings, a, options, i);
    law_messages_keep_their_roles(settings, b, options, i);
}

/// A request names the model and the temperature of the settings.
pub proof fn law_requests_name_the_model(
    settings: SettingsModel,
    history: Seq<MessageModel>,
    options: OptionsModel,
)
    ensures
        text_at(openai_payload(settings, history, options), "model"@) == Some(settings.model),
        text_at(claude_payload(settings, history, options), "model"@) == Some(settings.model),
        member_of(openai_payload(settings, history, options), "temperature"@) == Some(
            JsonModel::Number(settings.temperature),
        ),
        member_of(claude_payload(settings, history, options), "temperature"@) == Some(
            JsonModel::Number(settings.temperature),
        ),
{
    lemma_openai_members(settings, history, options);
    lemma_claude_members(settings, history, options);
}

proof fn lemma_tool_keys_differ()
    ensures
        "description"@ != "name"@,
        "description"@ != "parameters"@,
        "description"@ != "input_schema"@,
        "input_schema"@ != "name"@,
        "name"@ != "parameters"@,
        "arguments"@ != "call_id"@,
        "arguments"@ != "name"@,
        "call_id"@ != "name"@,
        "call_id"@ != "output"@,
        "id"@ != "input"@,
        "id"@ != "name"@,
        "input"@ != "name"@,
        "content"@ != "is_error"@,
        "content"@ != "tool_use_id"@,
        "is_error"@ != "tool_use_id"@,
{
    reveal_strlit("description");
    reveal_strlit("name");
    reveal_strlit("parameters");
    reveal_strlit("input_schema");
    reveal_strlit("arguments");
    reveal_strlit("call_id");
    reveal_strlit("output");
    reveal_strlit("id");
    reveal_strlit("input");
    reveal_strlit("content");
    reveal_strlit("is_error");
    reveal_strlit("tool_use_id");
    assert("description"@.len() == 11 && "name"@.len() == 4 && "parameters"@.len() == 10);
    assert("input_schema"@.len() == 12 && "arguments"@.len() == 9 && "call_id"@.len() == 7);
    assert("output"@.len() == 6 && "id"@.len() == 2 && "input"@.len() == 5);
    assert("content"@.len() == 7 && "is_error"@.len() == 8 && "tool_use_id"@.len() == 11);
}

/// Every tool is offered to each provider with its name, its description and its schema.
pub proof fn law_tools_are_offered(
    settings: SettingsModel,
    history: Seq<MessageModel>,
    options: OptionsModel,
    i: int,
)
    requires
        0 <= i < options.tools.len(),
    ensures
        array_at(openai_payload(settings, history, options), "tools"@) matches Some(items) && {
            &&& items.len() == options.tools.len()
            &&& text_at(items[i], "name"@) == Some(options.tools[i].name)
            &&& member_of(items[i], "parameters"@) == Some(options.tools[i].input_schema)
            &&& options.tools[i].description matches Some(text) ==> text_at(
                items[i],
                "description"@,
            ) == Some(text)
        },
        array_at(claude_payload(settings, history, options), "tools"@) matches Some(items) && {
            &&& items.len() == options.tools.len()
            &&& text_at(items[i], "name"@) == Some(options.tools[i].name)
            &&& member_of(items[i], "input_schema"@) == Some(options.tools[i].input_schema)
            &&& options.tools[i].description matches Some(text) ==> text_at(
                items[i],
                "description"@,
            ) == Some(text)
        },
{
    lemma_openai_members(settings, history, options);
    lemma_claude_members(settings, history, options);
    lemma_tool_keys_differ();
    let openai = openai_tool_json(options.tools[i])->Object_0;
    law_member_is_found(openai, 0);
    law_member_is_found(openai, 1);
    law_member_is_found(openai, 2);
    let claude = claude_tool_json(options.tools[i])->Object_0;
    law_member_is_found(claude, 0);
    law_member_is_found(claude, 1);
    law_member_is_found(claude, 2);
}

/// The calls that were made and their results are sent back behind the messages: each result under the
/// number of its call, with its content.
pub proof fn law_results_go_back_to_openai(
    history: Seq<MessageModel>,
    options: OptionsModel,
    i: int,
    j: int,
)
    requires
        0 <= i < options.tool_calls.len(),
        0 <= j < options.tool_results.len(),
    ensures
        ({
            let items = openai_input(history, options);
            let call = items[history.len() + i];
            let result = items[history.len() + options.tool_calls.len() + j];
            &&& text_at(call, "call_id"@) == Some(options.tool_calls[i].id)
            &&& text_at(call, "name"@) == Some(options.tool_calls[i].name)
            &&& text_at(call, "arguments"@) == Some(json_text(options.tool_calls[i].arguments))
            &&& text_at(result, "call_id"@) == Some(options.tool_results[j].call_id)
            &&& options.tool_results[j].content matches JsonModel::Text(text) ==> text_at(
                result,
                "output"@,
            ) == Some(text)
            &&& options.tool_results[j].content !is Text ==> text_at(result, "output"@) == Some(
                json_text(options.tool_results[j].content),
            )
        }),
{
    lemma_tool_keys_differ();
    let call = openai_call_json(options.tool_calls[i])->Object_0;
    law_member_is_found(call, 0);
    law_member_is_found(call, 1);
    law_member_is_found(call, 2);
    let result = openai_result_json(options.tool_results[j])->Object_0;
    law_member_is_found(result, 0);
    law_member_is_found(result, 1);
    let items = openai_input(history, options);
    assert(items[history.len() + i] == openai_call_json(options.tool_calls[i]));
    assert(items[history.len() + options.tool_calls.len() + j] == openai_result_json(
        options.tool_results[j],
    ));
}

/// To the second provider the calls go back as one message of the model and the results as one of the
/// user, behind the messages: each result under the number of its call, with its content and whether
/// it is an error.
pub proof fn law_results_go_back_to_the_second_provider(
    history: Seq<MessageModel>,
    options: OptionsModel,
    i: int,
    j: int,
)
    requires
        0 <= i < options.tool_calls.len(),
        0 <= j < options.tool_results.len(),
    ensures
        ({
            let items = claude_messages(history, options);
            let asked = items[history.len() as int];
            let answered = items[history.len() as int + 1];
            &&& items.len() == history.len() + 2
            &&& text_at(asked, "role"@) == Some("assistant"@)
            &&& text_at(answered, "role"@) == Some("user"@)
            &&& array_at(asked, "content"@) matches Some(calls) && calls.len()
                == options.tool_calls.len() && text_at(calls[i], "id"@) == Some(
                options.tool_calls[i].id,
            ) && text_at(calls[i], "name"@) == Some(options.tool_calls[i].name) && member_of(
                calls[i],
                "input"@,
            ) == Some(options.tool_calls[i].arguments)
            &&& array_at(answered, "content"@) matches Some(results) && results.len()
                == options.tool_results.len() && text_at(results[j], "tool_use_id"@) == Some(
                options.tool_results[j].call_id,
            ) && member_of(results[j], "content"@) == Some(options.tool_results[j].content)
                && member_of(results[j], "is_error"@) == Some(
                JsonModel::Bool(options.tool_results[j].is_error),
            )
        }),
{
    lemma_keys_differ();
    lemma_tool_keys_differ();
    let calls = claude_calls(options);
    let results = claude_results(options);
    law_member_is_found(parts_message(calls, "assistant"@)->Object_0, 0);
    law_member_is_found(parts_message(calls, "assistant"@)->Object_0, 1);
    law_member_is_found(parts_message(results, "user"@)->Object_0, 0);
    law_member_is_found(parts_message(results, "user"@)->Object_0, 1);
    let call = claude_call_json(options.tool_calls[i])->Object_0;
    law_member_is_found(call, 0);
    law_member_is_found(call, 1);
    law_member_is_found(call, 2);
    let result = claude_result_json(options.tool_results[j])->Object_0;
    law_member_is_found(result, 0);
    law_member_is_found(result, 1);
    law_member_is_found(result, 2);
    let items = claude_messages(history, options);
    assert(items[history.len() as int] == parts_message(calls, "assistant"@));
    assert(items[history.len() as int + 1] == parts_message(results, "user"@));
}

proof fn lemma_part_texts(parts: Seq<JsonModel>)
    ensures
        part_texts(parts) == parts.filter_map(|part: JsonModel| text_at(part, "text"@)),
    decreases parts.len(),
{
    if parts.len() > 0 {
        lemma_part_texts(parts.drop_last());
        if let Some(text) = text_at(parts.last(), "text"@) {
            let rest = part_texts(parts.drop_last());
            assert(rest.push(text) =~= rest + seq![text]);
        }
    }
}

proof fn lemma_of_type(items: Seq<JsonModel>, kind: Seq<char>)
    ensures
        of_type(items, kind) == items.filter(
            |item: JsonModel| text_at(item, "type"@) == Some(kind),
        ),
    decreases items.len(),
{
    reveal(Seq::filter);
    if items.len() > 0 {
        lemma_of_type(items.drop_last(), kind);
    } else {
        assert(of_type(items, kind) =~= items);
    }
}

/// The text of a reply is made of the texts of its parts, in their order: of every part of every
/// message, or, with the second provider, of every part that is text.
pub proof fn law_reply_holds_the_texts_of_its_parts(
    body: JsonModel,
    items: Seq<JsonModel>,
    last: JsonModel,
)
    ensures
        array_at(body, "content"@) == Some(items) ==> claude_text(body) == join(
            items.filter(
                |item: JsonModel| text_at(item, "type"@) == Some("text"@),
            ).filter_map(|part: JsonModel| text_at(part, "text"@)),
            "\n"@,
        ),
        array_at(body, "output"@) == Some(items) ==> openai_text(body) == join(
            openai_texts(items),
            "\n"@,
        ),
        openai_texts(items.push(last)) == openai_texts(items) + list_at(
            last,
            "content"@,
        ).filter_map(|part: JsonModel| text_at(part, "text"@)),
        openai_texts(Seq::empty()) == Seq::<Seq<char>>::empty(),
{
    lemma_of_type(items, "text"@);
    lemma_part_texts(of_type(items, "text"@));
    lemma_part_texts(list_at(last, "content"@));
    assert(items.push(last).drop_last() =~= items);
}

/// A reply with one text says that text.
pub proof fn law_single_text_is_the_reply(
    body: JsonModel,
    item: JsonModel,
    part: JsonModel,
    text: Seq<char>,
)
    requires
        text_at(part, "text"@) == Some(text),
    ensures
        array_at(body, "output"@) == Some(seq![item]) && array_at(item, "content"@) == Some(
            seq![part],
        ) ==> openai_text(body) == text,
        array_at(body, "content"@) == Some(seq![part]) && text_at(part, "type"@) == Some("text"@)
            ==> claude_text(body) == text,
{
    let none = Seq::<JsonModel>::empty();
    assert(seq![item].drop_last() =~= none);
    assert(seq![part].drop_last() =~= none);
    assert(part_texts(none) =~= Seq::<Seq<char>>::empty());
    assert(part_texts(seq![part]) =~= seq![text]);
    assert(openai_texts(none) =~= Seq::<Seq<char>>::empty());
    if array_at(item, "content"@) == Some(seq![part]) {
        assert(openai_texts(seq![item]) =~= seq![text]);
    }
    assert(of_type(none, "text"@) =~= none);
    if text_at(part, "type"@) == Some("text"@) {
        assert(of_type(seq![part], "text"@) =~= seq![part]);
    }
}

proof fn lemma_calls_each(provider: Provider, items: Seq<JsonModel>, title: Seq<char>, i: int)
    requires
        0 <= i < items.len(),
        provider_calls(provider, items, title) is Ok,
    ensures
        provider_calls(provider, items, title)->Ok_0.len() == items.len(),
        provider_call(provider, items[i], title) == Ok::<CallModel, Seq<char>>(
            provider_calls(provider, items, title)->Ok_0[i],
        ),
    decreases items.len(),
{
    let head = items.drop_last();
    if head.len() > 0 {
        if i < head.len() {
            lemma_calls_each(provider, head, title, i);
        } else {
            lemma_calls_each(provider, head, title, 0);
        }
    } else {
        assert(provider_calls(provider, head, title)->Ok_0.len() == 0);
    }
}

/// A reply asks for exactly the calls of its parts of that kind, in their order: each with the number,
/// the name and the arguments that the part gives.
pub proof fn law_calls_are_those_of_the_reply(
    body: JsonModel,
    items: Seq<JsonModel>,
    second: NameModel,
    i: int,
)
    ensures
        reply_in(Provider::Openai, body, second) matches Ok(reply) ==> array_at(body, "output"@)
            == Some(items) ==> {
            let calls = items.filter(
                |item: JsonModel| text_at(item, "type"@) == Some("function_call"@),
            );
            &&& reply.tool_calls.len() == calls.len()
            &&& 0 <= i < calls.len() ==> {
                &&& text_at(calls[i], "call_id"@) matches Some(id) ==> reply.tool_calls[i].id == id
                &&& text_at(calls[i], "name"@) == Some(reply.tool_calls[i].name)
                &&& text_at(calls[i], "arguments"@) matches Some(raw) && json_value(
                    raw,
                    JSON_DEPTH as nat,
                ) == Ok::<JsonModel, Seq<char>>(reply.tool_calls[i].arguments)
            }
        },
        reply_in(Provider::Claude, body, second) matches Ok(reply) ==> array_at(body, "content"@)
            == Some(items) ==> {
            let calls = items.filter(
                |item: JsonModel| text_at(item, "type"@) == Some("tool_use"@),
            );
            &&& reply.tool_calls.len() == calls.len()
            &&& 0 <= i < calls.len() ==> {
                &&& text_at(calls[i], "id"@) == Some(reply.tool_calls[i].id)
                &&& text_at(calls[i], "name"@) == Some(reply.tool_calls[i].name)
                &&& member_of(calls[i], "input"@) matches Some(value) ==> value
                    == reply.tool_calls[i].arguments
            }
        },
{
    lemma_of_type(items, "function_call"@);
    lemma_of_type(items, "tool_use"@);
    let openai = of_type(items, "function_call"@);
    let claude = of_type(items, "tool_use"@);
    let first = provider_title(Provider::Openai, second);
    let other = provider_title(Provider::Claude, second);
    if reply_in(Provider::Openai, body, second) is Ok && array_at(body, "output"@) == Some(items) {
        if openai.len() > 0 {
            lemma_calls_each(Provider::Openai, openai, first, 0);
            if 0 <= i < openai.len() {
                lemma_calls_each(Provider::Openai, openai, first, i);
            }
        }
    }
    if reply_in(Provider::Claude, body, second) is Ok && array_at(body, "content"@) == Some(items) {
        if claude.len() > 0 {
            lemma_calls_each(Provider::Claude, claude, other, 0);
            if 0 <= i < claude.len() {
                lemma_calls_each(Provider::Claude, claude, other, i);
            }
        }
    }
}

/// A reply counts the tokens of its usage, says its text, and says or asks for something: a reply that
/// does neither is refused.
pub proof fn law_reply_says_something(provider: Provider, body: JsonModel, second: NameModel)
    ensures
        reply_in(provider, body, second) matches Ok(reply) ==> {
            &&& reply.text == (if provider == Provider::Openai {
                openai_text(body)
            } else {
                claude_text(body)
            })
            &&& trim(reply.text).len() > 0 || reply.tool_calls.len() > 0
            &&& member_of(body, "usage"@) matches Some(usage) ==> {
                &&& u64_at(usage, "input_tokens"@) matches Some(n) ==> reply.input_tokens == n
                &&& u64_at(usage, "output_tokens"@) matches Some(n) ==> reply.output_tokens == n
            }
            &&& member_of(body, "usage"@) is None ==> reply.input_tokens == 0
                && reply.output_tokens == 0
        },
{
}

/// The models that are offered are those of the list that can be used for dialogues, and no others.
pub proof fn law_usable_models_are_listed(
    provider: Provider,
    items: Seq<JsonModel>,
    id: Seq<char>,
)
    ensures
        usable_ids(provider, items).contains(id) <==> trim(id).len() > 0 && is_usable_model(
            provider,
            id,
        ) && exists|i: int|
            0 <= i < items.len() && text_at(#[trigger] items[i], "id"@) == Some(id),
    decreases items.len(),
{
    if items.len() > 0 {
        let head = items.drop_last();
        let last = items.last();
        law_usable_models_are_listed(provider, head, id);
        let earlier = usable_ids(provider, head);
        let all = usable_ids(provider, items);
        assert(items[items.len() - 1] == last);
        if exists|i: int| 0 <= i < head.len() && text_at(#[trigger] head[i], "id"@) == Some(id) {
            let i = choose|i: int|
                0 <= i < head.len() && text_at(#[trigger] head[i], "id"@) == Some(id);
            assert(text_at(items[i], "id"@) == Some(id));
        }
        if exists|i: int| 0 <= i < items.len() && text_at(#[trigger] items[i], "id"@) == Some(id) {
            let i = choose|i: int|
                0 <= i < items.len() && text_at(#[trigger] items[i], "id"@) == Some(id);
            if i < head.len() {
                assert(text_at(head[i], "id"@) == Some(id));
            }
        }
        if earlier.contains(id) {
            let k = choose|k: int| 0 <= k < earlier.len() && earlier[k] == id;
            assert(all[k] == id);
        }
        if usable_id(provider, last) == Some(id) {
            assert(all[earlier.len() as int] == id);
        }
        if all.contains(id) {
            let k = choose|k: int| 0 <= k < all.len() && all[k] == id;
            if k < earlier.len() {
                assert(earlier[k] == id);
            } else {
                assert(text_at(items[items.len() - 1], "id"@) == Some(id));
            }
        }
    }
}

/// An error of a provider is told in its own words.
pub proof fn law_error_is_told_in_its_words(message: Seq<char>)
    ensures
        error_message(
            JsonModel::Object(
                seq![
                    field(
                        "error"@,
                        JsonModel::Object(seq![field("message"@, JsonModel::Text(message))]),
                    ),
                ],
            ),
        ) == message,
{
    let inner = seq![field("message"@, JsonModel::Text(message))];
    let outer = seq![field("error"@, JsonModel::Object(inner))];
    assert(inner[0].key == "message"@ && outer[0].key == "error"@);
    law_member_is_found(inner, 0);
    law_member_is_found(outer, 0);
}

/// The hottest answers that a model allows: the first models of the fifth generation, and all of the
/// second provider, allow less than the others.
pub proof fn law_greatest_temperature_depends_on_the_model(rest: Seq<char>, model: Seq<char>)
    ensures
        greatest_temperature(Provider::Claude, model) == 1,
        greatest_temperature(Provider::Openai, "gpt-5-"@ + rest) == 1,
        greatest_temperature(Provider::Openai, "gpt-4"@ + rest) == 2,
        greatest_temperature(Provider::Openai, "gpt-5."@ + rest) == 2,
{
    reveal_strlit("gpt-5");
    reveal_strlit("gpt-5-");
    reveal_strlit("gpt-5.");
    reveal_strlit("gpt-4");
    let first = "gpt-5-"@ + rest;
    assert(first.subrange(0, 6) =~= "gpt-5-"@);
    let fourth = "gpt-4"@ + rest;
    assert(fourth[4] == '4');
    assert("gpt-5"@[4] == '5');
    if "gpt-5-"@.is_prefix_of(fourth) {
        assert(fourth.subrange(0, 6)[4] == '5');
    }
    let later = "gpt-5."@ + rest;
    assert(later[5] == '.');
    if "gpt-5-"@.is_prefix_of(later) {
        assert(later.subrange(0, 6)[5] == '-');
    }
}

/// Models that think only when they are told to are told not to, since a temperature is set; no other
/// model is told about thinking.
pub proof fn law_thinking_is_switched_off(
    settings: SettingsModel,
    history: Seq<MessageModel>,
    options: OptionsModel,
)
    ensures
        takes_temperature_without_reasoning(settings.model) ==> (member_of(
            openai_payload(settings, history, options),
            "reasoning"@,
        ) matches Some(told) && text_at(told, "effort"@) == Some("none"@)),
        !takes_temperature_without_reasoning(settings.model) ==> member_of(
            openai_payload(settings, history, options),
            "reasoning"@,
        ) is None,
        member_of(claude_payload(settings, history, options), "max_tokens"@) == Some(
            JsonModel::Number("4096"@),
        ),
{
    lemma_keys_differ();
    let all = openai_payload(settings, history, options)->Object_0;
    let i = instructions_member("instructions"@, settings).len() as int;
    let effort = seq![field("effort"@, JsonModel::Text("none"@))];
    assert(effort[0].key == "effort"@);
    law_member_is_found(effort, 0);
    assert(all[0].key == "input"@);
    assert(i == 1 ==> all[1].key == "instructions"@);
    assert(all[1 + i].key == "model"@);
    if takes_temperature_without_reasoning(settings.model) {
        assert(all[2 + i] == field("reasoning"@, JsonModel::Object(effort)));
        law_member_is_found(all, 2 + i);
    } else {
        assert(all[2 + i].key == "temperature"@);
        assert(options.tools.len() > 0 ==> all[3 + i].key == "tools"@);
        assert forall|k: int| 0 <= k < all.len() implies (#[trigger] all[k]).key
            != "reasoning"@ by {
            assert(k == 0 || i == 1 && k == 1 || k == 1 + i || k == 2 + i || k == 3 + i);
        }
        law_missing_member_is_not_found(all, "reasoning"@);
    }
    let other = claude_payload(settings, history, options)->Object_0;
    assert(other[0].key == "max_tokens"@);
    law_member_is_found(other, 0);
}

} // verus!
