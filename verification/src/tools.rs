//! Tools that the model can call, and plans that call several of them in turn.

use vstd::prelude::*;

use crate::config::agrees_check;
use crate::json::{
    array_at, array_of, field, is_object, json_str, json_text, law_member_is_found,
    lemma_array_view, lemma_object_view, member_of, object1, object2, object3, object4, object_of,
    text_at, write_json, Json, JsonModel, Member, MemberModel,
};
use crate::numbers::{decimal, size_text};
use crate::text::{
    agrees, before_suffix, chars_of, find_chars, find_part, holds_text, index_of_char, is_blank,
    lemma_find_part, lemma_index_of_char, lemma_views_push, occurs_at, same, split_chars, split_on,
    starts_with_text, text_of, trim, view_option, views, without_suffix,
};

verus! {

broadcast use lemma_views_push;

/// The name of the tool that runs a plan.
pub const PIPELINE_TOOL_NAME: &'static str = "fox_execute_pipeline";

/// The greatest number of steps of a plan.
pub const MAX_PIPELINE_STEPS: usize = 8;

/// How many milliseconds a tool is waited for, unless it is known to be slow.
pub const DEFAULT_TOOL_TIMEOUT_MS: u64 = 15_000;

/// How many milliseconds the activity of a project is waited for.
pub const GITHUB_ACTIVITY_TIMEOUT_MS: u64 = 120_000;

/// How many milliseconds a tool is waited for.
pub fn mcp_tool_timeout(tool_name: &str, default_ms: u64) -> (r: u64)
    ensures
        r == if tool_name@ == "github_project_activity"@ && default_ms
            < GITHUB_ACTIVITY_TIMEOUT_MS {
            GITHUB_ACTIVITY_TIMEOUT_MS
        } else {
            default_ms
        },
{
    if same(tool_name, "github_project_activity") && default_ms < GITHUB_ACTIVITY_TIMEOUT_MS {
        GITHUB_ACTIVITY_TIMEOUT_MS
    } else {
        default_ms
    }
}

// Tools, calls and results.

/// What is known of a tool.
#[derive(Debug, PartialEq, Eq)]
pub struct ToolDefinition {
    pub name: String,
    pub description: Option<String>,
    pub input_schema: Json,
    pub read_only: bool,
    pub destructive: bool,
}

/// What is known of a tool, mathematically.
pub ghost struct DefinitionModel {
    pub name: Seq<char>,
    pub description: Option<Seq<char>>,
    pub input_schema: JsonModel,
    pub read_only: bool,
    pub destructive: bool,
}

impl View for ToolDefinition {
    type V = DefinitionModel;

    open spec fn view(&self) -> DefinitionModel {
        DefinitionModel {
            name: self.name@,
            description: view_option(self.description),
            input_schema: self.input_schema@,
            read_only: self.read_only,
            destructive: self.destructive,
        }
    }
}

impl ToolDefinition {
    /// A copy.
    pub fn copy(&self) -> (r: ToolDefinition)
        ensures
            r@ == self@,
    {
        let description = match &self.description {
            Some(text) => Some(text.clone()),
            None => None,
        };
        ToolDefinition {
            name: self.name.clone(),
            description,
            input_schema: self.input_schema.copy(),
            read_only: self.read_only,
            destructive: self.destructive,
        }
    }
}

/// A call of a tool.
#[derive(Debug, PartialEq, Eq)]
pub struct ToolCall {
    pub id: String,
    pub name: String,
    pub arguments: Json,
}

/// A call of a tool, mathematically.
pub ghost struct CallModel {
    pub id: Seq<char>,
    pub name: Seq<char>,
    pub arguments: JsonModel,
}

impl View for ToolCall {
    type V = CallModel;

    open spec fn view(&self) -> CallModel {
        CallModel { id: self.id@, name: self.name@, arguments: self.arguments@ }
    }
}

/// How a call went.
#[derive(Debug, Clone, Copy, PartialEq, Eq, Structural)]
pub enum ToolOutcome {
    Success,
    Failed,
    Unknown,
}

/// The name of an outcome.
pub open spec fn outcome_name(outcome: ToolOutcome) -> Seq<char> {
    match outcome {
        ToolOutcome::Success => "success"@,
        ToolOutcome::Failed => "failed"@,
        ToolOutcome::Unknown => "unknown"@,
    }
}

impl ToolOutcome {
    /// The name of the outcome.
    pub fn name(self) -> (r: &'static str)
        ensures
            r@ == outcome_name(self),
    {
        match self {
            ToolOutcome::Success => "success",
            ToolOutcome::Failed => "failed",
            ToolOutcome::Unknown => "unknown",
        }
    }
}

/// The result of a call.
#[derive(Debug, PartialEq, Eq)]
pub struct ToolResult {
    pub call_id: String,
    pub content: Json,
    pub is_error: bool,
    pub outcome: ToolOutcome,
}

/// The result of a call, mathematically.
pub ghost struct ToolResultModel {
    pub call_id: Seq<char>,
    pub content: JsonModel,
    pub is_error: bool,
    pub outcome: ToolOutcome,
}

impl View for ToolResult {
    type V = ToolResultModel;

    open spec fn view(&self) -> ToolResultModel {
        ToolResultModel {
            call_id: self.call_id@,
            content: self.content@,
            is_error: self.is_error,
            outcome: self.outcome,
        }
    }
}

/// The outcome that a reply of a server declares: an error or a declared failure is one.
pub open spec fn declared_outcome(content: JsonModel, is_error: bool) -> ToolOutcome {
    if is_error || text_at(content, "outcome"@) == Some("failed"@) {
        ToolOutcome::Failed
    } else if text_at(content, "outcome"@) == Some("unknown"@) {
        ToolOutcome::Unknown
    } else {
        ToolOutcome::Success
    }
}

/// The result that a reply of a server is.
pub fn tool_reply(call_id: &str, content: Json, is_error: bool) -> (r: ToolResult)
    ensures
        r@ == (ToolResultModel {
            call_id: call_id@,
            content: content@,
            is_error: declared_outcome(content@, is_error) != ToolOutcome::Success,
            outcome: declared_outcome(content@, is_error),
        }),
{
    let mut failed = is_error;
    let mut unknown = false;
    if let Some(text) = content.get_text("outcome") {
        failed = failed || same(text.as_str(), "failed");
        unknown = same(text.as_str(), "unknown");
    }
    let outcome = if failed {
        ToolOutcome::Failed
    } else if unknown {
        ToolOutcome::Unknown
    } else {
        ToolOutcome::Success
    };
    ToolResult {
        call_id: call_id.to_owned(),
        content,
        is_error: outcome != ToolOutcome::Success,
        outcome,
    }
}

/// The result of a call that failed with a message.
pub open spec fn failed_result(call_id: Seq<char>, message: Seq<char>) -> ToolResultModel {
    ToolResultModel {
        call_id,
        content: JsonModel::Object(seq![field("error"@, JsonModel::Text(message))]),
        is_error: true,
        outcome: ToolOutcome::Failed,
    }
}

/// The result of a call that failed with a message.
pub fn tool_failure(call_id: &str, message: &str) -> (r: ToolResult)
    ensures
        r@ == failed_result(call_id@, message@),
{
    ToolResult {
        call_id: call_id.to_owned(),
        content: object1("error", json_str(message)),
        is_error: true,
        outcome: ToolOutcome::Failed,
    }
}

// Plans.

/// One step of a plan.
#[derive(Debug, PartialEq, Eq)]
pub struct PipelineStep {
    pub id: String,
    pub tool: String,
    pub arguments: Json,
    pub capture_output: bool,
}

/// One step of a plan, mathematically.
pub ghost struct StepModel {
    pub id: Seq<char>,
    pub tool: Seq<char>,
    pub arguments: JsonModel,
    pub capture_output: bool,
}

impl View for PipelineStep {
    type V = StepModel;

    open spec fn view(&self) -> StepModel {
        StepModel {
            id: self.id@,
            tool: self.tool@,
            arguments: self.arguments@,
            capture_output: self.capture_output,
        }
    }
}

/// A plan of calls that are made in turn.
#[derive(Debug, PartialEq, Eq)]
pub struct PipelinePlan {
    pub name: String,
    pub steps: Vec<PipelineStep>,
}

/// A plan, mathematically.
pub ghost struct PlanModel {
    pub name: Seq<char>,
    pub steps: Seq<StepModel>,
}

impl View for PipelinePlan {
    type V = PlanModel;

    open spec fn view(&self) -> PlanModel {
        PlanModel { name: self.name@, steps: views(self.steps@) }
    }
}

/// The schema of a text that is not empty.
pub open spec fn text_schema() -> JsonModel {
    JsonModel::Object(
        seq![
            field("minLength"@, JsonModel::Number("1"@)),
            field("type"@, JsonModel::Text("string"@)),
        ],
    )
}

/// The schema of a step.
pub open spec fn step_schema() -> JsonModel {
    JsonModel::Object(
        seq![
            field("additionalProperties"@, JsonModel::Bool(false)),
            field(
                "properties"@,
                JsonModel::Object(
                    seq![
                        field(
                            "arguments"@,
                            JsonModel::Object(seq![field("type"@, JsonModel::Text("object"@))]),
                        ),
                        field("id"@, text_schema()),
                        field("tool"@, text_schema()),
                    ],
                ),
            ),
            field(
                "required"@,
                JsonModel::Array(
                    seq![
                        JsonModel::Text("id"@),
                        JsonModel::Text("tool"@),
                        JsonModel::Text("arguments"@),
                    ],
                ),
            ),
            field("type"@, JsonModel::Text("object"@)),
        ],
    )
}

/// The schema of a plan.
pub open spec fn plan_schema() -> JsonModel {
    JsonModel::Object(
        seq![
            field("additionalProperties"@, JsonModel::Bool(false)),
            field(
                "properties"@,
                JsonModel::Object(
                    seq![
                        field("name"@, text_schema()),
                        field(
                            "steps"@,
                            JsonModel::Object(
                                seq![
                                    field("items"@, step_schema()),
                                    field(
                                        "maxItems"@,
                                        JsonModel::Number(decimal(MAX_PIPELINE_STEPS as nat)),
                                    ),
                                    field("minItems"@, JsonModel::Number("1"@)),
                                    field("type"@, JsonModel::Text("array"@)),
                                ],
                            ),
                        ),
                    ],
                ),
            ),
            field(
                "required"@,
                JsonModel::Array(seq![JsonModel::Text("name"@), JsonModel::Text("steps"@)]),
            ),
            field("type"@, JsonModel::Text("object"@)),
        ],
    )
}

fn make_text_schema() -> (r: Json)
    ensures
        r@ == text_schema(),
{
    object2("minLength", Json::Number("1".to_owned()), "type", json_str("string"))
}

fn make_step_schema() -> (r: Json)
    ensures
        r@ == step_schema(),
{
    let mut required: Vec<Json> = Vec::new();
    required.push(json_str("id"));
    required.push(json_str("tool"));
    required.push(json_str("arguments"));
    proof {
        assert(views(required@) =~= seq![
            JsonModel::Text("id"@),
            JsonModel::Text("tool"@),
            JsonModel::Text("arguments"@),
        ]);
    }
    let properties = object3(
        "arguments",
        object1("type", json_str("object")),
        "id",
        make_text_schema(),
        "tool",
        make_text_schema(),
    );
    object4(
        "additionalProperties",
        Json::Bool(false),
        "properties",
        properties,
        "required",
        array_of(required),
        "type",
        json_str("object"),
    )
}

/// The definition of the tool that runs a plan.
pub fn pipeline_tool_definition() -> (r: ToolDefinition)
    ensures
        r@ == (DefinitionModel {
            name: PIPELINE_TOOL_NAME@,
            description: Some(
                "Выполняет последовательный пайплайн из разрешённых MCP-инструментов; результаты предыдущих шагов доступны как {\"$ref\":\"step_id.output\"}"@,
            ),
            input_schema: plan_schema(),
            read_only: false,
            destructive: false,
        }),
{
    let steps = object4(
        "items",
        make_step_schema(),
        "maxItems",
        Json::Number(size_text(MAX_PIPELINE_STEPS)),
        "minItems",
        Json::Number("1".to_owned()),
        "type",
        json_str("array"),
    );
    let mut required: Vec<Json> = Vec::new();
    required.push(json_str("name"));
    required.push(json_str("steps"));
    proof {
        assert(views(required@) =~= seq![JsonModel::Text("name"@), JsonModel::Text("steps"@)]);
    }
    let input_schema = object4(
        "additionalProperties",
        Json::Bool(false),
        "properties",
        object2("name", make_text_schema(), "steps", steps),
        "required",
        array_of(required),
        "type",
        json_str("object"),
    );
    ToolDefinition {
        name: PIPELINE_TOOL_NAME.to_owned(),
        description: Some(
            "Выполняет последовательный пайплайн из разрешённых MCP-инструментов; результаты предыдущих шагов доступны как {\"$ref\":\"step_id.output\"}".to_owned(),
        ),
        input_schema,
        read_only: false,
        destructive: false,
    }
}

// Reading plans.

/// Whether all members of an object have one of these keys.
pub open spec fn only_keys(members: Seq<MemberModel>, keys: Seq<Seq<char>>) -> bool {
    forall|i: int| 0 <= i < members.len() ==> keys.contains((#[trigger] members[i]).key)
}

/// The optional flag of a step.
pub open spec fn flag_of(value: Option<JsonModel>) -> Option<bool> {
    match value {
        None => Some(false),
        Some(JsonModel::Bool(b)) => Some(b),
        Some(_) => None,
    }
}

/// The step of its fields, if they have the right types.
pub open spec fn step_of_fields(
    id: Option<JsonModel>,
    tool: Option<JsonModel>,
    arguments: Option<JsonModel>,
    capture: Option<JsonModel>,
) -> Option<StepModel> {
    match (id, tool, arguments, flag_of(capture)) {
        (
            Some(JsonModel::Text(id)),
            Some(JsonModel::Text(tool)),
            Some(arguments),
            Some(capture_output),
        ) => Some(StepModel { id, tool, arguments, capture_output }),
        _ => None,
    }
}

/// An element of a list, if there is one.
pub open spec fn item_at(items: Seq<JsonModel>, i: int) -> Option<JsonModel> {
    if i < items.len() {
        Some(items[i])
    } else {
        None
    }
}

/// The step that a value stands for: an object with these fields and no others, or a list of them.
pub open spec fn step_in(value: JsonModel) -> Option<StepModel> {
    match value {
        JsonModel::Object(members) => if only_keys(
            members,
            seq!["id"@, "tool"@, "arguments"@, "capture_output"@],
        ) {
            step_of_fields(
                member_of(value, "id"@),
                member_of(value, "tool"@),
                member_of(value, "arguments"@),
                member_of(value, "capture_output"@),
            )
        } else {
            None
        },
        JsonModel::Array(items) => if items.len() <= 4 {
            step_of_fields(item_at(items, 0), item_at(items, 1), item_at(items, 2), item_at(items, 3))
        } else {
            None
        },
        _ => None,
    }
}

/// The steps that values stand for.
pub open spec fn steps_in(items: Seq<JsonModel>) -> Option<Seq<StepModel>>
    decreases items.len(),
{
    if items.len() == 0 {
        Some(Seq::empty())
    } else {
        match (steps_in(items.drop_last()), step_in(items.last())) {
            (Some(head), Some(step)) => Some(head.push(step)),
            _ => None,
        }
    }
}

/// The plan of its fields, if they have the right types.
pub open spec fn plan_of_fields(name: Option<JsonModel>, steps: Option<JsonModel>) -> Option<
    PlanModel,
> {
    match (name, steps) {
        (Some(JsonModel::Text(name)), Some(JsonModel::Array(items))) => match steps_in(items) {
            Some(steps) => Some(PlanModel { name, steps }),
            None => None,
        },
        _ => None,
    }
}

/// The plan that a value stands for.
pub open spec fn plan_in(value: JsonModel) -> Option<PlanModel> {
    match value {
        JsonModel::Object(members) => if only_keys(members, seq!["name"@, "steps"@]) {
            plan_of_fields(member_of(value, "name"@), member_of(value, "steps"@))
        } else {
            None
        },
        JsonModel::Array(items) => if items.len() <= 2 {
            plan_of_fields(item_at(items, 0), item_at(items, 1))
        } else {
            None
        },
        _ => None,
    }
}

pub(crate) fn has_only_keys(members: &Vec<Member>, keys: &Vec<String>) -> (r: bool)
    ensures
        r == only_keys(views(members@), views(keys@)),
{
    let ghost model = views(members@);
    let mut i: usize = 0;
    while i < members.len()
        invariant
            i <= members@.len(),
            model == views(members@),
            forall|k: int| 0 <= k < i ==> views(keys@).contains((#[trigger] model[k]).key),
        decreases members.len() - i,
    {
        if !holds_text(keys.as_slice(), members[i].key.as_str()) {
            proof {
                assert(model[i as int].key == members@[i as int].key@);
            }
            return false;
        }
        i += 1;
    }
    true
}

fn make_step(
    id: Option<&Json>,
    tool: Option<&Json>,
    arguments: Option<&Json>,
    capture: Option<&Json>,
) -> (r: Option<PipelineStep>)
    ensures
        view_option(r) == step_of_fields(
            json_option(id),
            json_option(tool),
            json_option(arguments),
            json_option(capture),
        ),
{
    let capture_output = match capture {
        None => false,
        Some(Json::Bool(b)) => *b,
        Some(_) => return None,
    };
    match (id, tool, arguments) {
        (Some(Json::Text(id)), Some(Json::Text(tool)), Some(arguments)) => Some(
            PipelineStep {
                id: id.clone(),
                tool: tool.clone(),
                arguments: arguments.copy(),
                capture_output,
            },
        ),
        _ => None,
    }
}

/// The view of an optional value.
pub open spec fn json_option(value: Option<&Json>) -> Option<JsonModel> {
    match value {
        Some(value) => Some(value@),
        None => None,
    }
}

pub(crate) fn item_of(items: &Vec<Json>, i: usize) -> (r: Option<&Json>)
    ensures
        json_option(r) == item_at(views(items@), i as int),
{
    if i < items.len() {
        proof {
            assert(views(items@)[i as int] == items@[i as int]@);
        }
        Some(&items[i])
    } else {
        None
    }
}

fn read_step(value: &Json) -> (r: Option<PipelineStep>)
    ensures
        view_option(r) == step_in(value@),
{
    match value {
        Json::Object(members) => {
            let mut keys: Vec<String> = Vec::new();
            keys.push("id".to_owned());
            keys.push("tool".to_owned());
            keys.push("arguments".to_owned());
            keys.push("capture_output".to_owned());
            proof {
                lemma_object_view(*members);
                assert(views(keys@) =~= seq!["id"@, "tool"@, "arguments"@, "capture_output"@]);
            }
            if !has_only_keys(members, &keys) {
                return None;
            }
            make_step(
                value.get("id"),
                value.get("tool"),
                value.get("arguments"),
                value.get("capture_output"),
            )
        },
        Json::Array(items) => {
            proof {
                lemma_array_view(*items);
            }
            if items.len() > 4 {
                return None;
            }
            make_step(item_of(items, 0), item_of(items, 1), item_of(items, 2), item_of(items, 3))
        },
        _ => None,
    }
}

proof fn lemma_steps_none(items: Seq<JsonModel>, n: int)
    requires
        0 <= n <= items.len(),
        steps_in(items.take(n)) is None,
    ensures
        steps_in(items) is None,
    decreases items.len(),
{
    if n == items.len() {
        assert(items.take(n) =~= items);
    } else {
        assert(items.drop_last().take(n) =~= items.take(n));
        lemma_steps_none(items.drop_last(), n);
    }
}

fn make_plan(name: Option<&Json>, steps: Option<&Json>) -> (r: Option<PipelinePlan>)
    ensures
        view_option(r) == plan_of_fields(json_option(name), json_option(steps)),
{
    match (name, steps) {
        (Some(Json::Text(name)), Some(Json::Array(items))) => {
            proof {
                lemma_array_view(*items);
            }
            let ghost model = views(items@);
            let mut out: Vec<PipelineStep> = Vec::new();
            let mut i: usize = 0;
            proof {
                assert(model.take(0).len() == 0);
                assert(views(out@) =~= Seq::<StepModel>::empty());
            }
            while i < items.len()
                invariant
                    i <= items@.len(),
                    model == views(items@),
                    json_option(steps) == Some(JsonModel::Array(model)),
                    steps_in(model.take(i as int)) == Some(views(out@)),
                decreases items.len() - i,
            {
                proof {
                    assert(model.take(i + 1).drop_last() =~= model.take(i as int));
                    assert(model.take(i + 1).last() == items@[i as int]@);
                }
                match read_step(&items[i]) {
                    Some(step) => out.push(step),
                    None => {
                        proof {
                            lemma_steps_none(model, i + 1);
                        }
                        return None;
                    },
                }
                i += 1;
            }
            proof {
                assert(model.take(i as int) =~= model);
            }
            Some(PipelinePlan { name: name.clone(), steps: out })
        },
        _ => None,
    }
}

/// Reads a plan.
pub fn parse_pipeline_plan(value: &Json) -> (r: Result<PipelinePlan, String>)
    ensures
        match (r, plan_in(value@)) {
            (Ok(plan), Some(model)) => plan@ == model,
            (Err(message), None) => message@ == "неверный формат MCP-пайплайна"@,
            _ => false,
        },
{
    let plan = match value {
        Json::Object(members) => {
            let mut keys: Vec<String> = Vec::new();
            keys.push("name".to_owned());
            keys.push("steps".to_owned());
            proof {
                lemma_object_view(*members);
                assert(views(keys@) =~= seq!["name"@, "steps"@]);
            }
            if has_only_keys(members, &keys) {
                make_plan(value.get("name"), value.get("steps"))
            } else {
                None
            }
        },
        Json::Array(items) => {
            proof {
                lemma_array_view(*items);
            }
            if items.len() <= 2 {
                make_plan(item_of(items, 0), item_of(items, 1))
            } else {
                None
            }
        },
        _ => None,
    };
    match plan {
        Some(plan) => Ok(plan),
        None => Err("неверный формат MCP-пайплайна".to_owned()),
    }
}

// References.

/// What a reference names: the result of a step, or a value of the run; or nothing.
pub ghost enum Reference {
    Output(Seq<char>, Seq<Seq<char>>),
    Run(Seq<Seq<char>>),
    Malformed,
}

/// What the text of a reference names.
pub open spec fn reference_in(text: Seq<char>) -> Reference {
    match before_suffix(text, ".output"@) {
        Some(source) => Reference::Output(source, Seq::empty()),
        None => match find_part(text, ".output."@, 0) {
            Some(at) => Reference::Output(
                text.take(at),
                split_on(text.skip(at + ".output."@.len()), '.'),
            ),
            None => if "run."@.is_prefix_of(text) {
                Reference::Run(split_on(text.skip("run."@.len() as int), '.'))
            } else {
                Reference::Malformed
            },
        },
    }
}

/// The value at a path of keys.
pub open spec fn value_at(value: JsonModel, path: Seq<Seq<char>>) -> Option<JsonModel>
    decreases path.len(),
{
    if path.len() == 0 {
        Some(value)
    } else {
        match member_of(value, path[0]) {
            Some(inner) => value_at(inner, path.skip(1)),
            None => None,
        }
    }
}

enum ParsedReference {
    Output(String, Vec<String>),
    Run(Vec<String>),
    Malformed,
}

impl View for ParsedReference {
    type V = Reference;

    closed spec fn view(&self) -> Reference {
        match self {
            ParsedReference::Output(source, path) => Reference::Output(source@, views(path@)),
            ParsedReference::Run(path) => Reference::Run(views(path@)),
            ParsedReference::Malformed => Reference::Malformed,
        }
    }
}

fn parse_reference(text: &str) -> (r: ParsedReference)
    ensures
        r@ == reference_in(text@),
{
    if let Some(source) = without_suffix(text, ".output") {
        let path: Vec<String> = Vec::new();
        proof {
            assert(views(path@) =~= Seq::<Seq<char>>::empty());
        }
        return ParsedReference::Output(source, path);
    }
    let chars = chars_of(text);
    let total: usize = chars.len();
    let mark = chars_of(".output.");
    match find_chars(chars.as_slice(), mark.as_slice(), 0) {
        Some(at) => {
            proof {
                lemma_find_part(text@, ".output."@, 0);
            }
            let source = text_of(chars.as_slice(), 0, at);
            let rest = text_of(chars.as_slice(), at + mark.len(), total);
            proof {
                assert(source@ =~= text@.take(at as int));
                assert(rest@ =~= text@.skip(at + ".output."@.len()));
            }
            ParsedReference::Output(source, split_chars(rest.as_str(), '.'))
        },
        None => {
            if starts_with_text(text, "run.") {
                let start = chars_of("run.");
                let rest = text_of(chars.as_slice(), start.len(), total);
                proof {
                    assert(rest@ =~= text@.skip("run."@.len() as int));
                }
                ParsedReference::Run(split_chars(rest.as_str(), '.'))
            } else {
                ParsedReference::Malformed
            }
        },
    }
}

/// What is wrong with a reference in the arguments of a step.
pub open spec fn one_reference_error(
    members: Seq<MemberModel>,
    reference: JsonModel,
    previous: Seq<Seq<char>>,
    step_id: Seq<char>,
) -> Option<Seq<char>> {
    if members.len() != 1 {
        Some("$ref шага «"@ + step_id + "» должен быть единственным полем объекта"@)
    } else {
        match reference {
            JsonModel::Text(text) => match reference_in(text) {
                Reference::Output(source, _) => if previous.contains(source) {
                    None
                } else {
                    Some("$ref шага «"@ + step_id + "» указывает не на предыдущий шаг: "@ + text)
                },
                Reference::Run(_) => None,
                Reference::Malformed => Some(
                    "$ref шага «"@ + step_id + "» должен иметь вид <step-id>.output"@,
                ),
            },
            _ => Some("$ref шага «"@ + step_id + "» должен быть строкой"@),
        }
    }
}

/// What is wrong with the first bad reference in the arguments of a step.
pub open spec fn reference_error(
    value: JsonModel,
    previous: Seq<Seq<char>>,
    step_id: Seq<char>,
) -> Option<Seq<char>>
    decreases value,
{
    match value {
        JsonModel::Array(items) => items_error(items, previous, step_id),
        JsonModel::Object(members) => match member_of(value, "$ref"@) {
            Some(reference) => one_reference_error(members, reference, previous, step_id),
            None => members_error(members, previous, step_id),
        },
        _ => None,
    }
}

/// What is wrong with the first bad reference in the elements of an array.
pub open spec fn items_error(
    items: Seq<JsonModel>,
    previous: Seq<Seq<char>>,
    step_id: Seq<char>,
) -> Option<Seq<char>>
    decreases items,
{
    if items.len() == 0 {
        None
    } else {
        match items_error(items.drop_last(), previous, step_id) {
            Some(message) => Some(message),
            None => reference_error(items.last(), previous, step_id),
        }
    }
}

/// What is wrong with the first bad reference in the members of an object.
pub open spec fn members_error(
    members: Seq<MemberModel>,
    previous: Seq<Seq<char>>,
    step_id: Seq<char>,
) -> Option<Seq<char>>
    decreases members,
{
    if members.len() == 0 {
        None
    } else {
        match members_error(members.drop_last(), previous, step_id) {
            Some(message) => Some(message),
            None => reference_error(members.last().value, previous, step_id),
        }
    }
}

proof fn lemma_items_error(
    items: Seq<JsonModel>,
    previous: Seq<Seq<char>>,
    step_id: Seq<char>,
    n: int,
)
    requires
        0 <= n <= items.len(),
        items_error(items.take(n), previous, step_id) is Some,
    ensures
        items_error(items, previous, step_id) == items_error(items.take(n), previous, step_id),
    decreases items.len(),
{
    if n == items.len() {
        assert(items.take(n) =~= items);
    } else {
        assert(items.drop_last().take(n) =~= items.take(n));
        lemma_items_error(items.drop_last(), previous, step_id, n);
    }
}

proof fn lemma_members_error(
    members: Seq<MemberModel>,
    previous: Seq<Seq<char>>,
    step_id: Seq<char>,
    n: int,
)
    requires
        0 <= n <= members.len(),
        members_error(members.take(n), previous, step_id) is Some,
    ensures
        members_error(members, previous, step_id) == members_error(
            members.take(n),
            previous,
            step_id,
        ),
    decreases members.len(),
{
    if n == members.len() {
        assert(members.take(n) =~= members);
    } else {
        assert(members.drop_last().take(n) =~= members.take(n));
        lemma_members_error(members.drop_last(), previous, step_id, n);
    }
}

fn check_reference(
    count: usize,
    reference: &Json,
    previous: &Vec<String>,
    step_id: &str,
    Ghost(members): Ghost<Seq<MemberModel>>,
) -> (r: Result<(), String>)
    requires
        count == members.len(),
    ensures
        agrees_check(
            r,
            one_reference_error(members, reference@, views(previous@), step_id@),
        ),
{
    let head = "$ref шага «".to_owned().concat(step_id);
    if count != 1 {
        return Err(head.concat("» должен быть единственным полем объекта"));
    }
    match reference {
        Json::Text(text) => match parse_reference(text.as_str()) {
            ParsedReference::Output(source, _) => if holds_text(
                previous.as_slice(),
                source.as_str(),
            ) {
                Ok(())
            } else {
                Err(head.concat("» указывает не на предыдущий шаг: ").concat(text.as_str()))
            },
            ParsedReference::Run(_) => Ok(()),
            ParsedReference::Malformed => Err(
                head.concat("» должен иметь вид <step-id>.output"),
            ),
        },
        _ => Err(head.concat("» должен быть строкой")),
    }
}

/// Checks that the references in the arguments of a step name steps before it, or the run.
pub fn validate_references(value: &Json, previous: &Vec<String>, step_id: &str) -> (r: Result<
    (),
    String,
>)
    ensures
        agrees_check(r, reference_error(value@, views(previous@), step_id@)),
    decreases value,
{
    match value {
        Json::Array(items) => {
            let ghost model = views(items@);
            proof {
                lemma_array_view(*items);
                assert(model.take(0).len() == 0);
            }
            let mut i: usize = 0;
            while i < items.len()
                invariant
                    i <= items@.len(),
                    value == Json::Array(*items),
                    value@ == JsonModel::Array(model),
                    model == views(items@),
                    items_error(model.take(i as int), views(previous@), step_id@) is None,
                decreases items.len() - i,
            {
                proof {
                    assert(decreases_to!(value => value->Array_0));
                    assert(decreases_to!(value->Array_0 => items@));
                    assert(decreases_to!(items@ => items@[i as int]));
                    assert(model.take(i + 1).drop_last() =~= model.take(i as int));
                    assert(model.take(i + 1).last() == items@[i as int]@);
                }
                if let Err(message) = validate_references(&items[i], previous, step_id) {
                    proof {
                        lemma_items_error(model, views(previous@), step_id@, i + 1);
                    }
                    return Err(message);
                }
                i += 1;
            }
            proof {
                assert(model.take(i as int) =~= model);
            }
            Ok(())
        },
        Json::Object(members) => {
            let ghost model = views(members@);
            proof {
                lemma_object_view(*members);
                assert(model.take(0).len() == 0);
            }
            if let Some(reference) = value.get("$ref") {
                return check_reference(
                    members.len(),
                    reference,
                    previous,
                    step_id,
                    Ghost(model),
                );
            }
            let mut i: usize = 0;
            while i < members.len()
                invariant
                    i <= members@.len(),
                    value == Json::Object(*members),
                    value@ == JsonModel::Object(model),
                    member_of(value@, "$ref"@) is None,
                    model == views(members@),
                    members_error(model.take(i as int), views(previous@), step_id@) is None,
                decreases members.len() - i,
            {
                proof {
                    assert(decreases_to!(value => value->Object_0));
                    assert(decreases_to!(value->Object_0 => members@));
                    assert(decreases_to!(members@ => members@[i as int]));
                    assert(decreases_to!(members@[i as int] => members@[i as int].value));
                    assert(model.take(i + 1).drop_last() =~= model.take(i as int));
                    assert(model.take(i + 1).last() == members@[i as int]@);
                }
                if let Err(message) = validate_references(&members[i].value, previous, step_id) {
                    proof {
                        lemma_members_error(model, views(previous@), step_id@, i + 1);
                    }
                    return Err(message);
                }
                i += 1;
            }
            proof {
                assert(model.take(i as int) =~= model);
            }
            Ok(())
        },
        _ => Ok(()),
    }
}

// Checking plans.

/// Whether there is a tool with a name.
pub open spec fn has_tool(definitions: Seq<DefinitionModel>, name: Seq<char>) -> bool {
    exists|i: int| 0 <= i < definitions.len() && (#[trigger] definitions[i]).name == name
}

/// The numbers of the steps.
pub open spec fn step_ids(steps: Seq<StepModel>) -> Seq<Seq<char>> {
    Seq::new(steps.len(), |i: int| steps[i].id)
}

/// What is wrong with a step after others.
pub open spec fn step_error(
    step: StepModel,
    previous: Seq<Seq<char>>,
    definitions: Seq<DefinitionModel>,
) -> Option<Seq<char>> {
    if trim(step.id).len() == 0 {
        Some("идентификатор шага MCP-пайплайна не должен быть пустым"@)
    } else if previous.contains(step.id) {
        Some("повторяющийся идентификатор шага MCP-пайплайна: "@ + step.id)
    } else if step.tool == PIPELINE_TOOL_NAME@ {
        Some("MCP-пайплайн не может вызывать "@ + PIPELINE_TOOL_NAME@)
    } else if !has_tool(definitions, step.tool) {
        Some("MCP-инструмент «"@ + step.tool + "» не разрешён для пайплайна"@)
    } else if !(step.arguments is Object) {
        Some("аргументы шага «"@ + step.id + "» должны быть JSON-объектом"@)
    } else {
        reference_error(step.arguments, previous, step.id)
    }
}

/// What is wrong with the first bad step.
pub open spec fn steps_error(
    steps: Seq<StepModel>,
    definitions: Seq<DefinitionModel>,
) -> Option<Seq<char>>
    decreases steps.len(),
{
    if steps.len() == 0 {
        None
    } else {
        match steps_error(steps.drop_last(), definitions) {
            Some(message) => Some(message),
            None => step_error(steps.last(), step_ids(steps.drop_last()), definitions),
        }
    }
}

/// What is wrong with a plan.
pub open spec fn plan_error(
    plan: PlanModel,
    definitions: Seq<DefinitionModel>,
) -> Option<Seq<char>> {
    if trim(plan.name).len() == 0 {
        Some("имя MCP-пайплайна не должно быть пустым"@)
    } else if plan.steps.len() == 0 || plan.steps.len() > MAX_PIPELINE_STEPS {
        Some(
            "MCP-пайплайн должен содержать от 1 до "@ + decimal(MAX_PIPELINE_STEPS as nat)
                + " шагов"@,
        )
    } else {
        steps_error(plan.steps, definitions)
    }
}

proof fn lemma_steps_error(steps: Seq<StepModel>, definitions: Seq<DefinitionModel>, n: int)
    requires
        0 <= n <= steps.len(),
        steps_error(steps.take(n), definitions) is Some,
    ensures
        steps_error(steps, definitions) == steps_error(steps.take(n), definitions),
    decreases steps.len(),
{
    if n == steps.len() {
        assert(steps.take(n) =~= steps);
    } else {
        assert(steps.drop_last().take(n) =~= steps.take(n));
        lemma_steps_error(steps.drop_last(), definitions, n);
    }
}

/// The position of the first tool with a name, or the number of tools.
pub open spec fn tool_index(definitions: Seq<DefinitionModel>, name: Seq<char>) -> nat
    decreases definitions.len(),
{
    if definitions.len() == 0 || definitions[0].name == name {
        0
    } else {
        1 + tool_index(definitions.skip(1), name)
    }
}

/// `tool_index` is the least position of the name.
pub proof fn lemma_tool_index(definitions: Seq<DefinitionModel>, name: Seq<char>)
    ensures
        tool_index(definitions, name) <= definitions.len(),
        tool_index(definitions, name) < definitions.len() ==> definitions[tool_index(
            definitions,
            name,
        ) as int].name == name,
        tool_index(definitions, name) < definitions.len() <==> has_tool(definitions, name),
    decreases definitions.len(),
{
    if definitions.len() > 0 && definitions[0].name != name {
        let rest = definitions.skip(1);
        lemma_tool_index(rest, name);
        if has_tool(definitions, name) {
            let i = choose|i: int|
                0 <= i < definitions.len() && (#[trigger] definitions[i]).name == name;
            assert(rest[i - 1].name == name);
        }
        if has_tool(rest, name) {
            let i = choose|i: int| 0 <= i < rest.len() && (#[trigger] rest[i]).name == name;
            assert(definitions[i + 1].name == name);
        }
    }
}

/// The position of the first tool with a name.
pub fn find_tool(definitions: &Vec<ToolDefinition>, name: &str) -> (r: Option<usize>)
    ensures
        match r {
            Some(at) => at == tool_index(views(definitions@), name@) && at < definitions@.len()
                && has_tool(views(definitions@), name@),
            None => !has_tool(views(definitions@), name@),
        },
{
    let ghost model = views(definitions@);
    let mut i: usize = 0;
    proof {
        lemma_tool_index(model, name@);
        assert(model.skip(0) =~= model);
    }
    while i < definitions.len()
        invariant
            i <= definitions@.len(),
            model == views(definitions@),
            tool_index(model, name@) == i + tool_index(model.skip(i as int), name@),
            tool_index(model, name@) < model.len() <==> has_tool(model, name@),
        decreases definitions.len() - i,
    {
        if same(definitions[i].name.as_str(), name) {
            return Some(i);
        }
        proof {
            assert(model.skip(i as int).skip(1) =~= model.skip(i + 1));
        }
        i += 1;
    }
    None
}

fn check_step(step: &PipelineStep, previous: &Vec<String>, definitions: &Vec<ToolDefinition>) -> (r:
    Result<(), String>)
    ensures
        agrees_check(r, step_error(step@, views(previous@), views(definitions@))),
{
    if is_blank(step.id.as_str()) {
        return Err("идентификатор шага MCP-пайплайна не должен быть пустым".to_owned());
    }
    if holds_text(previous.as_slice(), step.id.as_str()) {
        return Err(
            "повторяющийся идентификатор шага MCP-пайплайна: ".to_owned().concat(step.id.as_str()),
        );
    }
    if same(step.tool.as_str(), PIPELINE_TOOL_NAME) {
        return Err("MCP-пайплайн не может вызывать ".to_owned().concat(PIPELINE_TOOL_NAME));
    }
    if find_tool(definitions, step.tool.as_str()).is_none() {
        return Err(
            "MCP-инструмент «".to_owned().concat(step.tool.as_str()).concat(
                "» не разрешён для пайплайна",
            ),
        );
    }
    if !is_object(&step.arguments) {
        return Err(
            "аргументы шага «".to_owned().concat(step.id.as_str()).concat(
                "» должны быть JSON-объектом",
            ),
        );
    }
    validate_references(&step.arguments, previous, step.id.as_str())
}

/// Checks a plan against the tools that it may call.
pub fn validate_pipeline_plan(plan: &PipelinePlan, definitions: &Vec<ToolDefinition>) -> (r: Result<
    (),
    String,
>)
    ensures
        agrees_check(r, plan_error(plan@, views(definitions@))),
{
    if is_blank(plan.name.as_str()) {
        return Err("имя MCP-пайплайна не должно быть пустым".to_owned());
    }
    if plan.steps.len() == 0 || plan.steps.len() > MAX_PIPELINE_STEPS {
        return Err(
            "MCP-пайплайн должен содержать от 1 до ".to_owned().concat(
                size_text(MAX_PIPELINE_STEPS).as_str(),
            ).concat(" шагов"),
        );
    }
    let ghost model = views(plan.steps@);
    let mut previous: Vec<String> = Vec::new();
    let mut i: usize = 0;
    proof {
        assert(model.take(0).len() == 0);
        assert(views(previous@) =~= step_ids(model.take(0)));
    }
    while i < plan.steps.len()
        invariant
            i <= plan.steps@.len(),
            0 < model.len() <= MAX_PIPELINE_STEPS,
            trim(plan@.name).len() > 0,
            model == views(plan.steps@),
            views(previous@) == step_ids(model.take(i as int)),
            steps_error(model.take(i as int), views(definitions@)) is None,
        decreases plan.steps.len() - i,
    {
        let step = &plan.steps[i];
        proof {
            assert(model.take(i + 1).drop_last() =~= model.take(i as int));
            assert(model.take(i + 1).last() == step@);
        }
        if let Err(message) = check_step(step, &previous, definitions) {
            proof {
                lemma_steps_error(model, views(definitions@), i + 1);
            }
            return Err(message);
        }
        let id = step.id.clone();
        proof {
            assert(step_ids(model.take(i as int)).push(id@) =~= step_ids(model.take(i + 1)));
        }
        previous.push(id);
        i += 1;
    }
    proof {
        assert(model.take(i as int) =~= model);
    }
    Ok(())
}

// Filling in references.

/// The result of a step among those that are known.
pub open spec fn output_of(outputs: Seq<(Seq<char>, JsonModel)>, id: Seq<char>) -> Option<JsonModel>
    decreases outputs.len(),
{
    if outputs.len() == 0 {
        None
    } else if outputs.last().0 == id {
        Some(outputs.last().1)
    } else {
        output_of(outputs.drop_last(), id)
    }
}

/// The value that a reference stands for.
pub open spec fn referenced(
    text: Seq<char>,
    outputs: Seq<(Seq<char>, JsonModel)>,
    runtime: JsonModel,
) -> Result<JsonModel, Seq<char>> {
    match reference_in(text) {
        Reference::Malformed => Err("$ref должен иметь вид <step-id>.output"@),
        Reference::Output(source, path) => match output_of(outputs, source) {
            None => Err("результат шага «"@ + source + "» недоступен"@),
            Some(output) => match value_at(output, path) {
                None => Err("значение «"@ + text + "» недоступно"@),
                Some(value) => Ok(value),
            },
        },
        Reference::Run(path) => match value_at(runtime, seq!["run"@] + path) {
            None => Err("значение «"@ + text + "» недоступно"@),
            Some(value) => Ok(value),
        },
    }
}

/// The value of an object that holds a reference.
pub open spec fn one_resolved(
    members: Seq<MemberModel>,
    reference: JsonModel,
    outputs: Seq<(Seq<char>, JsonModel)>,
    runtime: JsonModel,
) -> Result<JsonModel, Seq<char>> {
    if members.len() != 1 {
        Err("$ref должен быть единственным полем объекта"@)
    } else {
        match reference {
            JsonModel::Text(text) => referenced(text, outputs, runtime),
            _ => Err("$ref должен быть строкой"@),
        }
    }
}

/// The arguments with every reference replaced by the value it stands for.
pub open spec fn resolved(
    value: JsonModel,
    outputs: Seq<(Seq<char>, JsonModel)>,
    runtime: JsonModel,
) -> Result<JsonModel, Seq<char>>
    decreases value,
{
    match value {
        JsonModel::Array(items) => match items_resolved(items, outputs, runtime) {
            Ok(values) => Ok(JsonModel::Array(values)),
            Err(message) => Err(message),
        },
        JsonModel::Object(members) => match member_of(value, "$ref"@) {
            Some(reference) => one_resolved(members, reference, outputs, runtime),
            None => match members_resolved(members, outputs, runtime) {
                Ok(values) => Ok(JsonModel::Object(values)),
                Err(message) => Err(message),
            },
        },
        _ => Ok(value),
    }
}

/// The elements of an array with every reference replaced.
pub open spec fn items_resolved(
    items: Seq<JsonModel>,
    outputs: Seq<(Seq<char>, JsonModel)>,
    runtime: JsonModel,
) -> Result<Seq<JsonModel>, Seq<char>>
    decreases items,
{
    if items.len() == 0 {
        Ok(Seq::empty())
    } else {
        match items_resolved(items.drop_last(), outputs, runtime) {
            Err(message) => Err(message),
            Ok(head) => match resolved(items.last(), outputs, runtime) {
                Err(message) => Err(message),
                Ok(value) => Ok(head.push(value)),
            },
        }
    }
}

/// The members of an object with every reference replaced.
pub open spec fn members_resolved(
    members: Seq<MemberModel>,
    outputs: Seq<(Seq<char>, JsonModel)>,
    runtime: JsonModel,
) -> Result<Seq<MemberModel>, Seq<char>>
    decreases members,
{
    if members.len() == 0 {
        Ok(Seq::empty())
    } else {
        match members_resolved(members.drop_last(), outputs, runtime) {
            Err(message) => Err(message),
            Ok(head) => match resolved(members.last().value, outputs, runtime) {
                Err(message) => Err(message),
                Ok(value) => Ok(head.push(MemberModel { key: members.last().key, value })),
            },
        }
    }
}

proof fn lemma_items_resolved(
    items: Seq<JsonModel>,
    outputs: Seq<(Seq<char>, JsonModel)>,
    runtime: JsonModel,
    n: int,
)
    requires
        0 <= n <= items.len(),
        items_resolved(items.take(n), outputs, runtime) is Err,
    ensures
        items_resolved(items, outputs, runtime) == items_resolved(items.take(n), outputs, runtime),
    decreases items.len(),
{
    if n == items.len() {
        assert(items.take(n) =~= items);
    } else {
        assert(items.drop_last().take(n) =~= items.take(n));
        lemma_items_resolved(items.drop_last(), outputs, runtime, n);
    }
}

proof fn lemma_members_resolved(
    members: Seq<MemberModel>,
    outputs: Seq<(Seq<char>, JsonModel)>,
    runtime: JsonModel,
    n: int,
)
    requires
        0 <= n <= members.len(),
        members_resolved(members.take(n), outputs, runtime) is Err,
    ensures
        members_resolved(members, outputs, runtime) == members_resolved(
            members.take(n),
            outputs,
            runtime,
        ),
    decreases members.len(),
{
    if n == members.len() {
        assert(members.take(n) =~= members);
    } else {
        assert(members.drop_last().take(n) =~= members.take(n));
        lemma_members_resolved(members.drop_last(), outputs, runtime, n);
    }
}

fn find_value<'a>(value: &'a Json, path: &Vec<String>, from: usize) -> (r: Option<&'a Json>)
    requires
        from <= path@.len(),
    ensures
        json_option(r) == value_at(value@, views(path@).skip(from as int)),
    decreases path.len() - from,
{
    let ghost rest = views(path@).skip(from as int);
    if from == path.len() {
        return Some(value);
    }
    proof {
        assert(rest[0] == path@[from as int]@);
        assert(rest.skip(1) =~= views(path@).skip(from + 1));
    }
    match value.get(path[from].as_str()) {
        Some(inner) => find_value(inner, path, from + 1),
        None => None,
    }
}

fn find_output<'a>(outputs: &'a Vec<(String, Json)>, id: &str) -> (r: Option<&'a Json>)
    ensures
        json_option(r) == output_of(views(outputs@), id@),
{
    let ghost model = views(outputs@);
    let mut i: usize = outputs.len();
    proof {
        assert(model.take(i as int) =~= model);
    }
    while i > 0
        invariant
            i <= outputs@.len(),
            model == views(outputs@),
            output_of(model, id@) == output_of(model.take(i as int), id@),
        decreases i,
    {
        proof {
            assert(model.take(i as int).drop_last() =~= model.take(i - 1));
            assert(model.take(i as int).last() == (outputs@[i - 1].0@, outputs@[i - 1].1@));
        }
        if same(outputs[i - 1].0.as_str(), id) {
            return Some(&outputs[i - 1].1);
        }
        i -= 1;
    }
    None
}

fn resolve_reference(text: &str, outputs: &Vec<(String, Json)>, runtime: &Json) -> (r: Result<
    Json,
    String,
>)
    ensures
        agrees(r, referenced(text@, views(outputs@), runtime@)),
{
    match parse_reference(text) {
        ParsedReference::Malformed => Err("$ref должен иметь вид <step-id>.output".to_owned()),
        ParsedReference::Output(source, path) => match find_output(outputs, source.as_str()) {
            None => Err(
                "результат шага «".to_owned().concat(source.as_str()).concat("» недоступен"),
            ),
            Some(output) => {
                proof {
                    assert(views(path@).skip(0) =~= views(path@));
                }
                match find_value(output, &path, 0) {
                    None => Err("значение «".to_owned().concat(text).concat("» недоступно")),
                    Some(value) => Ok(value.copy()),
                }
            },
        },
        ParsedReference::Run(path) => {
            let ghost whole = seq!["run"@] + views(path@);
            proof {
                assert(whole[0] == "run"@);
                assert(whole.skip(1) =~= views(path@));
                assert(views(path@).skip(0) =~= views(path@));
            }
            let found = match runtime.get("run") {
                Some(inner) => find_value(inner, &path, 0),
                None => None,
            };
            match found {
                None => Err("значение «".to_owned().concat(text).concat("» недоступно")),
                Some(value) => Ok(value.copy()),
            }
        },
    }
}

/// Fills in the references in the arguments of a step: results of earlier steps, and values of the
/// run.
pub fn resolve_pipeline_arguments_with_runtime(
    arguments: &Json,
    outputs: &Vec<(String, Json)>,
    runtime: &Json,
) -> (r: Result<Json, String>)
    ensures
        agrees(r, resolved(arguments@, views(outputs@), runtime@)),
    decreases arguments,
{
    match arguments {
        Json::Array(items) => {
            let ghost model = views(items@);
            let mut out: Vec<Json> = Vec::new();
            proof {
                lemma_array_view(*items);
                assert(model.take(0).len() == 0);
                assert(views(out@) =~= Seq::<JsonModel>::empty());
            }
            let mut i: usize = 0;
            while i < items.len()
                invariant
                    i <= items@.len(),
                    arguments == Json::Array(*items),
                    arguments@ == JsonModel::Array(model),
                    model == views(items@),
                    items_resolved(model.take(i as int), views(outputs@), runtime@) == Ok::<
                        Seq<JsonModel>,
                        Seq<char>,
                    >(views(out@)),
                decreases items.len() - i,
            {
                proof {
                    assert(decreases_to!(arguments => arguments->Array_0));
                    assert(decreases_to!(arguments->Array_0 => items@));
                    assert(decreases_to!(items@ => items@[i as int]));
                    assert(model.take(i + 1).drop_last() =~= model.take(i as int));
                    assert(model.take(i + 1).last() == items@[i as int]@);
                }
                match resolve_pipeline_arguments_with_runtime(&items[i], outputs, runtime) {
                    Ok(value) => out.push(value),
                    Err(message) => {
                        proof {
                            lemma_items_resolved(model, views(outputs@), runtime@, i + 1);
                        }
                        return Err(message);
                    },
                }
                i += 1;
            }
            proof {
                assert(model.take(i as int) =~= model);
            }
            Ok(array_of(out))
        },
        Json::Object(members) => {
            let ghost model = views(members@);
            let mut out: Vec<Member> = Vec::new();
            proof {
                lemma_object_view(*members);
                assert(model.take(0).len() == 0);
                assert(views(out@) =~= Seq::<MemberModel>::empty());
            }
            if let Some(reference) = arguments.get("$ref") {
                if members.len() != 1 {
                    return Err("$ref должен быть единственным полем объекта".to_owned());
                }
                return match reference {
                    Json::Text(text) => resolve_reference(text.as_str(), outputs, runtime),
                    _ => Err("$ref должен быть строкой".to_owned()),
                };
            }
            let mut i: usize = 0;
            while i < members.len()
                invariant
                    i <= members@.len(),
                    arguments == Json::Object(*members),
                    arguments@ == JsonModel::Object(model),
                    member_of(arguments@, "$ref"@) is None,
                    model == views(members@),
                    members_resolved(model.take(i as int), views(outputs@), runtime@) == Ok::<
                        Seq<MemberModel>,
                        Seq<char>,
                    >(views(out@)),
                decreases members.len() - i,
            {
                proof {
                    assert(decreases_to!(arguments => arguments->Object_0));
                    assert(decreases_to!(arguments->Object_0 => members@));
                    assert(decreases_to!(members@ => members@[i as int]));
                    assert(decreases_to!(members@[i as int] => members@[i as int].value));
                    assert(model.take(i + 1).drop_last() =~= model.take(i as int));
                    assert(model.take(i + 1).last() == members@[i as int]@);
                }
                match resolve_pipeline_arguments_with_runtime(
                    &members[i].value,
                    outputs,
                    runtime,
                ) {
                    Ok(value) => out.push(Member { key: members[i].key.clone(), value }),
                    Err(message) => {
                        proof {
                            lemma_members_resolved(model, views(outputs@), runtime@, i + 1);
                        }
                        return Err(message);
                    },
                }
                i += 1;
            }
            proof {
                assert(model.take(i as int) =~= model);
            }
            Ok(object_of(out))
        },
        _ => Ok(arguments.copy()),
    }
}

/// Fills in the references in the arguments of a step outside a run: results of earlier steps.
pub fn resolve_pipeline_arguments(arguments: &Json, outputs: &Vec<(String, Json)>) -> (r: Result<
    Json,
    String,
>)
    ensures
        agrees(r, resolved(arguments@, views(outputs@), JsonModel::Null)),
{
    resolve_pipeline_arguments_with_runtime(arguments, outputs, &Json::Null)
}

// What plans keep.

/// Whether the arguments hold no reference.
pub open spec fn without_references(value: JsonModel) -> bool
    decreases value,
{
    match value {
        JsonModel::Array(items) => items_without_references(items),
        JsonModel::Object(members) => member_of(value, "$ref"@) is None
            && members_without_references(members),
        _ => true,
    }
}

/// Whether the elements of an array hold no reference.
pub open spec fn items_without_references(items: Seq<JsonModel>) -> bool
    decreases items,
{
    items.len() > 0 ==> items_without_references(items.drop_last()) && without_references(
        items.last(),
    )
}

/// Whether the members of an object hold no reference.
pub open spec fn members_without_references(members: Seq<MemberModel>) -> bool
    decreases members,
{
    members.len() > 0 ==> members_without_references(members.drop_last()) && without_references(
        members.last().value,
    )
}

/// Arguments without references are handed to the tool unchanged.
pub proof fn law_plain_arguments_are_unchanged(
    value: JsonModel,
    outputs: Seq<(Seq<char>, JsonModel)>,
    runtime: JsonModel,
)
    requires
        without_references(value),
    ensures
        resolved(value, outputs, runtime) == Ok::<JsonModel, Seq<char>>(value),
    decreases value,
{
    match value {
        JsonModel::Array(items) => {
            lemma_plain_items(items, outputs, runtime);
        },
        JsonModel::Object(members) => {
            lemma_plain_members(members, outputs, runtime);
        },
        _ => {},
    }
}

proof fn lemma_plain_items(
    items: Seq<JsonModel>,
    outputs: Seq<(Seq<char>, JsonModel)>,
    runtime: JsonModel,
)
    requires
        items_without_references(items),
    ensures
        items_resolved(items, outputs, runtime) == Ok::<Seq<JsonModel>, Seq<char>>(items),
    decreases items,
{
    if items.len() > 0 {
        lemma_plain_items(items.drop_last(), outputs, runtime);
        law_plain_arguments_are_unchanged(items.last(), outputs, runtime);
        assert(items.drop_last().push(items.last()) =~= items);
    } else {
        assert(items =~= Seq::empty());
    }
}

proof fn lemma_plain_members(
    members: Seq<MemberModel>,
    outputs: Seq<(Seq<char>, JsonModel)>,
    runtime: JsonModel,
)
    requires
        members_without_references(members),
    ensures
        members_resolved(members, outputs, runtime) == Ok::<Seq<MemberModel>, Seq<char>>(members),
    decreases members,
{
    if members.len() > 0 {
        lemma_plain_members(members.drop_last(), outputs, runtime);
        law_plain_arguments_are_unchanged(members.last().value, outputs, runtime);
        assert(members.drop_last().push(members.last()) =~= members);
    } else {
        assert(members =~= Seq::empty());
    }
}

/// Whether every reference in the arguments names the whole result of a step.
pub open spec fn only_whole_results(value: JsonModel) -> bool
    decreases value,
{
    match value {
        JsonModel::Array(items) => items_only_whole_results(items),
        JsonModel::Object(members) => match member_of(value, "$ref"@) {
            Some(JsonModel::Text(text)) => reference_in(text) matches Reference::Output(_, path)
                && path.len() == 0,
            Some(_) => true,
            None => members_only_whole_results(members),
        },
        _ => true,
    }
}

/// Whether every reference in the elements of an array names the whole result of a step.
pub open spec fn items_only_whole_results(items: Seq<JsonModel>) -> bool
    decreases items,
{
    items.len() > 0 ==> items_only_whole_results(items.drop_last()) && only_whole_results(
        items.last(),
    )
}

/// Whether every reference in the members of an object names the whole result of a step.
pub open spec fn members_only_whole_results(members: Seq<MemberModel>) -> bool
    decreases members,
{
    members.len() > 0 ==> members_only_whole_results(members.drop_last()) && only_whole_results(
        members.last().value,
    )
}

/// Whether the results of all these steps are known.
pub open spec fn all_known(
    previous: Seq<Seq<char>>,
    outputs: Seq<(Seq<char>, JsonModel)>,
) -> bool {
    forall|id: Seq<char>| previous.contains(id) ==> (#[trigger] output_of(outputs, id)) is Some
}

/// Arguments that passed the check can be filled in as soon as the steps before have results.
pub proof fn law_checked_arguments_can_be_filled_in(
    value: JsonModel,
    previous: Seq<Seq<char>>,
    step_id: Seq<char>,
    outputs: Seq<(Seq<char>, JsonModel)>,
    runtime: JsonModel,
)
    requires
        reference_error(value, previous, step_id) is None,
        only_whole_results(value),
        all_known(previous, outputs),
    ensures
        resolved(value, outputs, runtime) is Ok,
    decreases value,
{
    match value {
        JsonModel::Array(items) => {
            lemma_items_filled_in(items, previous, step_id, outputs, runtime);
        },
        JsonModel::Object(members) => match member_of(value, "$ref"@) {
            Some(JsonModel::Text(text)) => {
                if let Reference::Output(source, path) = reference_in(text) {
                    assert(previous.contains(source));
                    assert(output_of(outputs, source) is Some);
                }
            },
            Some(_) => {},
            None => {
                lemma_members_filled_in(members, previous, step_id, outputs, runtime);
            },
        },
        _ => {},
    }
}

proof fn lemma_items_filled_in(
    items: Seq<JsonModel>,
    previous: Seq<Seq<char>>,
    step_id: Seq<char>,
    outputs: Seq<(Seq<char>, JsonModel)>,
    runtime: JsonModel,
)
    requires
        items_error(items, previous, step_id) is None,
        items_only_whole_results(items),
        all_known(previous, outputs),
    ensures
        items_resolved(items, outputs, runtime) is Ok,
    decreases items,
{
    if items.len() > 0 {
        lemma_items_filled_in(items.drop_last(), previous, step_id, outputs, runtime);
        law_checked_arguments_can_be_filled_in(items.last(), previous, step_id, outputs, runtime);
    }
}

proof fn lemma_members_filled_in(
    members: Seq<MemberModel>,
    previous: Seq<Seq<char>>,
    step_id: Seq<char>,
    outputs: Seq<(Seq<char>, JsonModel)>,
    runtime: JsonModel,
)
    requires
        members_error(members, previous, step_id) is None,
        members_only_whole_results(members),
        all_known(previous, outputs),
    ensures
        members_resolved(members, outputs, runtime) is Ok,
    decreases members,
{
    if members.len() > 0 {
        lemma_members_filled_in(members.drop_last(), previous, step_id, outputs, runtime);
        law_checked_arguments_can_be_filled_in(
            members.last().value,
            previous,
            step_id,
            outputs,
            runtime,
        );
    }
}

/// A plan that passed the check has distinct steps, each of which calls an allowed tool other than
/// the one that runs plans.
pub proof fn law_checked_plan(plan: PlanModel, definitions: Seq<DefinitionModel>, i: int, j: int)
    requires
        plan_error(plan, definitions) is None,
        0 <= i < j < plan.steps.len(),
    ensures
        plan.steps[i].id != plan.steps[j].id,
        has_tool(definitions, plan.steps[j].tool),
        plan.steps[j].tool != PIPELINE_TOOL_NAME@,
        plan.steps[j].arguments is Object,
        reference_error(
            plan.steps[j].arguments,
            step_ids(plan.steps.take(j)),
            plan.steps[j].id,
        ) is None,
{
    lemma_checked_step(plan.steps, definitions, j);
    let ids = step_ids(plan.steps.take(j));
    assert(ids[i] == plan.steps[i].id);
    assert(ids.contains(plan.steps[i].id));
}

proof fn lemma_checked_step(steps: Seq<StepModel>, definitions: Seq<DefinitionModel>, j: int)
    requires
        steps_error(steps, definitions) is None,
        0 <= j < steps.len(),
    ensures
        step_error(steps[j], step_ids(steps.take(j)), definitions) is None,
    decreases steps.len(),
{
    if j == steps.len() - 1 {
        assert(steps.take(j) =~= steps.drop_last());
    } else {
        lemma_checked_step(steps.drop_last(), definitions, j);
        assert(steps.drop_last().take(j) =~= steps.take(j));
    }
}

// Checking arguments.

/// What the check of a value against a JSON schema says.
#[derive(Debug, PartialEq, Eq)]
pub enum SchemaCheck {
    BadSchema,
    Mismatch(String),
    Valid,
}

/// What the check of a value against a JSON schema says, mathematically.
pub ghost enum SchemaVerdict {
    BadSchema,
    Mismatch(Seq<char>),
    Valid,
}

impl View for SchemaCheck {
    type V = SchemaVerdict;

    open spec fn view(&self) -> SchemaVerdict {
        match self {
            SchemaCheck::BadSchema => SchemaVerdict::BadSchema,
            SchemaCheck::Mismatch(message) => SchemaVerdict::Mismatch(message@),
            SchemaCheck::Valid => SchemaVerdict::Valid,
        }
    }
}

/// What `jsonschema` says of a schema and a value, each given as a JSON text.
pub uninterp spec fn schema_verdict(schema: Seq<char>, value: Seq<char>) -> SchemaVerdict;

/// Checks a value against a schema with `jsonschema::validator_for` and the `validate` of the
/// validator, both given as JSON texts: the schema is not one, the value does not match it (with
/// the message of the first mismatch), or it does. No reference to another document is followed.
#[verifier::external_body]
fn check_schema(schema: &str, value: &str) -> (r: SchemaCheck)
    ensures
        r@ == schema_verdict(schema@, value@),
{
    let schema: serde_json::Value = serde_json::from_str(schema).unwrap_or_default();
    let value: serde_json::Value = serde_json::from_str(value).unwrap_or_default();
    match jsonschema::validator_for(&schema) {
        Err(_) => SchemaCheck::BadSchema,
        Ok(validator) => match validator.validate(&value) {
            Err(error) => SchemaCheck::Mismatch(error.to_string()),
            Ok(()) => SchemaCheck::Valid,
        },
    }
}

/// What is wrong with the arguments of a tool, given what the check of its schema says.
pub open spec fn verdict_error(name: Seq<char>, verdict: SchemaVerdict) -> Option<Seq<char>> {
    match verdict {
        SchemaVerdict::BadSchema => Some(
            "MCP-инструмент «"@ + name + "» объявил некорректную входную схему"@,
        ),
        SchemaVerdict::Mismatch(message) => Some(
            "аргументы MCP-инструмента «"@ + name + "» не соответствуют схеме: "@ + message,
        ),
        SchemaVerdict::Valid => None,
    }
}

/// Says what is wrong with the arguments of a tool.
pub fn report_schema_check(name: &str, check: &SchemaCheck) -> (r: Result<(), String>)
    ensures
        agrees_check(r, verdict_error(name@, check@)),
{
    match check {
        SchemaCheck::BadSchema => Err(
            "MCP-инструмент «".to_owned().concat(name).concat(
                "» объявил некорректную входную схему",
            ),
        ),
        SchemaCheck::Mismatch(message) => Err(
            "аргументы MCP-инструмента «".to_owned().concat(name).concat(
                "» не соответствуют схеме: ",
            ).concat(message.as_str()),
        ),
        SchemaCheck::Valid => Ok(()),
    }
}

/// What is wrong with the arguments of a tool.
pub open spec fn arguments_error(
    definition: DefinitionModel,
    arguments: JsonModel,
) -> Option<Seq<char>> {
    if !(arguments is Object) {
        Some(
            "аргументы MCP-инструмента «"@ + definition.name + "» должны быть JSON-объектом"@,
        )
    } else {
        verdict_error(
            definition.name,
            schema_verdict(json_text(definition.input_schema), json_text(arguments)),
        )
    }
}

/// Checks the arguments of a tool against its schema.
pub fn validate_tool_arguments(definition: &ToolDefinition, arguments: &Json) -> (r: Result<
    (),
    String,
>)
    ensures
        agrees_check(r, arguments_error(definition@, arguments@)),
{
    if !is_object(arguments) {
        return Err(
            "аргументы MCP-инструмента «".to_owned().concat(definition.name.as_str()).concat(
                "» должны быть JSON-объектом",
            ),
        );
    }
    let check = check_schema(
        write_json(&definition.input_schema).as_str(),
        write_json(arguments).as_str(),
    );
    report_schema_check(definition.name.as_str(), &check)
}

// Options of a request.

/// The tools that a request offers, with calls that were made and their results.
#[derive(Debug, PartialEq, Eq)]
pub struct RequestOptions {
    pub tools: Vec<ToolDefinition>,
    pub tool_calls: Vec<ToolCall>,
    pub tool_results: Vec<ToolResult>,
}

/// The options of a request, mathematically.
pub ghost struct OptionsModel {
    pub tools: Seq<DefinitionModel>,
    pub tool_calls: Seq<CallModel>,
    pub tool_results: Seq<ToolResultModel>,
}

impl View for RequestOptions {
    type V = OptionsModel;

    open spec fn view(&self) -> OptionsModel {
        OptionsModel {
            tools: views(self.tools@),
            tool_calls: views(self.tool_calls@),
            tool_results: views(self.tool_results@),
        }
    }
}

/// The options of a request without tools.
pub open spec fn no_options() -> OptionsModel {
    OptionsModel { tools: Seq::empty(), tool_calls: Seq::empty(), tool_results: Seq::empty() }
}

impl Default for RequestOptions {
    fn default() -> (r: Self)
        ensures
            r@ == no_options(),
    {
        let r = RequestOptions {
            tools: Vec::new(),
            tool_calls: Vec::new(),
            tool_results: Vec::new(),
        };
        proof {
            assert(r@.tools =~= Seq::empty());
            assert(r@.tool_calls =~= Seq::empty());
            assert(r@.tool_results =~= Seq::empty());
        }
        r
    }
}

/// A step that refers to an earlier one gets what that one returned: all of it, or the member that it
/// names.
pub proof fn law_reference_gives_the_result(
    outputs: Seq<(Seq<char>, JsonModel)>,
    runtime: JsonModel,
    at: int,
    key: Seq<char>,
)
    requires
        0 <= at < outputs.len(),
        forall|k: int| at < k < outputs.len() ==> (#[trigger] outputs[k]).0 != outputs[at].0,
    ensures
        referenced(outputs[at].0 + ".output"@, outputs, runtime) == Ok::<JsonModel, Seq<char>>(
            outputs[at].1,
        ),
        !outputs[at].0.contains('.') && !key.contains('.') && key != "output"@ ==> (member_of(
            outputs[at].1,
            key,
        ) matches Some(value) ==> referenced(
            outputs[at].0 + ".output."@ + key,
            outputs,
            runtime,
        ) == Ok::<JsonModel, Seq<char>>(value)),
{
    let id = outputs[at].0;
    lemma_output_is_found(outputs, at);
    let whole = id + ".output"@;
    assert(whole.subrange(whole.len() - ".output"@.len(), whole.len() as int) =~= ".output"@);
    assert(".output"@.is_suffix_of(whole));
    assert(whole.take(whole.len() - ".output"@.len()) =~= id);
    assert(value_at(outputs[at].1, Seq::empty()) == Some(outputs[at].1));
    if !id.contains('.') && !key.contains('.') && key != "output"@ {
        lemma_member_reference(id, key);
        if let Some(value) = member_of(outputs[at].1, key) {
            let path = seq![key];
            assert(path.skip(1) =~= Seq::empty());
            assert(value_at(value, Seq::empty()) == Some(value));
            assert(value_at(outputs[at].1, path) == Some(value));
        }
    }
}

/// The result of a step is the last one under its name.
proof fn lemma_output_is_found(outputs: Seq<(Seq<char>, JsonModel)>, at: int)
    requires
        0 <= at < outputs.len(),
        forall|k: int| at < k < outputs.len() ==> (#[trigger] outputs[k]).0 != outputs[at].0,
    ensures
        output_of(outputs, outputs[at].0) == Some(outputs[at].1),
    decreases outputs.len(),
{
    if at < outputs.len() - 1 {
        let head = outputs.drop_last();
        assert(outputs[outputs.len() - 1].0 != outputs[at].0);
        assert forall|k: int| at < k < head.len() implies (#[trigger] head[k]).0 != head[at].0 by {
            assert(outputs[k].0 != outputs[at].0);
        }
        lemma_output_is_found(head, at);
    }
}

/// A reference to a member of a result names the step and the member.
proof fn lemma_member_reference(id: Seq<char>, key: Seq<char>)
    requires
        !id.contains('.'),
        !key.contains('.'),
        key != "output"@,
    ensures
        reference_in(id + ".output."@ + key) == Reference::Output(id, seq![key]),
{
    let mark = ".output."@;
    let text = id + mark + key;
    let n = id.len() as int;
    reveal_strlit(".output.");
    reveal_strlit(".output");
    reveal_strlit("output");
    assert(mark.len() == 8 && ".output"@.len() == 7 && "output"@.len() == 6);
    assert forall|k: int| 0 <= k < n implies text[k] != '.' by {
        assert(text[k] == id[k]);
    }
    assert forall|k: int| n + 8 <= k < text.len() implies text[k] != '.' by {
        assert(text[k] == key[k - n - 8]);
    }
    assert(!".output"@.is_suffix_of(text)) by {
        if ".output"@.is_suffix_of(text) {
            let from = text.len() - 7;
            let end = text.subrange(from, text.len() as int);
            assert(end =~= ".output"@);
            assert(end[0] == '.');
            assert(text[from] == '.');
            assert(n <= from < n + 8);
            if from == n + 7 {
                assert(key =~= "output"@) by {
                    assert forall|k: int| 0 <= k < 6 implies key[k] == "output"@[k] by {
                        assert(end[k + 1] == text[from + 1 + k]);
                        assert(text[n + 8 + k] == key[k]);
                    }
                }
            } else {
                assert(text[n + 7] == mark[7]);
                assert(end[n + 7 - from] == '.');
                assert(".output"@[n + 7 - from] != '.');
            }
        }
    }
    lemma_find_part(text, mark, 0);
    assert(text.subrange(n, n + 8) =~= mark);
    assert(occurs_at(text, mark, n));
    let found = find_part(text, mark, 0)->Some_0;
    assert(found == n) by {
        assert(found <= n);
        if found < n {
            assert(text.subrange(found, found + 8)[0] == '.');
            assert(text[found] == '.');
        }
    }
    assert(text.take(n) =~= id);
    assert(text.skip(n + 8) =~= key);
    lemma_index_of_char(key, '.');
    if index_of_char(key, '.') < key.len() {
        assert(key.contains('.'));
    }
    assert(split_on(key, '.') =~= seq![key]);
}

/// An object whose only member is a reference stands for what the reference gives.
pub proof fn law_reference_stands_for_its_value(
    text: Seq<char>,
    outputs: Seq<(Seq<char>, JsonModel)>,
    runtime: JsonModel,
)
    ensures
        resolved(
            JsonModel::Object(seq![field("$ref"@, JsonModel::Text(text))]),
            outputs,
            runtime,
        ) == referenced(text, outputs, runtime),
{
    let members = seq![field("$ref"@, JsonModel::Text(text))];
    assert(members[0].key == "$ref"@);
    law_member_is_found(members, 0);
}

/// A list is filled in item by item, and an object member by member, under the same keys.
pub proof fn law_arguments_are_filled_in_by_parts(
    items: Seq<JsonModel>,
    members: Seq<MemberModel>,
    outputs: Seq<(Seq<char>, JsonModel)>,
    runtime: JsonModel,
    i: int,
)
    ensures
        items_resolved(items, outputs, runtime) matches Ok(values) ==> values.len() == items.len()
            && (0 <= i < items.len() ==> resolved(items[i], outputs, runtime) == Ok::<
            JsonModel,
            Seq<char>,
        >(values[i])),
        members_resolved(members, outputs, runtime) matches Ok(values) ==> values.len()
            == members.len() && (0 <= i < members.len() ==> values[i].key == members[i].key
            && resolved(members[i].value, outputs, runtime) == Ok::<JsonModel, Seq<char>>(
            values[i].value,
        )),
    decreases items.len() + members.len(),
{
    let head = if items.len() > 0 {
        items.drop_last()
    } else {
        items
    };
    let rest = if members.len() > 0 {
        members.drop_last()
    } else {
        members
    };
    if items.len() > 0 || members.len() > 0 {
        law_arguments_are_filled_in_by_parts(head, rest, outputs, runtime, i);
        if 0 <= i < head.len() {
            assert(head[i] == items[i]);
        }
        if 0 <= i < rest.len() {
            assert(rest[i] == members[i]);
        }
    }
}

/// A tool that reports an error or a failure has failed; what it leaves open is unknown.
pub proof fn law_outcome_is_the_reported_one(content: JsonModel, is_error: bool)
    ensures
        declared_outcome(content, is_error) == ToolOutcome::Failed <==> is_error || text_at(
            content,
            "outcome"@,
        ) == Some("failed"@),
        declared_outcome(content, false) == ToolOutcome::Unknown <==> text_at(content, "outcome"@)
            == Some("unknown"@),
        text_at(content, "outcome"@) is None ==> declared_outcome(content, false)
            == ToolOutcome::Success,
{
    reveal_strlit("failed");
    reveal_strlit("unknown");
    assert("failed"@.len() != "unknown"@.len());
}

/// Arguments that do not fit the schema of a tool are never accepted; those that do are.
pub proof fn law_arguments_fit_the_schema(definition: DefinitionModel, arguments: JsonModel)
    ensures
        arguments_error(definition, arguments) is None <==> arguments is Object && schema_verdict(
            json_text(definition.input_schema),
            json_text(arguments),
        ) == SchemaVerdict::Valid,
{
}

/// A plan is read step by step, in order.
pub proof fn law_steps_are_read_in_order(items: Seq<JsonModel>, i: int)
    ensures
        steps_in(items) matches Some(steps) ==> steps.len() == items.len() && (0 <= i < items.len()
            ==> step_in(items[i]) == Some(steps[i])),
    decreases items.len(),
{
    if items.len() > 0 {
        law_steps_are_read_in_order(items.drop_last(), i);
    }
}

/// A step has the name, the tool and the arguments that its members say.
pub proof fn law_step_is_read_from_its_members(value: JsonModel)
    requires
        value is Object,
    ensures
        step_in(value) matches Some(step) ==> {
            &&& text_at(value, "id"@) == Some(step.id)
            &&& text_at(value, "tool"@) == Some(step.tool)
            &&& member_of(value, "arguments"@) == Some(step.arguments)
            &&& step.capture_output <==> member_of(value, "capture_output"@) == Some(
                JsonModel::Bool(true),
            )
        },
{
}

/// A tool is found by its name.
pub proof fn law_tool_is_found_by_name(definitions: Seq<DefinitionModel>, name: Seq<char>)
    requires
        has_tool(definitions, name),
    ensures
        tool_index(definitions, name) < definitions.len(),
        definitions[tool_index(definitions, name) as int].name == name,
{
    lemma_tool_index(definitions, name);
}

/// A call that failed is answered with an error that says why.
pub proof fn law_failed_call_says_why(call_id: Seq<char>, message: Seq<char>)
    ensures
        failed_result(call_id, message).call_id == call_id,
        failed_result(call_id, message).is_error,
        failed_result(call_id, message).outcome == ToolOutcome::Failed,
        text_at(failed_result(call_id, message).content, "error"@) == Some(message),
{
    let members = seq![field("error"@, JsonModel::Text(message))];
    assert(members[0].key == "error"@);
    law_member_is_found(members, 0);
}

/// The schema of a step asks for its name, its tool and its arguments, and allows nothing else.
pub proof fn law_step_schema_asks_for_all_parts()
    ensures
        member_of(step_schema(), "additionalProperties"@) == Some(JsonModel::Bool(false)),
        text_at(step_schema(), "type"@) == Some("object"@),
        array_at(step_schema(), "required"@) == Some(
            seq![
                JsonModel::Text("id"@),
                JsonModel::Text("tool"@),
                JsonModel::Text("arguments"@),
            ],
        ),
{
    reveal_strlit("additionalProperties");
    reveal_strlit("properties");
    reveal_strlit("required");
    reveal_strlit("type");
    assert("additionalProperties"@.len() == 20 && "properties"@.len() == 10 && "required"@.len()
        == 8 && "type"@.len() == 4);
    let members = step_schema()->Object_0;
    assert(members[0].key == "additionalProperties"@ && members[1].key == "properties"@
        && members[2].key == "required"@ && members[3].key == "type"@);
    law_member_is_found(members, 0);
    law_member_is_found(members, 2);
    law_member_is_found(members, 3);
}

/// A plan is accepted only with a name and with one to eight steps, each with a name of its own and a
/// tool that is offered; where the steps are in order, nothing else is asked of it.
pub proof fn law_accepted_plans_are_named_and_short(
    plan: PlanModel,
    definitions: Seq<DefinitionModel>,
    i: int,
)
    ensures
        plan_error(plan, definitions) is None ==> trim(plan.name).len() > 0 && 1 <= plan.steps.len()
            <= 8,
        plan_error(plan, definitions) is None && 0 <= i < plan.steps.len() ==> trim(
            plan.steps[i].id,
        ).len() > 0 && has_tool(definitions, plan.steps[i].tool) && plan.steps[i].tool
            != PIPELINE_TOOL_NAME@ && plan.steps[i].arguments is Object,
        trim(plan.name).len() > 0 && 1 <= plan.steps.len() <= 8 && steps_error(
            plan.steps,
            definitions,
        ) is None ==> plan_error(plan, definitions) is None,
{
    if plan_error(plan, definitions) is None && 0 <= i < plan.steps.len() {
        lemma_checked_step(plan.steps, definitions, i);
    }
}

} // verus!
