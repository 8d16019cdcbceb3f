//! Running a plan: which tool is called next with what, and what is recorded of each step.

use vstd::prelude::*;

use crate::config::server_id_error;
use crate::json::{
    array_at, array_of, field, json_str, law_member_is_found, law_missing_member_is_not_found,
    member, member_of, object_of, text_at, Json, JsonModel, Member, MemberModel,
};
use crate::numbers::{decimal, decimal_text, size_text};
use crate::text::{
    chars_of, find_chars, find_part, has_part, lemma_find_part, lemma_views_push, occurs_at,
    text_of, view_option, views,
};
use crate::tools::{
    arguments_error, failed_result, find_tool, has_tool, mcp_tool_timeout, outcome_name, plan_error,
    resolve_pipeline_arguments_with_runtime, resolved, tool_failure, tool_index,
    validate_pipeline_plan, validate_tool_arguments, CallModel, DefinitionModel, PipelinePlan,
    PipelineStep, PlanModel, StepModel, ToolCall, ToolDefinition, ToolOutcome, ToolResult,
    ToolResultModel, GITHUB_ACTIVITY_TIMEOUT_MS,
};

verus! {

broadcast use lemma_views_push;

// Names of tools.

/// The public name of a tool of a server.
pub open spec fn qualified_name(server: Seq<char>, tool: Seq<char>) -> Seq<char> {
    server + "__"@ + tool
}

/// The public name of a tool of a server.
pub fn qualify_tool_name(server_id: &str, tool_name: &str) -> (r: String)
    ensures
        r@ == qualified_name(server_id@, tool_name@),
{
    server_id.to_owned().concat("__").concat(tool_name)
}

/// The server and the name of a tool, taken from its public name.
pub open spec fn identity_of(tool: Seq<char>) -> (Option<Seq<char>>, Seq<char>) {
    match find_part(tool, "__"@, 0) {
        Some(at) => (Some(tool.take(at)), tool.skip(at + "__"@.len())),
        None => (None, tool),
    }
}

/// The server and the name of a tool, taken from its public name.
pub fn identity(tool: &str) -> (r: (Option<String>, String))
    ensures
        (view_option(r.0), r.1@) == identity_of(tool@),
{
    let chars = chars_of(tool);
    let total: usize = chars.len();
    let mark = chars_of("__");
    match find_chars(chars.as_slice(), mark.as_slice(), 0) {
        Some(at) => {
            let server = text_of(chars.as_slice(), 0, at);
            let native = text_of(chars.as_slice(), at + mark.len(), total);
            proof {
                assert(server@ =~= tool@.take(at as int));
                assert(native@ =~= tool@.skip(at + "__"@.len()));
            }
            (Some(server), native)
        },
        None => (None, tool.to_owned()),
    }
}

/// The public name of a tool leads back to its server and its name. The identifier of the server
/// has to be valid and not to end with an underscore.
pub proof fn law_qualified_name_is_unambiguous(server: Seq<char>, tool: Seq<char>)
    requires
        server_id_error(server) is None,
        server.last() != '_',
    ensures
        identity_of(qualified_name(server, tool)) == (Some(server), tool),
{
    let name = qualified_name(server, tool);
    let mark = "__"@;
    reveal_strlit("__");
    lemma_find_part(name, mark, 0);
    let n = server.len() as int;
    assert(name.subrange(n, n + 2) =~= mark);
    assert(occurs_at(name, mark, n));
    assert forall|k: int| 0 <= k < n implies !occurs_at(name, mark, k) by {
        if occurs_at(name, mark, k) {
            assert(name.subrange(k, k + 2)[0] == '_');
            assert(name.subrange(k, k + 2)[1] == '_');
            assert(name[k] == '_' && name[k + 1] == '_');
            assert(name[k] == server[k]);
            if k + 1 < n {
                assert(name[k + 1] == server[k + 1]);
                assert(server.subrange(k, k + 2) =~= mark);
                assert(occurs_at(server, mark, k));
                assert(has_part(server, mark));
            } else {
                assert(server.last() == '_');
            }
        }
    }
    let at = find_part(name, mark, 0)->Some_0;
    assert(at == n);
    assert(name.take(n) =~= server);
    assert(name.skip(n + 2) =~= tool);
}

// Records of steps.

/// How a plan ended.
#[derive(Debug, Clone, Copy, PartialEq, Eq, Structural)]
pub enum PipelineStatus {
    Succeeded,
    Failed,
    Cancelled,
    Unknown,
}

/// How a step of a plan ended.
#[derive(Debug, Clone, Copy, PartialEq, Eq, Structural)]
pub enum PipelineStepStatus {
    Succeeded,
    Failed,
    Cancelled,
    Skipped,
    Unknown,
}

/// The name of how a plan ended.
pub open spec fn plan_status_name(status: PipelineStatus) -> Seq<char> {
    match status {
        PipelineStatus::Succeeded => "succeeded"@,
        PipelineStatus::Failed => "failed"@,
        PipelineStatus::Cancelled => "cancelled"@,
        PipelineStatus::Unknown => "unknown"@,
    }
}

/// The name of how a step ended.
pub open spec fn step_status_name(status: PipelineStepStatus) -> Seq<char> {
    match status {
        PipelineStepStatus::Succeeded => "succeeded"@,
        PipelineStepStatus::Failed => "failed"@,
        PipelineStepStatus::Cancelled => "cancelled"@,
        PipelineStepStatus::Skipped => "skipped"@,
        PipelineStepStatus::Unknown => "unknown"@,
    }
}

impl PipelineStatus {
    /// The name of how a plan ended.
    pub fn name(self) -> (r: &'static str)
        ensures
            r@ == plan_status_name(self),
    {
        match self {
            PipelineStatus::Succeeded => "succeeded",
            PipelineStatus::Failed => "failed",
            PipelineStatus::Cancelled => "cancelled",
            PipelineStatus::Unknown => "unknown",
        }
    }
}

impl PipelineStepStatus {
    /// The name of how a step ended.
    pub fn name(self) -> (r: &'static str)
        ensures
            r@ == step_status_name(self),
    {
        match self {
            PipelineStepStatus::Succeeded => "succeeded",
            PipelineStepStatus::Failed => "failed",
            PipelineStepStatus::Cancelled => "cancelled",
            PipelineStepStatus::Skipped => "skipped",
            PipelineStepStatus::Unknown => "unknown",
        }
    }
}

/// What is recorded of a step.
#[derive(Debug, PartialEq, Eq)]
pub struct PipelineStepTrace {
    pub ordinal: usize,
    pub id: String,
    pub tool: String,
    pub server_id: Option<String>,
    pub native_tool: String,
    pub status: PipelineStepStatus,
    pub outcome: ToolOutcome,
    pub duration_ms: u64,
    pub arguments: Json,
    pub output: Option<Json>,
    pub error: Option<String>,
    pub state_changed: bool,
}

/// What is recorded of a step, mathematically.
pub ghost struct StepTraceModel {
    pub ordinal: usize,
    pub id: Seq<char>,
    pub tool: Seq<char>,
    pub server_id: Option<Seq<char>>,
    pub native_tool: Seq<char>,
    pub status: PipelineStepStatus,
    pub outcome: ToolOutcome,
    pub duration_ms: u64,
    pub arguments: JsonModel,
    pub output: Option<JsonModel>,
    pub error: Option<Seq<char>>,
    pub state_changed: bool,
}

impl View for PipelineStepTrace {
    type V = StepTraceModel;

    open spec fn view(&self) -> StepTraceModel {
        StepTraceModel {
            ordinal: self.ordinal,
            id: self.id@,
            tool: self.tool@,
            server_id: view_option(self.server_id),
            native_tool: self.native_tool@,
            status: self.status,
            outcome: self.outcome,
            duration_ms: self.duration_ms,
            arguments: self.arguments@,
            output: view_option(self.output),
            error: view_option(self.error),
            state_changed: self.state_changed,
        }
    }
}

/// What is recorded of a plan.
#[derive(Debug, PartialEq, Eq)]
pub struct PipelineTrace {
    pub name: String,
    pub status: PipelineStatus,
    pub steps: Vec<PipelineStepTrace>,
    pub error: Option<String>,
}

/// What is recorded of a plan, mathematically.
pub ghost struct TraceModel {
    pub name: Seq<char>,
    pub status: PipelineStatus,
    pub steps: Seq<StepTraceModel>,
    pub error: Option<Seq<char>>,
}

impl View for PipelineTrace {
    type V = TraceModel;

    open spec fn view(&self) -> TraceModel {
        TraceModel {
            name: self.name@,
            status: self.status,
            steps: views(self.steps@),
            error: view_option(self.error),
        }
    }
}

/// An optional member of an object.
pub open spec fn optional_text(key: Seq<char>, value: Option<Seq<char>>) -> Seq<MemberModel> {
    match value {
        Some(text) => seq![field(key, JsonModel::Text(text))],
        None => Seq::empty(),
    }
}

/// An optional member of an object.
pub open spec fn optional_value(key: Seq<char>, value: Option<JsonModel>) -> Seq<MemberModel> {
    match value {
        Some(value) => seq![field(key, value)],
        None => Seq::empty(),
    }
}

/// The members of the record of a step up to its error.
pub open spec fn step_json_start(t: StepTraceModel) -> Seq<MemberModel> {
    seq![
        field("arguments"@, t.arguments),
        field("duration_ms"@, JsonModel::Number(decimal(t.duration_ms as nat))),
    ]
}

/// The members of the record of a step between its error and its result.
pub open spec fn step_json_middle(t: StepTraceModel) -> Seq<MemberModel> {
    seq![
        field("id"@, JsonModel::Text(t.id)),
        field("native_tool"@, JsonModel::Text(t.native_tool)),
        field("ordinal"@, JsonModel::Number(decimal(t.ordinal as nat))),
        field("outcome"@, JsonModel::Text(outcome_name(t.outcome))),
    ]
}

/// The members of the record of a step behind its result.
pub open spec fn step_json_end(t: StepTraceModel) -> Seq<MemberModel> {
    seq![
        field(
            "server_id"@,
            match t.server_id {
                Some(id) => JsonModel::Text(id),
                None => JsonModel::Null,
            },
        ),
        field("state_changed"@, JsonModel::Bool(t.state_changed)),
        field("status"@, JsonModel::Text(step_status_name(t.status))),
        field("tool"@, JsonModel::Text(t.tool)),
    ]
}

/// The JSON object of what is recorded of a step.
pub open spec fn step_json(t: StepTraceModel) -> JsonModel {
    JsonModel::Object(
        step_json_start(t) + optional_text("error"@, t.error) + step_json_middle(t)
            + optional_value("output"@, t.output) + step_json_end(t),
    )
}

/// The JSON objects of what is recorded of the steps.
pub open spec fn steps_json(steps: Seq<StepTraceModel>) -> Seq<JsonModel> {
    Seq::new(steps.len(), |i: int| step_json(steps[i]))
}

/// The JSON object of what is recorded of a plan.
pub open spec fn trace_json(t: TraceModel) -> JsonModel {
    JsonModel::Object(
        optional_text("error"@, t.error) + seq![
            field("name"@, JsonModel::Text(t.name)),
            field("status"@, JsonModel::Text(plan_status_name(t.status))),
            field("steps"@, JsonModel::Array(steps_json(t.steps))),
        ],
    )
}

fn push_text(members: &mut Vec<Member>, key: &str, value: &Option<String>)
    ensures
        views(final(members)@) == views(old(members)@) + optional_text(key@, view_option(*value)),
{
    let ghost before = views(members@);
    match value {
        Some(text) => {
            members.push(member(key, json_str(text.as_str())));
            proof {
                assert(views(members@) =~= before + seq![field(key@, JsonModel::Text(text@))]);
            }
        },
        None => {
            proof {
                assert(before + Seq::<MemberModel>::empty() =~= before);
            }
        },
    }
}

fn write_step(t: &PipelineStepTrace) -> (r: Json)
    ensures
        r@ == step_json(t@),
{
    let mut members: Vec<Member> = Vec::new();
    members.push(member("arguments", t.arguments.copy()));
    members.push(member("duration_ms", Json::Number(decimal_text(t.duration_ms))));
    let ghost first = step_json_start(t@);
    proof {
        assert(views(members@) =~= first);
    }
    push_text(&mut members, "error", &t.error);
    let ghost second = first + optional_text("error"@, t@.error);
    members.push(member("id", json_str(t.id.as_str())));
    members.push(member("native_tool", json_str(t.native_tool.as_str())));
    members.push(member("ordinal", Json::Number(size_text(t.ordinal))));
    members.push(member("outcome", json_str(t.outcome.name())));
    let ghost third = second + step_json_middle(t@);
    proof {
        assert(views(members@) =~= third);
    }
    if let Some(output) = &t.output {
        members.push(member("output", output.copy()));
    }
    let ghost fourth = third + optional_value("output"@, t@.output);
    proof {
        assert(views(members@) =~= fourth);
    }
    let server = match &t.server_id {
        Some(id) => json_str(id.as_str()),
        None => Json::Null,
    };
    members.push(member("server_id", server));
    members.push(member("state_changed", Json::Bool(t.state_changed)));
    members.push(member("status", json_str(t.status.name())));
    members.push(member("tool", json_str(t.tool.as_str())));
    proof {
        assert(views(members@) =~= fourth + step_json_end(t@));
    }
    object_of(members)
}

/// The JSON object of what is recorded of a plan.
pub fn write_trace(trace: &PipelineTrace) -> (r: Json)
    ensures
        r@ == trace_json(trace@),
{
    let ghost model = views(trace.steps@);
    let mut steps: Vec<Json> = Vec::new();
    let mut i: usize = 0;
    while i < trace.steps.len()
        invariant
            i <= trace.steps@.len(),
            model == views(trace.steps@),
            views(steps@) == steps_json(model).take(i as int),
        decreases trace.steps.len() - i,
    {
        let step = write_step(&trace.steps[i]);
        proof {
            assert(steps_json(model).take(i as int).push(step@) =~= steps_json(model).take(i + 1));
        }
        steps.push(step);
        i += 1;
    }
    proof {
        assert(steps_json(model).take(i as int) =~= steps_json(model));
    }
    let mut members: Vec<Member> = Vec::new();
    push_text(&mut members, "error", &trace.error);
    members.push(member("name", json_str(trace.name.as_str())));
    members.push(member("status", json_str(trace.status.name())));
    members.push(member("steps", array_of(steps)));
    proof {
        assert(views(members@) =~= trace_json(trace@)->Object_0);
    }
    object_of(members)
}

/// The outcome of a plan.
pub open spec fn plan_outcome(status: PipelineStatus) -> ToolOutcome {
    match status {
        PipelineStatus::Succeeded => ToolOutcome::Success,
        PipelineStatus::Unknown => ToolOutcome::Unknown,
        _ => ToolOutcome::Failed,
    }
}

/// The result of the call that runs a plan.
pub open spec fn plan_result(call_id: Seq<char>, trace: TraceModel) -> ToolResultModel {
    ToolResultModel {
        call_id,
        content: trace_json(trace),
        is_error: plan_outcome(trace.status) != ToolOutcome::Success,
        outcome: plan_outcome(trace.status),
    }
}

/// The result of the call that runs a plan.
pub fn pipeline_result(call_id: &str, trace: &PipelineTrace) -> (r: ToolResult)
    ensures
        r@ == plan_result(call_id@, trace@),
{
    let outcome = match trace.status {
        PipelineStatus::Succeeded => ToolOutcome::Success,
        PipelineStatus::Unknown => ToolOutcome::Unknown,
        PipelineStatus::Failed => ToolOutcome::Failed,
        PipelineStatus::Cancelled => ToolOutcome::Failed,
    };
    ToolResult {
        call_id: call_id.to_owned(),
        content: write_trace(trace),
        is_error: outcome != ToolOutcome::Success,
        outcome,
    }
}

// The run of a plan.

/// A plan that is being run.
#[derive(Debug, PartialEq, Eq)]
pub struct PipelineRun {
    pub call_id: String,
    pub plan: PipelinePlan,
    pub outputs: Vec<(String, Json)>,
    pub traces: Vec<PipelineStepTrace>,
    pub arguments: Json,
}

/// A plan that is being run, mathematically. The next step is the one behind those recorded.
pub ghost struct RunModel {
    pub call_id: Seq<char>,
    pub plan: PlanModel,
    pub outputs: Seq<(Seq<char>, JsonModel)>,
    pub traces: Seq<StepTraceModel>,
    pub arguments: JsonModel,
}

impl View for PipelineRun {
    type V = RunModel;

    open spec fn view(&self) -> RunModel {
        RunModel {
            call_id: self.call_id@,
            plan: self.plan@,
            outputs: views(self.outputs@),
            traces: views(self.traces@),
            arguments: self.arguments@,
        }
    }
}

/// What comes next: the user is asked to allow a call, a call is made, or the plan is over.
#[derive(Debug, PartialEq, Eq)]
pub enum PipelineAction {
    Authorize(ToolCall),
    Execute(ToolCall, u64),
    Finished(PipelineTrace),
}

/// What comes next, mathematically.
pub ghost enum ActionModel {
    Authorize(CallModel),
    Execute(CallModel, u64),
    Finished(TraceModel),
}

impl View for PipelineAction {
    type V = ActionModel;

    open spec fn view(&self) -> ActionModel {
        match self {
            PipelineAction::Authorize(call) => ActionModel::Authorize(call@),
            PipelineAction::Execute(call, timeout) => ActionModel::Execute(call@, *timeout),
            PipelineAction::Finished(trace) => ActionModel::Finished(trace@),
        }
    }
}

/// The record of a step.
pub open spec fn step_record(
    ordinal: usize,
    step: StepModel,
    status: PipelineStepStatus,
    outcome: ToolOutcome,
    duration_ms: u64,
    arguments: JsonModel,
    output: Option<JsonModel>,
    error: Option<Seq<char>>,
    state_changed: bool,
) -> StepTraceModel {
    StepTraceModel {
        ordinal,
        id: step.id,
        tool: step.tool,
        server_id: identity_of(step.tool).0,
        native_tool: identity_of(step.tool).1,
        status,
        outcome,
        duration_ms,
        arguments,
        output,
        error,
        state_changed,
    }
}

/// The records of the steps that were not reached.
pub open spec fn skipped(plan: PlanModel, from: int) -> Seq<StepTraceModel> {
    Seq::new(
        (plan.steps.len() - from) as nat,
        |i: int|
            step_record(
                (from + i + 1) as usize,
                plan.steps[from + i],
                PipelineStepStatus::Skipped,
                ToolOutcome::Failed,
                0,
                plan.steps[from + i].arguments,
                None,
                None,
                false,
            ),
    )
}

/// The record of a plan that is over: the steps behind those recorded were not reached.
pub open spec fn ended(run: RunModel, status: PipelineStatus, error: Option<Seq<char>>) -> TraceModel {
    TraceModel {
        name: run.plan.name,
        status,
        steps: run.traces + skipped(run.plan, run.traces.len() as int),
        error,
    }
}

/// The run with the record of one more step.
pub open spec fn with_record(run: RunModel, record: StepTraceModel) -> RunModel {
    RunModel { traces: run.traces.push(record), ..run }
}

/// The record of the next step, without a result.
pub open spec fn plain_record(
    run: RunModel,
    status: PipelineStepStatus,
    arguments: JsonModel,
    error: Seq<char>,
) -> StepTraceModel {
    step_record(
        (run.traces.len() + 1) as usize,
        run.plan.steps[run.traces.len() as int],
        status,
        ToolOutcome::Failed,
        0,
        arguments,
        None,
        Some(error),
        false,
    )
}

/// The run that ends with the record of the next step.
pub open spec fn ended_at(
    run: RunModel,
    record: StepTraceModel,
    status: PipelineStatus,
    error: Seq<char>,
) -> (RunModel, ActionModel) {
    let after = with_record(run, record);
    (after, ActionModel::Finished(ended(after, status, Some(error))))
}

/// The call of the next step.
pub open spec fn step_call(run: RunModel, arguments: JsonModel) -> CallModel {
    let step = run.plan.steps[run.traces.len() as int];
    CallModel { id: run.call_id + ":"@ + step.id, name: step.tool, arguments }
}

/// What comes next in a run: the next step is prepared, or the plan is over.
pub open spec fn prepared(
    run: RunModel,
    definitions: Seq<DefinitionModel>,
    runtime: JsonModel,
) -> (RunModel, ActionModel) {
    let at = run.traces.len() as int;
    if at >= run.plan.steps.len() {
        (run, ActionModel::Finished(ended(run, PipelineStatus::Succeeded, None)))
    } else {
        let step = run.plan.steps[at];
        if !has_tool(definitions, step.tool) {
            (
                run,
                ActionModel::Finished(
                    ended(
                        run,
                        PipelineStatus::Failed,
                        Some("MCP-инструмент «"@ + step.tool + "» не разрешён"@),
                    ),
                ),
            )
        } else {
            match resolved(step.arguments, run.outputs, runtime) {
                Err(message) => ended_at(
                    run,
                    plain_record(run, PipelineStepStatus::Failed, step.arguments, message),
                    PipelineStatus::Failed,
                    "не удалось подготовить шаг «"@ + step.id + "»"@,
                ),
                Ok(arguments) => match arguments_error(
                    definitions[tool_index(definitions, step.tool) as int],
                    arguments,
                ) {
                    Some(message) => ended_at(
                        run,
                        plain_record(run, PipelineStepStatus::Failed, arguments, message),
                        PipelineStatus::Failed,
                        "аргументы шага «"@ + step.id + "» не прошли проверку"@,
                    ),
                    None => (
                        RunModel { arguments, ..run },
                        ActionModel::Authorize(step_call(run, arguments)),
                    ),
                },
            }
        }
    }
}

/// The beginning of a run.
pub open spec fn new_run(call_id: Seq<char>, plan: PlanModel) -> RunModel {
    RunModel {
        call_id,
        plan,
        outputs: Seq::empty(),
        traces: Seq::empty(),
        arguments: JsonModel::Null,
    }
}

/// What comes first: the plan is checked, and its first step is prepared.
pub open spec fn run_started(
    call_id: Seq<char>,
    plan: PlanModel,
    definitions: Seq<DefinitionModel>,
    runtime: JsonModel,
) -> (RunModel, ActionModel) {
    let run = new_run(call_id, plan);
    match plan_error(plan, definitions) {
        Some(message) => (
            run,
            ActionModel::Finished(ended(run, PipelineStatus::Failed, Some(message))),
        ),
        None => prepared(run, definitions, runtime),
    }
}

/// What comes after the user was asked whether the next call is allowed.
pub open spec fn run_authorized(
    run: RunModel,
    answer: Result<bool, Seq<char>>,
    default_timeout: u64,
) -> (RunModel, ActionModel) {
    let step = run.plan.steps[run.traces.len() as int];
    match answer {
        Ok(true) => (
            run,
            ActionModel::Execute(
                step_call(run, run.arguments),
                if step.tool == "github_project_activity"@ && default_timeout
                    < GITHUB_ACTIVITY_TIMEOUT_MS {
                    GITHUB_ACTIVITY_TIMEOUT_MS
                } else {
                    default_timeout
                },
            ),
        ),
        Ok(false) => ended_at(
            run,
            plain_record(
                run,
                PipelineStepStatus::Cancelled,
                run.arguments,
                "действие отменено пользователем"@,
            ),
            PipelineStatus::Cancelled,
            "пайплайн отменён пользователем"@,
        ),
        Err(message) => ended_at(
            run,
            plain_record(run, PipelineStepStatus::Failed, run.arguments, message),
            PipelineStatus::Failed,
            "проверка шага «"@ + step.id + "» завершилась ошибкой"@,
        ),
    }
}

/// Whether a result confirms that the call succeeded.
pub open spec fn confirms(result: ToolResultModel) -> bool {
    result.outcome == ToolOutcome::Success && !result.is_error
}

/// Whether a successful call of a tool changes anything.
pub open spec fn changes_state(definitions: Seq<DefinitionModel>, tool: Seq<char>) -> bool {
    has_tool(definitions, tool) && !definitions[tool_index(definitions, tool) as int].read_only
}

/// The record of the step whose call has a result.
pub open spec fn result_record(
    run: RunModel,
    definitions: Seq<DefinitionModel>,
    result: ToolResultModel,
    elapsed_ms: u64,
) -> StepTraceModel {
    let step = run.plan.steps[run.traces.len() as int];
    let ordinal = (run.traces.len() + 1) as usize;
    if confirms(result) {
        step_record(
            ordinal,
            step,
            PipelineStepStatus::Succeeded,
            result.outcome,
            elapsed_ms,
            run.arguments,
            Some(result.content),
            None,
            changes_state(definitions, step.tool),
        )
    } else {
        step_record(
            ordinal,
            step,
            if result.outcome == ToolOutcome::Unknown {
                PipelineStepStatus::Unknown
            } else {
                PipelineStepStatus::Failed
            },
            result.outcome,
            elapsed_ms,
            run.arguments,
            Some(result.content),
            Some("MCP-инструмент не подтвердил успех"@),
            false,
        )
    }
}

/// What comes after a call: the next step, or the end where success is not confirmed.
pub open spec fn run_executed(
    run: RunModel,
    definitions: Seq<DefinitionModel>,
    runtime: JsonModel,
    result: ToolResultModel,
    elapsed_ms: u64,
) -> (RunModel, ActionModel) {
    let step = run.plan.steps[run.traces.len() as int];
    let record = result_record(run, definitions, result, elapsed_ms);
    if confirms(result) {
        prepared(
            RunModel {
                outputs: run.outputs.push((step.id, result.content)),
                ..with_record(run, record)
            },
            definitions,
            runtime,
        )
    } else {
        ended_at(
            run,
            record,
            if result.outcome == ToolOutcome::Unknown {
                PipelineStatus::Unknown
            } else {
                PipelineStatus::Failed
            },
            "шаг «"@ + step.id + "» завершился без подтверждённого успеха"@,
        )
    }
}

fn make_record(
    ordinal: usize,
    step: &PipelineStep,
    status: PipelineStepStatus,
    outcome: ToolOutcome,
    duration_ms: u64,
    arguments: Json,
    output: Option<Json>,
    error: Option<String>,
    state_changed: bool,
) -> (r: PipelineStepTrace)
    ensures
        r@ == step_record(
            ordinal,
            step@,
            status,
            outcome,
            duration_ms,
            arguments@,
            view_option(output),
            view_option(error),
            state_changed,
        ),
{
    let (server_id, native_tool) = identity(step.tool.as_str());
    PipelineStepTrace {
        ordinal,
        id: step.id.clone(),
        tool: step.tool.clone(),
        server_id,
        native_tool,
        status,
        outcome,
        duration_ms,
        arguments,
        output,
        error,
        state_changed,
    }
}

impl PipelineRun {
    /// A step is left to be recorded, and a call of it can be made.
    pub open spec fn waits(&self) -> bool {
        self.traces@.len() < self.plan.steps@.len()
    }

    /// No more steps are recorded than there are.
    pub open spec fn wf(&self) -> bool {
        self.traces@.len() <= self.plan.steps@.len()
    }

    fn end(&mut self, status: PipelineStatus, error: Option<String>) -> (r: PipelineAction)
        requires
            old(self).wf(),
        ensures
            final(self)@ == old(self)@,
            final(self).wf(),
            r@ == ActionModel::Finished(ended(old(self)@, status, view_option(error))),
    {
        let ghost start = self@;
        let from = self.traces.len();
        let ghost all = start.traces + skipped(start.plan, from as int);
        let mut steps: Vec<PipelineStepTrace> = Vec::new();
        let mut i: usize = 0;
        while i < from
            invariant
                i <= from,
                from == self.traces@.len(),
                start == self@,
                self.wf(),
                all == start.traces + skipped(start.plan, from as int),
                views(steps@) == all.take(i as int),
            decreases from - i,
        {
            let copy = copy_record(&self.traces[i]);
            proof {
                assert(all.take(i as int).push(copy@) =~= all.take(i + 1));
            }
            steps.push(copy);
            i += 1;
        }
        while i < self.plan.steps.len()
            invariant
                from <= i <= self.plan.steps@.len(),
                from == self.traces@.len(),
                start == self@,
                self.wf(),
                all == start.traces + skipped(start.plan, from as int),
                views(steps@) == all.take(i as int),
            decreases self.plan.steps.len() - i,
        {
            let step = &self.plan.steps[i];
            let record = make_record(
                i + 1,
                step,
                PipelineStepStatus::Skipped,
                ToolOutcome::Failed,
                0,
                step.arguments.copy(),
                None,
                None,
                false,
            );
            proof {
                assert(all[i as int] == record@);
                assert(all.take(i as int).push(record@) =~= all.take(i + 1));
            }
            steps.push(record);
            i += 1;
        }
        proof {
            assert(all.take(i as int) =~= all);
        }
        PipelineAction::Finished(
            PipelineTrace { name: self.plan.name.clone(), status, steps, error },
        )
    }

    fn end_at(&mut self, record: PipelineStepTrace, status: PipelineStatus, error: String) -> (r:
        PipelineAction)
        requires
            old(self).waits(),
        ensures
            final(self).wf(),
            (final(self)@, r@) == ended_at(old(self)@, record@, status, error@),
    {
        self.traces.push(record);
        self.end(status, Some(error))
    }

    fn record_plain(&self, status: PipelineStepStatus, arguments: Json, error: String) -> (r:
        PipelineStepTrace)
        requires
            self.waits(),
        ensures
            r@ == plain_record(self@, status, arguments@, error@),
    {
        let at = self.traces.len();
        let total: usize = self.plan.steps.len();
        proof {
            assert(at < total);
        }
        make_record(
            at + 1,
            &self.plan.steps[at],
            status,
            ToolOutcome::Failed,
            0,
            arguments,
            None,
            Some(error),
            false,
        )
    }

    fn make_call(&self, arguments: Json) -> (r: ToolCall)
        requires
            self.waits(),
        ensures
            r@ == step_call(self@, arguments@),
    {
        let step = &self.plan.steps[self.traces.len()];
        ToolCall {
            id: self.call_id.clone().concat(":").concat(step.id.as_str()),
            name: step.tool.clone(),
            arguments,
        }
    }

    fn prepare(&mut self, definitions: &Vec<ToolDefinition>, runtime: &Json) -> (r: PipelineAction)
        requires
            old(self).wf(),
        ensures
            final(self).wf(),
            (final(self)@, r@) == prepared(old(self)@, views(definitions@), runtime@),
            !(r is Finished) ==> final(self).waits(),
    {
        let at = self.traces.len();
        if at >= self.plan.steps.len() {
            return self.end(PipelineStatus::Succeeded, None);
        }
        let id = self.plan.steps[at].id.clone();
        let tool = self.plan.steps[at].tool.clone();
        let found = match find_tool(definitions, tool.as_str()) {
            Some(found) => found,
            None => {
                let message = "MCP-инструмент «".to_owned().concat(tool.as_str()).concat(
                    "» не разрешён",
                );
                return self.end(PipelineStatus::Failed, Some(message));
            },
        };
        let definition = &definitions[found];
        let outcome = resolve_pipeline_arguments_with_runtime(
            &self.plan.steps[at].arguments,
            &self.outputs,
            runtime,
        );
        let arguments = match outcome {
            Ok(arguments) => arguments,
            Err(message) => {
                let given = self.plan.steps[at].arguments.copy();
                let record = self.record_plain(PipelineStepStatus::Failed, given, message);
                return self.end_at(
                    record,
                    PipelineStatus::Failed,
                    "не удалось подготовить шаг «".to_owned().concat(id.as_str()).concat("»"),
                );
            },
        };
        if let Err(message) = validate_tool_arguments(definition, &arguments) {
            let record = self.record_plain(PipelineStepStatus::Failed, arguments, message);
            return self.end_at(
                record,
                PipelineStatus::Failed,
                "аргументы шага «".to_owned().concat(id.as_str()).concat("» не прошли проверку"),
            );
        }
        let call = self.make_call(arguments.copy());
        self.arguments = arguments;
        PipelineAction::Authorize(call)
    }

    /// Starts to run a plan.
    pub fn start(
        call_id: &str,
        plan: PipelinePlan,
        definitions: &Vec<ToolDefinition>,
        runtime: &Json,
    ) -> (r: (PipelineRun, PipelineAction))
        ensures
            r.0.wf(),
            (r.0@, r.1@) == run_started(call_id@, plan@, views(definitions@), runtime@),
            !(r.1 is Finished) ==> r.0.waits(),
    {
        let mut run = PipelineRun {
            call_id: call_id.to_owned(),
            plan,
            outputs: Vec::new(),
            traces: Vec::new(),
            arguments: Json::Null,
        };
        proof {
            assert(run@.outputs =~= Seq::empty());
            assert(run@.traces =~= Seq::empty());
        }
        if let Err(message) = validate_pipeline_plan(&run.plan, definitions) {
            let action = run.end(PipelineStatus::Failed, Some(message));
            return (run, action);
        }
        let action = run.prepare(definitions, runtime);
        (run, action)
    }

    /// Goes on after the user was asked whether the next call is allowed.
    pub fn authorize(&mut self, answer: Result<bool, String>, default_timeout_ms: u64) -> (r:
        PipelineAction)
        requires
            old(self).waits(),
        ensures
            final(self).wf(),
            (final(self)@, r@) == run_authorized(
                old(self)@,
                match answer {
                    Ok(allowed) => Ok(allowed),
                    Err(message) => Err(message@),
                },
                default_timeout_ms,
            ),
            !(r is Finished) ==> final(self).waits(),
    {
        let at = self.traces.len();
        let arguments = self.arguments.copy();
        match answer {
            Ok(allowed) => if allowed {
                let timeout = mcp_tool_timeout(
                    self.plan.steps[at].tool.as_str(),
                    default_timeout_ms,
                );
                let call = self.make_call(arguments);
                PipelineAction::Execute(call, timeout)
            } else {
                let record = self.record_plain(
                    PipelineStepStatus::Cancelled,
                    arguments,
                    "действие отменено пользователем".to_owned(),
                );
                self.end_at(
                    record,
                    PipelineStatus::Cancelled,
                    "пайплайн отменён пользователем".to_owned(),
                )
            },
            Err(message) => {
                let error = "проверка шага «".to_owned().concat(
                    self.plan.steps[at].id.as_str(),
                ).concat("» завершилась ошибкой");
                let record = self.record_plain(PipelineStepStatus::Failed, arguments, message);
                self.end_at(record, PipelineStatus::Failed, error)
            },
        }
    }

    /// Goes on after a call.
    pub fn executed(
        &mut self,
        definitions: &Vec<ToolDefinition>,
        runtime: &Json,
        result: ToolResult,
        elapsed_ms: u64,
    ) -> (r: PipelineAction)
        requires
            old(self).waits(),
        ensures
            final(self).wf(),
            (final(self)@, r@) == run_executed(
                old(self)@,
                views(definitions@),
                runtime@,
                result@,
                elapsed_ms,
            ),
            !(r is Finished) ==> final(self).waits(),
    {
        let ghost start = self@;
        let at = self.traces.len();
        let total: usize = self.plan.steps.len();
        proof {
            assert(at < total);
        }
        let id = self.plan.steps[at].id.clone();
        let arguments = self.arguments.copy();
        if result.outcome != ToolOutcome::Success || result.is_error {
            let unknown = result.outcome == ToolOutcome::Unknown;
            let step_status = if unknown {
                PipelineStepStatus::Unknown
            } else {
                PipelineStepStatus::Failed
            };
            let status = if unknown {
                PipelineStatus::Unknown
            } else {
                PipelineStatus::Failed
            };
            let record = make_record(
                at + 1,
                &self.plan.steps[at],
                step_status,
                result.outcome,
                elapsed_ms,
                arguments,
                Some(result.content),
                Some("MCP-инструмент не подтвердил успех".to_owned()),
                false,
            );
            return self.end_at(
                record,
                status,
                "шаг «".to_owned().concat(id.as_str()).concat(
                    "» завершился без подтверждённого успеха",
                ),
            );
        }
        let state_changed = match find_tool(definitions, self.plan.steps[at].tool.as_str()) {
            Some(found) => !definitions[found].read_only,
            None => false,
        };
        let record = make_record(
            at + 1,
            &self.plan.steps[at],
            PipelineStepStatus::Succeeded,
            result.outcome,
            elapsed_ms,
            arguments,
            Some(result.content.copy()),
            None,
            state_changed,
        );
        let output = (id, result.content);
        let ghost kept = (output.0@, output.1@);
        self.outputs.push(output);
        self.traces.push(record);
        proof {
            assert(self@.outputs =~= start.outputs.push(kept));
        }
        self.prepare(definitions, runtime)
    }
}

fn copy_record(t: &PipelineStepTrace) -> (r: PipelineStepTrace)
    ensures
        r@ == t@,
{
    let server_id = match &t.server_id {
        Some(text) => Some(text.clone()),
        None => None,
    };
    let output = match &t.output {
        Some(value) => Some(value.copy()),
        None => None,
    };
    let error = match &t.error {
        Some(text) => Some(text.clone()),
        None => None,
    };
    PipelineStepTrace {
        ordinal: t.ordinal,
        id: t.id.clone(),
        tool: t.tool.clone(),
        server_id,
        native_tool: t.native_tool.clone(),
        status: t.status,
        outcome: t.outcome,
        duration_ms: t.duration_ms,
        arguments: t.arguments.copy(),
        output,
        error,
        state_changed: t.state_changed,
    }
}

/// A time in milliseconds as a number of seconds.
pub open spec fn seconds(ms: nat) -> Seq<char> {
    if ms % 1000 == 0 {
        decimal(ms / 1000)
    } else if ms % 100 == 0 {
        decimal(ms / 1000) + "."@ + decimal((ms % 1000) / 100)
    } else if ms % 10 == 0 {
        decimal(ms / 1000) + "."@ + decimal((ms % 1000) / 100) + decimal((ms % 100) / 10)
    } else {
        decimal(ms / 1000) + "."@ + decimal((ms % 1000) / 100) + decimal((ms % 100) / 10) + decimal(
            ms % 10,
        )
    }
}

fn seconds_text(ms: u64) -> (r: String)
    ensures
        r@ == seconds(ms as nat),
{
    let whole = decimal_text(ms / 1000);
    if ms % 1000 == 0 {
        return whole;
    }
    let tenths = whole.concat(".").concat(decimal_text((ms % 1000) / 100).as_str());
    if ms % 100 == 0 {
        return tenths;
    }
    let hundredths = tenths.concat(decimal_text((ms % 100) / 10).as_str());
    if ms % 10 == 0 {
        return hundredths;
    }
    hundredths.concat(decimal_text(ms % 10).as_str())
}

/// The result of a call that took too long.
pub fn timed_out_result(call_id: &str, timeout_ms: u64) -> (r: ToolResult)
    ensures
        r@ == failed_result(
            call_id@,
            "истекло время выполнения MCP-инструмента ("@ + seconds(timeout_ms as nat) + " с)"@,
        ),
{
    let message = "истекло время выполнения MCP-инструмента (".to_owned().concat(
        seconds_text(timeout_ms).as_str(),
    ).concat(" с)");
    tool_failure(call_id, message.as_str())
}

// What a run keeps.

/// What holds of a run while it goes on: every recorded step succeeded, in order, and its result is
/// kept under its number.
pub open spec fn run_in_order(run: RunModel) -> bool {
    &&& run.traces.len() <= run.plan.steps.len()
    &&& run.outputs.len() == run.traces.len()
    &&& forall|i: int|
        0 <= i < run.traces.len() ==> recorded_well(run, #[trigger] run.traces[i], i)
}

/// Whether the record of a step is that of a success at its place.
pub open spec fn recorded_well(run: RunModel, t: StepTraceModel, i: int) -> bool {
    &&& t.status == PipelineStepStatus::Succeeded
    &&& t.ordinal == i + 1
    &&& t.id == run.plan.steps[i].id
    &&& run.outputs[i] == (t.id, t.output->Some_0)
    &&& t.output is Some
}

/// A run stays in order as long as it goes on.
pub proof fn law_run_stays_in_order(
    run: RunModel,
    definitions: Seq<DefinitionModel>,
    runtime: JsonModel,
    result: ToolResultModel,
    elapsed_ms: u64,
)
    requires
        run_in_order(run),
        run.traces.len() < run.plan.steps.len(),
        run.plan.steps.len() < usize::MAX,
    ensures
        !(run_executed(run, definitions, runtime, result, elapsed_ms).1 is Finished)
            ==> run_in_order(run_executed(run, definitions, runtime, result, elapsed_ms).0),
        !(prepared(run, definitions, runtime).1 is Finished) ==> run_in_order(
            prepared(run, definitions, runtime).0,
        ),
{
    lemma_prepared_in_order(run, definitions, runtime);
    if confirms(result) {
        let step = run.plan.steps[run.traces.len() as int];
        let record = result_record(run, definitions, result, elapsed_ms);
        let next = RunModel {
            outputs: run.outputs.push((step.id, result.content)),
            ..with_record(run, record)
        };
        assert forall|i: int| 0 <= i < next.traces.len() implies recorded_well(
            next,
            #[trigger] next.traces[i],
            i,
        ) by {
            if i < run.traces.len() {
                assert(recorded_well(run, run.traces[i], i));
            }
        }
        lemma_prepared_in_order(next, definitions, runtime);
    }
}

proof fn lemma_prepared_in_order(
    run: RunModel,
    definitions: Seq<DefinitionModel>,
    runtime: JsonModel,
)
    requires
        run_in_order(run),
    ensures
        !(prepared(run, definitions, runtime).1 is Finished) ==> run_in_order(
            prepared(run, definitions, runtime).0,
        ),
{
    let next = prepared(run, definitions, runtime).0;
    if !(prepared(run, definitions, runtime).1 is Finished) {
        assert forall|i: int| 0 <= i < next.traces.len() implies recorded_well(
            next,
            #[trigger] next.traces[i],
            i,
        ) by {
            assert(recorded_well(run, run.traces[i], i));
        }
    }
}

/// The record of a plan that is over holds every step, numbered in order; those that were not
/// reached are marked as skipped.
pub proof fn law_record_is_complete(
    run: RunModel,
    status: PipelineStatus,
    error: Option<Seq<char>>,
    i: int,
)
    requires
        run.traces.len() <= run.plan.steps.len(),
        run.plan.steps.len() < usize::MAX,
        run.traces.len() <= i < run.plan.steps.len(),
    ensures
        ended(run, status, error).steps.len() == run.plan.steps.len(),
        ended(run, status, error).steps[i].status == PipelineStepStatus::Skipped,
        ended(run, status, error).steps[i].ordinal == i + 1,
        ended(run, status, error).steps[i].id == run.plan.steps[i].id,
        !ended(run, status, error).steps[i].state_changed,
{
}

/// A step whose success is not confirmed ends the plan: nothing behind it is called, and the plan
/// does not count as succeeded.
pub proof fn law_first_failure_ends_the_plan(
    run: RunModel,
    definitions: Seq<DefinitionModel>,
    runtime: JsonModel,
    result: ToolResultModel,
    elapsed_ms: u64,
)
    requires
        run.traces.len() < run.plan.steps.len(),
        !confirms(result),
    ensures
        ({
            let action = run_executed(run, definitions, runtime, result, elapsed_ms).1;
            &&& action is Finished
            &&& action->Finished_0.status != PipelineStatus::Succeeded
            &&& action->Finished_0.steps.len() == run.plan.steps.len()
            &&& plan_result(run.call_id, action->Finished_0).is_error
            &&& forall|i: int|
                run.traces.len() < i < run.plan.steps.len() ==> (
                #[trigger] action->Finished_0.steps[i]).status == PipelineStepStatus::Skipped
        }),
{
}

/// A plan succeeds only when every one of its steps did.
pub proof fn law_success_means_all_steps_succeeded(
    run: RunModel,
    definitions: Seq<DefinitionModel>,
    runtime: JsonModel,
)
    requires
        run_in_order(run),
        prepared(run, definitions, runtime).1 matches ActionModel::Finished(trace) && trace.status
            == PipelineStatus::Succeeded,
    ensures
        ({
            let trace = prepared(run, definitions, runtime).1->Finished_0;
            &&& trace.steps.len() == run.plan.steps.len()
            &&& forall|i: int|
                0 <= i < trace.steps.len() ==> (#[trigger] trace.steps[i]).status
                    == PipelineStepStatus::Succeeded
        }),
{
    let trace = prepared(run, definitions, runtime).1->Finished_0;
    assert(trace.steps =~= run.traces);
    assert forall|i: int| 0 <= i < trace.steps.len() implies (#[trigger] trace.steps[i]).status
        == PipelineStepStatus::Succeeded by {
        assert(recorded_well(run, run.traces[i], i));
    }
}

/// No call is made before the user was asked: what is prepared waits for leave, and a call is made
/// only where leave was given.
pub proof fn law_calls_are_authorized(
    run: RunModel,
    definitions: Seq<DefinitionModel>,
    runtime: JsonModel,
    answer: Result<bool, Seq<char>>,
    timeout: u64,
)
    ensures
        !(prepared(run, definitions, runtime).1 is Execute),
        run_authorized(run, answer, timeout).1 is Execute <==> answer == Ok::<bool, Seq<char>>(true),
{
}

/// A step asks for its own tool with its own arguments, filled in from the results so far; what is
/// carried out is what was asked for.
pub proof fn law_step_calls_its_tool(
    run: RunModel,
    definitions: Seq<DefinitionModel>,
    runtime: JsonModel,
    timeout: u64,
)
    requires
        run.traces.len() < run.plan.steps.len(),
    ensures
        prepared(run, definitions, runtime).1 matches ActionModel::Authorize(call) ==> {
            let step = run.plan.steps[run.traces.len() as int];
            &&& call.name == step.tool
            &&& resolved(step.arguments, run.outputs, runtime) == Ok::<JsonModel, Seq<char>>(
                call.arguments,
            )
            &&& call.id == run.call_id + ":"@ + step.id
            &&& run_authorized(prepared(run, definitions, runtime).0, Ok(true), timeout).1 matches
                ActionModel::Execute(carried, limit) && carried == call && limit >= timeout
        },
{
}

/// A step that is not allowed stops the plan: nothing after it is called.
pub proof fn law_refused_step_stops_the_plan(run: RunModel, timeout: u64)
    requires
        run.traces.len() < run.plan.steps.len(),
    ensures
        run_authorized(run, Ok(false), timeout).1 matches ActionModel::Finished(trace) && {
            &&& trace.status == PipelineStatus::Cancelled
            &&& trace.steps.len() == run.plan.steps.len()
            &&& trace.steps[run.traces.len() as int].status == PipelineStepStatus::Cancelled
            &&& !trace.steps[run.traces.len() as int].state_changed
        },
{
}

/// What a tool returned is recorded with its step: its content, its outcome and how long it took. A
/// step succeeded when its tool confirmed it, and only then it may have changed something.
pub proof fn law_result_is_recorded(
    run: RunModel,
    definitions: Seq<DefinitionModel>,
    runtime: JsonModel,
    result: ToolResultModel,
    elapsed_ms: u64,
)
    requires
        run.traces.len() < run.plan.steps.len(),
        run.plan.steps.len() < usize::MAX,
    ensures
        ({
            let after = run_executed(run, definitions, runtime, result, elapsed_ms).0;
            let at = run.traces.len() as int;
            let step = run.plan.steps[at];
            let record = after.traces[at];
            &&& after.traces.len() > at
            &&& after.traces.take(at) == run.traces
            &&& record.id == step.id
            &&& record.tool == step.tool
            &&& record.ordinal == at + 1
            &&& record.output == Some(result.content)
            &&& record.outcome == result.outcome
            &&& record.duration_ms == elapsed_ms
            &&& record.arguments == run.arguments
            &&& record.status == PipelineStepStatus::Succeeded <==> result.outcome
                == ToolOutcome::Success && !result.is_error
            &&& record.error is None <==> record.status == PipelineStepStatus::Succeeded
            &&& record.state_changed <==> record.status == PipelineStepStatus::Succeeded
                && has_tool(definitions, step.tool) && !definitions[tool_index(
                definitions,
                step.tool,
            ) as int].read_only
            &&& record.status == PipelineStepStatus::Succeeded ==> after.outputs.len() > 0
                && after.outputs[run.outputs.len() as int] == (step.id, result.content)
        }),
{
    let after = run_executed(run, definitions, runtime, result, elapsed_ms).0;
    let record = result_record(run, definitions, result, elapsed_ms);
    let at = run.traces.len() as int;
    if confirms(result) {
        let step = run.plan.steps[at];
        let next = RunModel {
            outputs: run.outputs.push((step.id, result.content)),
            ..with_record(run, record)
        };
        assert(next.traces[at] == record);
        let then = prepared(next, definitions, runtime).0;
        assert(then.traces[at] == next.traces[at]);
        assert(then.traces.take(at) =~= run.traces);
        assert(then.outputs == next.outputs);
    } else {
        assert(after.traces[at] == record);
        assert(after.traces.take(at) =~= run.traces);
    }
}

/// A plan counts as a success only when it succeeded; one whose end is unknown counts as unknown.
pub proof fn law_result_of_a_plan_is_its_status(call_id: Seq<char>, trace: TraceModel)
    ensures
        plan_result(call_id, trace).call_id == call_id,
        plan_result(call_id, trace).is_error <==> trace.status != PipelineStatus::Succeeded,
        plan_result(call_id, trace).outcome == ToolOutcome::Success <==> trace.status
            == PipelineStatus::Succeeded,
        plan_result(call_id, trace).outcome == ToolOutcome::Unknown <==> trace.status
            == PipelineStatus::Unknown,
{
}

/// The record of a step tells what it holds, each value under its own name.
pub proof fn law_record_of_a_step_is_told(t: StepTraceModel)
    ensures
        text_at(step_json(t), "id"@) == Some(t.id),
        text_at(step_json(t), "tool"@) == Some(t.tool),
        text_at(step_json(t), "native_tool"@) == Some(t.native_tool),
        text_at(step_json(t), "server_id"@) == t.server_id,
        text_at(step_json(t), "status"@) == Some(step_status_name(t.status)),
        text_at(step_json(t), "outcome"@) == Some(outcome_name(t.outcome)),
        text_at(step_json(t), "error"@) == t.error,
        member_of(step_json(t), "arguments"@) == Some(t.arguments),
        member_of(step_json(t), "output"@) == t.output,
        member_of(step_json(t), "duration_ms"@) == Some(
            JsonModel::Number(decimal(t.duration_ms as nat)),
        ),
        member_of(step_json(t), "ordinal"@) == Some(JsonModel::Number(decimal(t.ordinal as nat))),
        member_of(step_json(t), "state_changed"@) == Some(JsonModel::Bool(t.state_changed)),
{
    lemma_step_names();
    let start = step_json_start(t);
    let error = optional_text("error"@, t.error);
    let middle = step_json_middle(t);
    let output = optional_value("output"@, t.output);
    let end = step_json_end(t);
    let members = start + error + middle + output + end;
    let e = error.len() as int;
    let o = output.len() as int;
    assert(members[0] == start[0] && members[1] == start[1]);
    assert(e == 1 ==> members[2] == error[0]);
    assert(members[2 + e] == middle[0] && members[3 + e] == middle[1] && members[4 + e]
        == middle[2] && members[5 + e] == middle[3]);
    assert(o == 1 ==> members[6 + e] == output[0]);
    assert(members[6 + e + o] == end[0] && members[7 + e + o] == end[1] && members[8 + e + o]
        == end[2] && members[9 + e + o] == end[3]);
    assert(members.len() == 10 + e + o);
    assert forall|k: int| 0 <= k < members.len() implies #[trigger] members[k].key
        == step_name(k, e, o) by {}
    assert forall|k: int| 0 <= k < members.len() implies member_of(
        step_json(t),
        (#[trigger] members[k]).key,
    ) == Some(members[k].value) by {
        assert forall|j: int| 0 <= j < k implies (#[trigger] members[j]).key != members[k].key by {
            assert(members[j].key == step_name(j, e, o));
        }
        law_member_is_found(members, k);
    }
    if e == 0 {
        assert forall|k: int| 0 <= k < members.len() implies (#[trigger] members[k]).key
            != "error"@ by {
            assert(members[k].key == step_name(k, e, o));
        }
        law_missing_member_is_not_found(members, "error"@);
    } else {
        assert(members[2].key == "error"@);
    }
    if o == 0 {
        assert forall|k: int| 0 <= k < members.len() implies (#[trigger] members[k]).key
            != "output"@ by {
            assert(members[k].key == step_name(k, e, o));
        }
        law_missing_member_is_not_found(members, "output"@);
    } else {
        assert(members[6 + e].key == "output"@);
    }
    assert(members[0].key == "arguments"@ && members[1].key == "duration_ms"@);
    assert(members[2 + e].key == "id"@ && members[3 + e].key == "native_tool"@ && members[4
        + e].key == "ordinal"@ && members[5 + e].key == "outcome"@);
    assert(members[6 + e + o].key == "server_id"@ && members[7 + e + o].key == "state_changed"@
        && members[8 + e + o].key == "status"@ && members[9 + e + o].key == "tool"@);
}

/// The name at a place of the record of a step, with and without an error and an output.
spec fn step_name(k: int, e: int, o: int) -> Seq<char> {
    if k == 0 {
        "arguments"@
    } else if k == 1 {
        "duration_ms"@
    } else if k < 2 + e {
        "error"@
    } else if k == 2 + e {
        "id"@
    } else if k == 3 + e {
        "native_tool"@
    } else if k == 4 + e {
        "ordinal"@
    } else if k == 5 + e {
        "outcome"@
    } else if k < 6 + e + o {
        "output"@
    } else if k == 6 + e + o {
        "server_id"@
    } else if k == 7 + e + o {
        "state_changed"@
    } else if k == 8 + e + o {
        "status"@
    } else {
        "tool"@
    }
}

/// The names in the record of a step differ.
proof fn lemma_step_names()
    ensures
        forall|e: int, o: int, j: int, k: int|
            #![trigger step_name(j, e, o), step_name(k, e, o)]
            0 <= e <= 1 && 0 <= o <= 1 && 0 <= j < k < 10 + e + o ==> step_name(j, e, o)
                != step_name(k, e, o),
        forall|o: int, k: int|
            0 <= o <= 1 && 0 <= k < 10 + o ==> #[trigger] step_name(k, 0, o) != "error"@,
        forall|e: int, k: int|
            0 <= e <= 1 && 0 <= k < 10 + e ==> #[trigger] step_name(k, e, 0) != "output"@,
{
    reveal_strlit("arguments");
    reveal_strlit("duration_ms");
    reveal_strlit("error");
    reveal_strlit("id");
    reveal_strlit("native_tool");
    reveal_strlit("ordinal");
    reveal_strlit("outcome");
    reveal_strlit("output");
    reveal_strlit("server_id");
    reveal_strlit("state_changed");
    reveal_strlit("status");
    reveal_strlit("tool");
    assert("arguments"@[0] == 'a' && "duration_ms"@[0] == 'd' && "error"@[0] == 'e' && "id"@[0]
        == 'i' && "native_tool"@[0] == 'n' && "tool"@[0] == 't');
    assert("ordinal"@[1] == 'r' && "outcome"@.len() == 7 && "output"@.len() == 6 && "ordinal"@[0]
        == 'o' && "outcome"@[0] == 'o' && "outcome"@[1] == 'u' && "output"@[0] == 'o');
    assert("server_id"@[0] == 's' && "state_changed"@[0] == 's' && "status"@[0] == 's'
        && "server_id"@.len() == 9 && "state_changed"@.len() == 13 && "status"@.len() == 6);
}

/// The record of a plan tells its name, its status and every step, in order.
pub proof fn law_record_of_a_plan_is_told(t: TraceModel, i: int)
    ensures
        text_at(trace_json(t), "name"@) == Some(t.name),
        text_at(trace_json(t), "status"@) == Some(plan_status_name(t.status)),
        text_at(trace_json(t), "error"@) == t.error,
        array_at(trace_json(t), "steps"@) matches Some(steps) && steps.len() == t.steps.len() && (0
            <= i < t.steps.len() ==> steps[i] == step_json(t.steps[i])),
{
    reveal_strlit("error");
    reveal_strlit("name");
    reveal_strlit("status");
    reveal_strlit("steps");
    assert("error"@.len() == 5 && "error"@[0] == 'e' && "name"@.len() == 4 && "status"@.len() == 6
        && "steps"@.len() == 5 && "steps"@[0] == 's');
    let error = optional_text("error"@, t.error);
    let rest = seq![
        field("name"@, JsonModel::Text(t.name)),
        field("status"@, JsonModel::Text(plan_status_name(t.status))),
        field("steps"@, JsonModel::Array(steps_json(t.steps))),
    ];
    let members = error + rest;
    let e = error.len() as int;
    assert(members[e] == rest[0] && members[e + 1] == rest[1] && members[e + 2] == rest[2]);
    if e == 1 {
        assert(members[0] == error[0]);
        law_member_is_found(members, 0);
    } else {
        law_missing_member_is_not_found(members, "error"@);
    }
    law_member_is_found(members, e);
    law_member_is_found(members, e + 1);
    law_member_is_found(members, e + 2);
}

/// A plan that is not accepted is not begun: no step of it is called.
pub proof fn law_refused_plan_is_not_begun(
    call_id: Seq<char>,
    plan: PlanModel,
    definitions: Seq<DefinitionModel>,
    runtime: JsonModel,
)
    ensures
        plan_error(plan, definitions) matches Some(message) ==> (run_started(
            call_id,
            plan,
            definitions,
            runtime,
        ).1 matches ActionModel::Finished(trace) && trace.status == PipelineStatus::Failed
            && trace.error == Some(message)),
        plan_error(plan, definitions) is None ==> (run_started(
            call_id,
            plan,
            definitions,
            runtime,
        ).1 matches ActionModel::Authorize(call) ==> call.name == plan.steps[0].tool),
        run_started(call_id, plan, definitions, runtime).0.plan == plan,
        run_started(call_id, plan, definitions, runtime).0.call_id == call_id,
{
}

} // verus!
