//! Jobs: plans that run by a schedule, what authorizes them, and what is kept of their runs.

use vstd::prelude::*;
use vstd::utf8::encode_utf8;

use crate::config::agrees_check;
use crate::hashing::{hash_of, hex_text, hexadecimal, text_hash, HASH_SEED};
use crate::json::{
    array_at, array_of, field, i64_value, json_str, json_text, law_member_is_found,
    lemma_array_view, lemma_member_index, lemma_object_view, member, member_index, member_of,
    object1, object3, object_of, text_at, u64_at, u64_value, write_json, Json, JsonModel, Member,
    MemberModel,
};
use crate::numbers::{signed_decimal, signed_text};
use crate::scheduler::{schedule_in, schedule_value, ScheduleModel, ScheduleSpec};
use crate::text::{
    byte_len, bytes_in, lemma_views_push, same, starts_with_text, view_option, views,
};
use crate::tools::{
    plan_error, plan_in, step_in, steps_in, validate_pipeline_plan, DefinitionModel, PipelinePlan,
    PipelineStep, PlanModel, StepModel, ToolDefinition, ToolOutcome, ToolResult, ToolResultModel,
    PIPELINE_TOOL_NAME,
};

verus! {

broadcast use lemma_views_push;

/// How many bytes of an output are kept.
pub const MAX_CAPTURED_OUTPUT: usize = 16384;

/// Whether a job runs.
#[derive(Debug, Clone, Copy, PartialEq, Eq, Structural)]
pub enum GenericJobStatus {
    Active,
    Paused,
    Deleted,
}

/// The name of a status.
pub open spec fn status_name(status: GenericJobStatus) -> Seq<char> {
    match status {
        GenericJobStatus::Active => "active"@,
        GenericJobStatus::Paused => "paused"@,
        GenericJobStatus::Deleted => "deleted"@,
    }
}

/// The status with a name.
pub open spec fn status_named(value: Seq<char>) -> Option<GenericJobStatus> {
    if value == "active"@ {
        Some(GenericJobStatus::Active)
    } else if value == "paused"@ {
        Some(GenericJobStatus::Paused)
    } else if value == "deleted"@ {
        Some(GenericJobStatus::Deleted)
    } else {
        None
    }
}

impl GenericJobStatus {
    /// The name of the status.
    pub fn as_str(&self) -> (r: &'static str)
        ensures
            r@ == status_name(*self),
    {
        match self {
            GenericJobStatus::Active => "active",
            GenericJobStatus::Paused => "paused",
            GenericJobStatus::Deleted => "deleted",
        }
    }

    /// The status with a name.
    pub fn parse(value: &str) -> (r: Result<GenericJobStatus, String>)
        ensures
            match (r, status_named(value@)) {
                (Ok(status), Some(model)) => status == model,
                (Err(message), None) => message@ == "неизвестный статус задания"@,
                _ => false,
            },
    {
        if same(value, "active") {
            Ok(GenericJobStatus::Active)
        } else if same(value, "paused") {
            Ok(GenericJobStatus::Paused)
        } else if same(value, "deleted") {
            Ok(GenericJobStatus::Deleted)
        } else {
            Err("неизвестный статус задания".to_owned())
        }
    }
}

/// The name of a status leads back to the status.
pub proof fn law_status_round_trip(status: GenericJobStatus)
    ensures
        status_named(status_name(status)) == Some(status),
{
    reveal_strlit("active");
    reveal_strlit("paused");
    reveal_strlit("deleted");
    assert("active"@.len() == 6 && "paused"@.len() == 6 && "deleted"@.len() == 7);
    assert("active"@[0] == 'a' && "paused"@[0] == 'p');
}

/// How many runs a history shows where nothing else is asked for.
pub fn history_limit() -> (r: u32)
    ensures
        r == 20,
{
    20
}

/// A plan that runs by a schedule.
#[derive(Debug, PartialEq, Eq)]
pub struct GenericJob {
    pub id: i64,
    pub name: String,
    pub schedule: ScheduleSpec,
    pub pipeline: PipelinePlan,
    pub authorization_hash: String,
    pub status: GenericJobStatus,
    pub next_run_at: Option<String>,
}

/// A plan that runs by a schedule, mathematically.
pub ghost struct JobModel {
    pub id: i64,
    pub name: Seq<char>,
    pub schedule: ScheduleModel,
    pub pipeline: PlanModel,
    pub authorization_hash: Seq<char>,
    pub status: GenericJobStatus,
    pub next_run_at: Option<Seq<char>>,
}

impl View for GenericJob {
    type V = JobModel;

    open spec fn view(&self) -> JobModel {
        JobModel {
            id: self.id,
            name: self.name@,
            schedule: self.schedule@,
            pipeline: self.pipeline@,
            authorization_hash: self.authorization_hash@,
            status: self.status,
            next_run_at: view_option(self.next_run_at),
        }
    }
}

/// A run of a job.
#[derive(Debug, PartialEq, Eq)]
pub struct GenericRun {
    pub id: i64,
    pub job_id: i64,
    pub trigger: String,
    pub scheduled_at: String,
    pub status: String,
    pub trace: Option<Json>,
    pub error: Option<String>,
}

/// A run of a job, mathematically.
pub ghost struct RunModel {
    pub id: i64,
    pub job_id: i64,
    pub trigger: Seq<char>,
    pub scheduled_at: Seq<char>,
    pub status: Seq<char>,
    pub trace: Option<JsonModel>,
    pub error: Option<Seq<char>>,
}

impl View for GenericRun {
    type V = RunModel;

    open spec fn view(&self) -> RunModel {
        RunModel {
            id: self.id,
            job_id: self.job_id,
            trigger: self.trigger@,
            scheduled_at: self.scheduled_at@,
            status: self.status@,
            trace: view_option(self.trace),
            error: view_option(self.error),
        }
    }
}

// Copies.

/// A copy of a plan.
pub fn copy_plan(plan: &PipelinePlan) -> (r: PipelinePlan)
    ensures
        r@ == plan@,
{
    let ghost model = views(plan.steps@);
    let mut steps: Vec<PipelineStep> = Vec::new();
    let mut i: usize = 0;
    while i < plan.steps.len()
        invariant
            i <= plan.steps@.len(),
            model == views(plan.steps@),
            views(steps@) == model.take(i as int),
        decreases plan.steps.len() - i,
    {
        let step = PipelineStep {
            id: plan.steps[i].id.clone(),
            tool: plan.steps[i].tool.clone(),
            arguments: plan.steps[i].arguments.copy(),
            capture_output: plan.steps[i].capture_output,
        };
        proof {
            assert(model.take(i as int).push(step@) =~= model.take(i + 1));
        }
        steps.push(step);
        i += 1;
    }
    proof {
        assert(model.take(i as int) =~= model);
    }
    PipelinePlan { name: plan.name.clone(), steps }
}

/// A copy of an optional text.
pub fn copy_text(value: &Option<String>) -> (r: Option<String>)
    ensures
        view_option(r) == view_option(*value),
{
    match value {
        Some(text) => Some(text.clone()),
        None => None,
    }
}

impl GenericJob {
    /// A copy of the job.
    pub fn copy(&self) -> (r: GenericJob)
        ensures
            r@ == self@,
    {
        GenericJob {
            id: self.id,
            name: self.name.clone(),
            schedule: self.schedule.copy(),
            pipeline: copy_plan(&self.pipeline),
            authorization_hash: self.authorization_hash.clone(),
            status: self.status,
            next_run_at: copy_text(&self.next_run_at),
        }
    }
}

impl GenericRun {
    /// A copy of the run.
    pub fn copy(&self) -> (r: GenericRun)
        ensures
            r@ == self@,
    {
        let trace = match &self.trace {
            Some(trace) => Some(trace.copy()),
            None => None,
        };
        GenericRun {
            id: self.id,
            job_id: self.job_id,
            trigger: self.trigger.clone(),
            scheduled_at: self.scheduled_at.clone(),
            status: self.status.clone(),
            trace,
            error: copy_text(&self.error),
        }
    }
}

// Values.

/// The value of a step.
pub open spec fn step_value(step: StepModel) -> JsonModel {
    JsonModel::Object(
        seq![
            field("id"@, JsonModel::Text(step.id)),
            field("tool"@, JsonModel::Text(step.tool)),
            field("arguments"@, step.arguments),
            field("capture_output"@, JsonModel::Bool(step.capture_output)),
        ],
    )
}

/// The values of steps.
pub open spec fn step_values(steps: Seq<StepModel>) -> Seq<JsonModel> {
    Seq::new(steps.len(), |i: int| step_value(steps[i]))
}

/// The value of a plan.
pub open spec fn plan_value(plan: PlanModel) -> JsonModel {
    JsonModel::Object(
        seq![
            field("name"@, JsonModel::Text(plan.name)),
            field("steps"@, JsonModel::Array(step_values(plan.steps))),
        ],
    )
}

fn write_step_value(step: &PipelineStep) -> (r: Json)
    ensures
        r@ == step_value(step@),
{
    let mut members: Vec<Member> = Vec::new();
    members.push(member("id", json_str(step.id.as_str())));
    members.push(member("tool", json_str(step.tool.as_str())));
    members.push(member("arguments", step.arguments.copy()));
    members.push(member("capture_output", Json::Bool(step.capture_output)));
    proof {
        assert(views(members@) =~= step_value(step@)->Object_0);
    }
    object_of(members)
}

/// Writes the value of a plan.
pub fn write_plan(plan: &PipelinePlan) -> (r: Json)
    ensures
        r@ == plan_value(plan@),
{
    let ghost all = step_values(views(plan.steps@));
    let mut steps: Vec<Json> = Vec::new();
    let mut i: usize = 0;
    while i < plan.steps.len()
        invariant
            i <= plan.steps@.len(),
            all == step_values(views(plan.steps@)),
            views(steps@) == all.take(i as int),
        decreases plan.steps.len() - i,
    {
        let value = write_step_value(&plan.steps[i]);
        proof {
            assert(all.take(i as int).push(value@) =~= all.take(i + 1));
        }
        steps.push(value);
        i += 1;
    }
    proof {
        assert(all.take(i as int) =~= all);
    }
    let mut members: Vec<Member> = Vec::new();
    members.push(member("name", json_str(plan.name.as_str())));
    members.push(member("steps", array_of(steps)));
    proof {
        assert(views(members@) =~= plan_value(plan@)->Object_0);
    }
    object_of(members)
}

/// Writes the value of a schedule.
pub fn write_schedule(schedule: &ScheduleSpec) -> (r: Json)
    ensures
        r@ == schedule_value(schedule@),
{
    let mut members: Vec<Member> = Vec::new();
    match schedule {
        ScheduleSpec::Once(run_at) => {
            members.push(member("type", json_str("once")));
            members.push(member("run_at", json_str(run_at.as_str())));
        },
        ScheduleSpec::Daily(time, timezone) => {
            members.push(member("type", json_str("daily")));
            members.push(member("time", json_str(time.as_str())));
            members.push(member("timezone", json_str(timezone.as_str())));
        },
    }
    proof {
        assert(views(members@) =~= schedule_value(schedule@)->Object_0);
    }
    object_of(members)
}

/// A plan is read back from its value.
pub proof fn law_plan_round_trip(plan: PlanModel)
    ensures
        plan_in(plan_value(plan)) == Some(plan),
{
    reveal_strlit("name");
    reveal_strlit("steps");
    let value = plan_value(plan);
    let members = value->Object_0;
    assert("name"@.len() == 4 && "steps"@.len() == 5);
    lemma_member_index(members, "name"@, 0);
    lemma_member_index(members, "steps"@, 1);
    lemma_steps_round_trip(plan.steps);
    let keys = seq!["name"@, "steps"@];
    assert(keys[0] == "name"@ && keys[1] == "steps"@);
    assert(keys.contains(members[0].key));
    assert(keys.contains(members[1].key));
}

proof fn lemma_step_round_trip(step: StepModel)
    ensures
        step_in(step_value(step)) == Some(step),
{
    reveal_strlit("id");
    reveal_strlit("tool");
    reveal_strlit("arguments");
    reveal_strlit("capture_output");
    let members = step_value(step)->Object_0;
    assert("id"@.len() == 2 && "tool"@.len() == 4 && "arguments"@.len() == 9
        && "capture_output"@.len() == 14);
    lemma_member_index(members, "id"@, 0);
    lemma_member_index(members, "tool"@, 1);
    lemma_member_index(members, "arguments"@, 2);
    lemma_member_index(members, "capture_output"@, 3);
    let keys = seq!["id"@, "tool"@, "arguments"@, "capture_output"@];
    assert(keys[0] == "id"@ && keys[1] == "tool"@ && keys[2] == "arguments"@ && keys[3]
        == "capture_output"@);
    assert(keys.contains(members[0].key));
    assert(keys.contains(members[1].key));
    assert(keys.contains(members[2].key));
    assert(keys.contains(members[3].key));
}

proof fn lemma_steps_round_trip(steps: Seq<StepModel>)
    ensures
        steps_in(step_values(steps)) == Some(steps),
    decreases steps.len(),
{
    let values = step_values(steps);
    if steps.len() > 0 {
        lemma_steps_round_trip(steps.drop_last());
        lemma_step_round_trip(steps.last());
        assert(values.drop_last() =~= step_values(steps.drop_last()));
        assert(values.last() == step_value(steps.last()));
        assert(steps.drop_last().push(steps.last()) =~= steps);
    } else {
        assert(steps =~= Seq::empty());
    }
}

/// A schedule is read back from its value.
pub proof fn law_schedule_round_trip(schedule: ScheduleModel)
    ensures
        schedule_in(schedule_value(schedule)) == Some(schedule),
{
    reveal_strlit("type");
    reveal_strlit("run_at");
    reveal_strlit("time");
    reveal_strlit("timezone");
    reveal_strlit("once");
    reveal_strlit("daily");
    let value = schedule_value(schedule);
    let members = value->Object_0;
    assert("type"@.len() == 4 && "run_at"@.len() == 6 && "time"@.len() == 4 && "timezone"@.len()
        == 8);
    assert("type"@[1] == 'y' && "time"@[1] == 'i');
    assert("once"@.len() == 4 && "daily"@.len() == 5);
    let keys = seq!["type"@, "run_at"@, "time"@, "timezone"@];
    assert(keys[0] == "type"@ && keys[1] == "run_at"@ && keys[2] == "time"@ && keys[3]
        == "timezone"@);
    lemma_member_index(members, "type"@, 0);
    match schedule {
        ScheduleModel::Once(run_at) => {
            lemma_member_index(members, "run_at"@, 1);
            lemma_member_index(members, "time"@, 2);
            lemma_member_index(members, "timezone"@, 2);
            assert(keys.contains(members[0].key));
            assert(keys.contains(members[1].key));
        },
        ScheduleModel::Daily(time, timezone) => {
            lemma_member_index(members, "time"@, 1);
            lemma_member_index(members, "timezone"@, 2);
            lemma_member_index(members, "run_at"@, 3);
            assert(keys.contains(members[0].key));
            assert(keys.contains(members[1].key));
            assert(keys.contains(members[2].key));
        },
    }
}

// Authorization.

/// The text that stands for what a job was confirmed to do.
pub open spec fn authorized_text(schedule: ScheduleModel, plan: PlanModel) -> Seq<char> {
    json_text(JsonModel::Array(seq![schedule_value(schedule), plan_value(plan)]))
}

/// The hash of what a job was confirmed to do.
pub open spec fn authorization(schedule: ScheduleModel, plan: PlanModel) -> Seq<char> {
    hexadecimal(
        hash_of(encode_utf8(authorized_text(schedule, plan)), HASH_SEED) as nat,
        16,
    )
}

/// The hash of what a job was confirmed to do.
pub fn canonical_hash(schedule: &ScheduleSpec, plan: &PipelinePlan) -> (r: String)
    ensures
        r@ == authorization(schedule@, plan@),
{
    let mut items: Vec<Json> = Vec::new();
    items.push(write_schedule(schedule));
    items.push(write_plan(plan));
    proof {
        assert(views(items@) =~= seq![schedule_value(schedule@), plan_value(plan@)]);
    }
    let text = write_json(&array_of(items));
    hex_text(text_hash(text.as_str(), HASH_SEED), 16)
}

/// Checks that a job is still what it was confirmed to be.
pub fn check_authorization(job: &GenericJob) -> (r: Result<(), String>)
    ensures
        r is Ok <==> job@.authorization_hash == authorization(job@.schedule, job@.pipeline),
        r is Err ==> r->Err_0@ == "authorization hash задания не совпадает"@,
{
    let hash = canonical_hash(&job.schedule, &job.pipeline);
    if same(hash.as_str(), job.authorization_hash.as_str()) {
        Ok(())
    } else {
        Err("authorization hash задания не совпадает".to_owned())
    }
}

/// A step calls the scheduler of jobs itself, or a plan inside the plan.
pub open spec fn calls_scheduler(step: StepModel) -> bool {
    "orchestrator__"@.is_prefix_of(step.tool) || step.tool == PIPELINE_TOOL_NAME@
}

/// Why a plan cannot be the plan of a job.
pub open spec fn job_plan_error(plan: PlanModel, definitions: Seq<DefinitionModel>) -> Option<
    Seq<char>,
> {
    if exists|i: int| 0 <= i < plan.steps.len() && calls_scheduler(#[trigger] plan.steps[i]) {
        Some("pipeline задания не может вызывать orchestrator"@)
    } else {
        plan_error(plan, definitions)
    }
}

/// Checks that no step of a plan calls the scheduler of jobs.
pub fn check_job_plan(plan: &PipelinePlan) -> (r: Result<(), String>)
    ensures
        r is Ok <==> forall|i: int|
            0 <= i < plan@.steps.len() ==> !calls_scheduler(#[trigger] plan@.steps[i]),
        r is Err ==> r->Err_0@ == "pipeline задания не может вызывать orchestrator"@,
{
    let ghost model = views(plan.steps@);
    let mut i: usize = 0;
    while i < plan.steps.len()
        invariant
            i <= plan.steps@.len(),
            model == views(plan.steps@),
            model == plan@.steps,
            forall|k: int| 0 <= k < i ==> !calls_scheduler(#[trigger] model[k]),
        decreases plan.steps.len() - i,
    {
        proof {
            assert(model[i as int] == plan.steps@[i as int]@);
        }
        if starts_with_text(plan.steps[i].tool.as_str(), "orchestrator__") || same(
            plan.steps[i].tool.as_str(),
            PIPELINE_TOOL_NAME,
        ) {
            proof {
                assert(calls_scheduler(plan@.steps[i as int]));
            }
            return Err("pipeline задания не может вызывать orchestrator".to_owned());
        }
        i += 1;
    }
    Ok(())
}

/// Checks the plan of a job against the tools that there are.
pub fn validate_job_plan(plan: &PipelinePlan, definitions: &Vec<ToolDefinition>) -> (r: Result<
    (),
    String,
>)
    ensures
        agrees_check(r, job_plan_error(plan@, views(definitions@))),
{
    if let Err(message) = check_job_plan(plan) {
        return Err(message);
    }
    validate_pipeline_plan(plan, definitions)
}

// Runs.

/// The number under which the calls of a run are made.
pub open spec fn run_name(id: i64) -> Seq<char> {
    "run-"@ + signed_decimal(id as int)
}

/// The number under which the calls of a run are made.
pub fn run_call_id(id: i64) -> (r: String)
    ensures
        r@ == run_name(id),
{
    "run-".to_owned().concat(signed_text(id).as_str())
}

/// What the steps of a run may refer to.
pub open spec fn run_context(run: RunModel) -> JsonModel {
    JsonModel::Object(
        seq![
            field(
                "run"@,
                JsonModel::Object(
                    seq![
                        field("id"@, JsonModel::Number(signed_decimal(run.id as int))),
                        field("scheduled_at"@, JsonModel::Text(run.scheduled_at)),
                        field("trigger"@, JsonModel::Text(run.trigger)),
                    ],
                ),
            ),
        ],
    )
}

/// What the steps of a run may refer to.
pub fn runtime_values(run: &GenericRun) -> (r: Json)
    ensures
        r@ == run_context(run@),
{
    let inner = object3(
        "id",
        Json::Number(signed_text(run.id)),
        "scheduled_at",
        json_str(run.scheduled_at.as_str()),
        "trigger",
        json_str(run.trigger.as_str()),
    );
    object1("run", inner)
}

/// The result of a run that could not begin.
pub fn failed_run(run: &GenericRun, error: &str) -> (r: ToolResult)
    ensures
        r@ == (ToolResultModel {
            call_id: run_name(run@.id),
            content: JsonModel::Object(
                seq![
                    field("error"@, JsonModel::Text(error@)),
                    field("status"@, JsonModel::Text("failed"@)),
                    field("steps"@, JsonModel::Array(Seq::empty())),
                ],
            ),
            is_error: true,
            outcome: ToolOutcome::Failed,
        }),
{
    let none: Vec<Json> = Vec::new();
    proof {
        assert(views(none@) =~= Seq::<JsonModel>::empty());
    }
    ToolResult {
        call_id: run_call_id(run.id),
        content: object3(
            "error",
            json_str(error),
            "status",
            json_str("failed"),
            "steps",
            array_of(none),
        ),
        is_error: true,
        outcome: ToolOutcome::Failed,
    }
}

/// The status of a run by the outcome of its plan.
pub open spec fn run_status(outcome: ToolOutcome) -> Seq<char> {
    match outcome {
        ToolOutcome::Success => "succeeded"@,
        ToolOutcome::Failed => "failed"@,
        ToolOutcome::Unknown => "unknown"@,
    }
}

/// The status of a run by the outcome of its plan.
pub fn finished_status(outcome: ToolOutcome) -> (r: &'static str)
    ensures
        r@ == run_status(outcome),
{
    match outcome {
        ToolOutcome::Success => "succeeded",
        ToolOutcome::Failed => "failed",
        ToolOutcome::Unknown => "unknown",
    }
}

// What is kept of a trace.

/// The members without those with a name.
pub open spec fn without_key(members: Seq<MemberModel>, key: Seq<char>) -> Seq<MemberModel>
    decreases members.len(),
{
    if members.len() == 0 {
        Seq::empty()
    } else if members.last().key == key {
        without_key(members.drop_last(), key)
    } else {
        without_key(members.drop_last(), key).push(members.last())
    }
}

/// The members with another value for the first one with a name.
pub open spec fn with_value(
    members: Seq<MemberModel>,
    key: Seq<char>,
    value: JsonModel,
) -> Seq<MemberModel> {
    let at = member_index(members, key) as int;
    if at < members.len() {
        members.update(at, field(key, value))
    } else {
        members
    }
}

/// What stands for an output that is too long to be kept.
pub open spec fn truncated_mark() -> JsonModel {
    JsonModel::Object(seq![field("truncated"@, JsonModel::Bool(true))])
}

/// An output is too long to be kept.
pub open spec fn is_too_long(output: Option<JsonModel>) -> bool {
    match output {
        Some(output) => byte_len(json_text(output)) > MAX_CAPTURED_OUTPUT,
        None => false,
    }
}

/// What is kept of a step: never its arguments, and its output only where the plan keeps it.
pub open spec fn kept_step(step: JsonModel, capture: bool) -> JsonModel {
    match step {
        JsonModel::Object(members) => {
            let quiet = without_key(members, "arguments"@);
            if !capture {
                JsonModel::Object(without_key(quiet, "output"@))
            } else if is_too_long(member_of(JsonModel::Object(quiet), "output"@)) {
                JsonModel::Object(with_value(quiet, "output"@, truncated_mark()))
            } else {
                JsonModel::Object(quiet)
            }
        },
        _ => step,
    }
}

/// The plan keeps the output of the step at a position.
pub open spec fn captures(plan: PlanModel, i: int) -> bool {
    i < plan.steps.len() && plan.steps[i].capture_output
}

/// What is kept of steps.
pub open spec fn kept_steps(steps: Seq<JsonModel>, plan: PlanModel) -> Seq<JsonModel> {
    Seq::new(steps.len(), |i: int| kept_step(steps[i], captures(plan, i)))
}

/// What is kept of a trace.
pub open spec fn kept_trace(trace: JsonModel, plan: PlanModel) -> JsonModel {
    match trace {
        JsonModel::Object(members) => match member_of(trace, "steps"@) {
            Some(JsonModel::Array(steps)) => JsonModel::Object(
                with_value(members, "steps"@, JsonModel::Array(kept_steps(steps, plan))),
            ),
            _ => trace,
        },
        _ => trace,
    }
}

fn drop_key(members: Vec<Member>, key: &str) -> (r: Vec<Member>)
    ensures
        views(r@) == without_key(views(members@), key@),
{
    let ghost model = views(members@);
    let mut out: Vec<Member> = Vec::new();
    let mut i: usize = 0;
    proof {
        assert(model.take(0).len() == 0);
        assert(views(out@) =~= Seq::<MemberModel>::empty());
    }
    while i < members.len()
        invariant
            i <= members@.len(),
            model == views(members@),
            views(out@) == without_key(model.take(i as int), key@),
        decreases members.len() - i,
    {
        proof {
            assert(model.take(i + 1).drop_last() =~= model.take(i as int));
            assert(model.take(i + 1).last() == members@[i as int]@);
        }
        if !same(members[i].key.as_str(), key) {
            out.push(Member { key: members[i].key.clone(), value: members[i].value.copy() });
        }
        i += 1;
    }
    proof {
        assert(model.take(i as int) =~= model);
    }
    out
}

fn set_value(members: &mut Vec<Member>, key: &str, value: Json)
    ensures
        views(final(members)@) == with_value(views(old(members)@), key@, value@),
{
    let ghost model = views(members@);
    let ghost view = value@;
    let total: usize = members.len();
    let mut i: usize = 0;
    while i < total && !same(members[i].key.as_str(), key)
        invariant
            i <= total,
            total == members@.len(),
            model == views(members@),
            model == views(old(members)@),
            forall|k: int| 0 <= k < i ==> (#[trigger] model[k]).key != key@,
        decreases total - i,
    {
        proof {
            assert(model[i as int] == members@[i as int]@);
        }
        i += 1;
    }
    proof {
        if i < total {
            assert(model[i as int] == members@[i as int]@);
        }
        lemma_member_index(model, key@, i as int);
    }
    if i < total {
        members.set(i, Member { key: key.to_owned(), value });
        proof {
            assert(views(members@) =~= model.update(i as int, field(key@, view)));
        }
    }
}

fn copy_members(members: &Vec<Member>) -> (r: Vec<Member>)
    ensures
        views(r@) == views(members@),
{
    let ghost model = views(members@);
    let mut out: Vec<Member> = Vec::new();
    let mut i: usize = 0;
    while i < members.len()
        invariant
            i <= members@.len(),
            model == views(members@),
            views(out@) == model.take(i as int),
        decreases members.len() - i,
    {
        let copy = Member { key: members[i].key.clone(), value: members[i].value.copy() };
        proof {
            assert(model.take(i as int).push(copy@) =~= model.take(i + 1));
        }
        out.push(copy);
        i += 1;
    }
    proof {
        assert(model.take(i as int) =~= model);
    }
    out
}

fn keep_step(step: &Json, capture: bool) -> (r: Json)
    ensures
        r@ == kept_step(step@, capture),
{
    match step {
        Json::Object(members) => {
            proof {
                lemma_object_view(*members);
            }
            let quiet = drop_key(copy_members(members), "arguments");
            if !capture {
                return object_of(drop_key(quiet, "output"));
            }
            let value = object_of(quiet);
            let long = match value.get("output") {
                Some(output) => bytes_in(write_json(output).as_str()) > MAX_CAPTURED_OUTPUT,
                None => false,
            };
            if !long {
                return value;
            }
            let mut shorter = drop_key(copy_members(members), "arguments");
            set_value(&mut shorter, "output", object1("truncated", Json::Bool(true)));
            object_of(shorter)
        },
        _ => step.copy(),
    }
}

/// What is kept of a trace.
pub fn redact_trace(trace: &Json, plan: &PipelinePlan) -> (r: Json)
    ensures
        r@ == kept_trace(trace@, plan@),
{
    match trace {
        Json::Object(members) => {
            proof {
                lemma_object_view(*members);
            }
            match trace.get("steps") {
                Some(Json::Array(steps)) => {
                    proof {
                        lemma_array_view(*steps);
                    }
                    let ghost all = kept_steps(views(steps@), plan@);
                    let mut kept: Vec<Json> = Vec::new();
                    let mut i: usize = 0;
                    while i < steps.len()
                        invariant
                            i <= steps@.len(),
                            all == kept_steps(views(steps@), plan@),
                            views(kept@) == all.take(i as int),
                        decreases steps.len() - i,
                    {
                        let capture = i < plan.steps.len() && plan.steps[i].capture_output;
                        let step = keep_step(&steps[i], capture);
                        proof {
                            assert(all.take(i as int).push(step@) =~= all.take(i + 1));
                        }
                        kept.push(step);
                        i += 1;
                    }
                    proof {
                        assert(all.take(i as int) =~= all);
                    }
                    let mut out = copy_members(members);
                    set_value(&mut out, "steps", array_of(kept));
                    object_of(out)
                },
                _ => trace.copy(),
            }
        },
        _ => trace.copy(),
    }
}

proof fn lemma_without_key(members: Seq<MemberModel>, key: Seq<char>)
    ensures
        forall|i: int|
            0 <= i < without_key(members, key).len() ==> (#[trigger] without_key(members, key)[i]).key
                != key,
        forall|i: int|
            0 <= i < without_key(members, key).len() ==> members.contains(
                #[trigger] without_key(members, key)[i],
            ),
    decreases members.len(),
{
    if members.len() > 0 {
        lemma_without_key(members.drop_last(), key);
        let head = without_key(members.drop_last(), key);
        let all = without_key(members, key);
        assert forall|i: int| 0 <= i < all.len() implies members.contains(#[trigger] all[i]) by {
            if i < head.len() {
                assert(all[i] == head[i]);
                assert(members.drop_last().contains(head[i]));
                let k = choose|k: int|
                    0 <= k < members.drop_last().len() && members.drop_last()[k] == head[i];
                assert(members[k] == all[i]);
            } else {
                assert(members[members.len() - 1] == all[i]);
            }
        }
        assert forall|i: int| 0 <= i < all.len() implies (#[trigger] all[i]).key != key by {
            if i < head.len() {
                assert(all[i] == head[i]);
            }
        }
    }
}

proof fn lemma_absent(members: Seq<MemberModel>, key: Seq<char>)
    requires
        forall|i: int| 0 <= i < members.len() ==> (#[trigger] members[i]).key != key,
    ensures
        member_of(JsonModel::Object(members), key) is None,
{
    lemma_member_index(members, key, members.len() as int);
}

/// The arguments of a step are never kept, and an output is kept only where the plan says so and it is
/// not too long.
pub proof fn law_kept_steps_are_discreet(step: JsonModel, capture: bool)
    ensures
        member_of(kept_step(step, capture), "arguments"@) is None,
        !capture ==> member_of(kept_step(step, capture), "output"@) is None,
        match member_of(kept_step(step, capture), "output"@) {
            Some(output) => byte_len(json_text(output)) <= MAX_CAPTURED_OUTPUT || output
                == truncated_mark(),
            None => true,
        },
{
    reveal_strlit("arguments");
    reveal_strlit("output");
    assert("arguments"@.len() == 9 && "output"@.len() == 6);
    if let JsonModel::Object(members) = step {
        let quiet = without_key(members, "arguments"@);
        lemma_without_key(members, "arguments"@);
        lemma_absent(quiet, "arguments"@);
        if !capture {
            let quieter = without_key(quiet, "output"@);
            lemma_without_key(quiet, "output"@);
            lemma_absent(quieter, "output"@);
            assert forall|i: int| 0 <= i < quieter.len() implies (#[trigger] quieter[i]).key
                != "arguments"@ by {
                assert(quiet.contains(quieter[i]));
                let k = choose|k: int| 0 <= k < quiet.len() && quiet[k] == quieter[i];
                assert(quiet[k].key != "arguments"@);
            }
            lemma_absent(quieter, "arguments"@);
        } else {
            let at = member_index(quiet, "output"@) as int;
            if is_too_long(member_of(JsonModel::Object(quiet), "output"@)) {
                let marked = with_value(quiet, "output"@, truncated_mark());
                lemma_first_member(quiet, "output"@);
                assert forall|i: int| 0 <= i < marked.len() implies (#[trigger] marked[i]).key
                    != "arguments"@ by {
                    if i != at {
                        assert(marked[i] == quiet[i]);
                    }
                }
                lemma_absent(marked, "arguments"@);
                assert forall|i: int| 0 <= i < at implies (#[trigger] marked[i]).key
                    != "output"@ by {
                    assert(marked[i] == quiet[i]);
                }
                lemma_member_index(marked, "output"@, at);
            }
        }
    }
}

proof fn lemma_first_member(members: Seq<MemberModel>, key: Seq<char>)
    ensures
        member_index(members, key) <= members.len(),
        forall|i: int| 0 <= i < member_index(members, key) ==> (#[trigger] members[i]).key != key,
        member_index(members, key) < members.len() ==> members[member_index(
            members,
            key,
        ) as int].key == key,
    decreases members.len(),
{
    if members.len() > 0 && members[0].key != key {
        lemma_first_member(members.skip(1), key);
        assert forall|i: int| 0 <= i < member_index(members, key) implies (
        #[trigger] members[i]).key != key by {
            if i > 0 {
                assert(members[i] == members.skip(1)[i - 1]);
            }
        }
    }
}

/// What is kept of a step in a list of its own.
#[derive(Debug, PartialEq, Eq)]
pub struct RunStepRow {
    pub ordinal: Option<i64>,
    pub step_id: Option<String>,
    pub server_id: Option<String>,
    pub native_tool: Option<String>,
    pub status: Option<String>,
    pub duration_ms: Option<u64>,
    pub output_json: Option<String>,
    pub error: Option<String>,
}

/// What is kept of a step in a list of its own, mathematically.
pub ghost struct StepRowModel {
    pub ordinal: Option<int>,
    pub step_id: Option<Seq<char>>,
    pub server_id: Option<Seq<char>>,
    pub native_tool: Option<Seq<char>>,
    pub status: Option<Seq<char>>,
    pub duration_ms: Option<nat>,
    pub output_json: Option<Seq<char>>,
    pub error: Option<Seq<char>>,
}

impl View for RunStepRow {
    type V = StepRowModel;

    open spec fn view(&self) -> StepRowModel {
        StepRowModel {
            ordinal: match self.ordinal {
                Some(n) => Some(n as int),
                None => None,
            },
            step_id: view_option(self.step_id),
            server_id: view_option(self.server_id),
            native_tool: view_option(self.native_tool),
            status: view_option(self.status),
            duration_ms: match self.duration_ms {
                Some(n) => Some(n as nat),
                None => None,
            },
            output_json: view_option(self.output_json),
            error: view_option(self.error),
        }
    }
}

/// The row of a step that was kept.
pub open spec fn step_row(step: JsonModel) -> StepRowModel {
    StepRowModel {
        ordinal: match member_of(step, "ordinal"@) {
            Some(value) => i64_value(value),
            None => None,
        },
        step_id: text_at(step, "id"@),
        server_id: text_at(step, "server_id"@),
        native_tool: text_at(step, "native_tool"@),
        status: text_at(step, "status"@),
        duration_ms: match member_of(step, "duration_ms"@) {
            Some(value) => u64_value(value),
            None => None,
        },
        output_json: match member_of(step, "output"@) {
            Some(value) => Some(json_text(value)),
            None => None,
        },
        error: text_at(step, "error"@),
    }
}

fn text_of_step(step: &Json, key: &str) -> (r: Option<String>)
    ensures
        view_option(r) == text_at(step@, key@),
{
    match step.get_text(key) {
        Some(text) => Some(text.clone()),
        None => None,
    }
}

fn make_row(step: &Json) -> (r: RunStepRow)
    ensures
        r@ == step_row(step@),
{
    let ordinal = match step.get("ordinal") {
        Some(value) => value.as_i64(),
        None => None,
    };
    let output_json = match step.get("output") {
        Some(value) => Some(write_json(value)),
        None => None,
    };
    RunStepRow {
        ordinal,
        step_id: text_of_step(step, "id"),
        server_id: text_of_step(step, "server_id"),
        native_tool: text_of_step(step, "native_tool"),
        status: text_of_step(step, "status"),
        duration_ms: step.get_u64("duration_ms"),
        output_json,
        error: text_of_step(step, "error"),
    }
}

/// The rows of the steps that were kept of a trace.
pub fn step_rows(trace: &Json) -> (r: Vec<RunStepRow>)
    ensures
        r@.len() == match array_at(trace@, "steps"@) {
            Some(steps) => steps.len(),
            None => 0,
        },
        forall|i: int|
            0 <= i < r@.len() ==> (#[trigger] r@[i])@ == step_row(
                array_at(trace@, "steps"@)->Some_0[i],
            ),
{
    let mut out: Vec<RunStepRow> = Vec::new();
    if let Some(steps) = trace.get_array("steps") {
        let ghost model = views(steps@);
        let mut i: usize = 0;
        while i < steps.len()
            invariant
                i <= steps@.len(),
                model == views(steps@),
                array_at(trace@, "steps"@) == Some(model),
                out@.len() == i,
                forall|k: int| 0 <= k < i ==> (#[trigger] out@[k])@ == step_row(model[k]),
            decreases steps.len() - i,
        {
            out.push(make_row(&steps[i]));
            i += 1;
        }
    }
    out
}

/// A member that is added behind the others is found where there is none of its key before it.
proof fn lemma_pushed_member(members: Seq<MemberModel>, last: MemberModel, key: Seq<char>)
    ensures
        member_of(JsonModel::Object(members.push(last)), key) == if member_of(
            JsonModel::Object(members),
            key,
        ) is Some {
            member_of(JsonModel::Object(members), key)
        } else if last.key == key {
            Some(last.value)
        } else {
            None
        },
{
    let all = members.push(last);
    lemma_first_member(members, key);
    let at = member_index(members, key) as int;
    assert forall|i: int| 0 <= i < at implies (#[trigger] all[i]).key != key by {
        assert(members[i].key != key);
    }
    if at < members.len() {
        assert(all[at] == members[at]);
        lemma_member_index(all, key, at);
    } else if last.key == key {
        lemma_member_index(all, key, members.len() as int);
    } else {
        lemma_member_index(all, key, all.len() as int);
    }
}

/// Taking a key out leaves what the other keys name.
proof fn lemma_others_stay(members: Seq<MemberModel>, key: Seq<char>, other: Seq<char>)
    requires
        other != key,
    ensures
        member_of(JsonModel::Object(without_key(members, key)), other) == member_of(
            JsonModel::Object(members),
            other,
        ),
    decreases members.len(),
{
    if members.len() > 0 {
        let head = members.drop_last();
        lemma_others_stay(head, key, other);
        assert(members =~= head.push(members.last()));
        lemma_pushed_member(head, members.last(), other);
        lemma_pushed_member(without_key(head, key), members.last(), other);
    }
}

/// Of the steps of a run all is kept but what was passed to them and what they returned; what a step
/// returned is kept where the plan says so, unless it is too long.
pub proof fn law_kept_steps_tell_the_rest(step: JsonModel, capture: bool, key: Seq<char>)
    requires
        key != "arguments"@,
        key != "output"@ || capture && match member_of(step, "output"@) {
            Some(output) => byte_len(json_text(output)) <= MAX_CAPTURED_OUTPUT,
            None => true,
        },
    ensures
        member_of(kept_step(step, capture), key) == member_of(step, key),
{
    if let JsonModel::Object(members) = step {
        let quiet = without_key(members, "arguments"@);
        lemma_others_stay(members, "arguments"@, key);
        reveal_strlit("arguments");
        reveal_strlit("output");
        assert("arguments"@.len() != "output"@.len());
        lemma_others_stay(members, "arguments"@, "output"@);
        if key != "output"@ {
            lemma_others_stay(quiet, "output"@, key);
            lemma_first_member(quiet, "output"@);
            let at = member_index(quiet, "output"@) as int;
            let changed = with_value(quiet, "output"@, truncated_mark());
            lemma_first_member(quiet, key);
            let place = member_index(quiet, key) as int;
            assert forall|i: int| 0 <= i < place implies (#[trigger] changed[i]).key != key by {
                assert(quiet[i].key != key);
            }
            lemma_member_index(changed, key, place);
        }
    }
}

/// Every step of a run is kept, in its place; the rest of the record stays.
pub proof fn law_every_step_is_kept(
    trace: JsonModel,
    plan: PlanModel,
    steps: Seq<JsonModel>,
    i: int,
    key: Seq<char>,
)
    requires
        member_of(trace, "steps"@) == Some(JsonModel::Array(steps)),
        0 <= i < steps.len(),
        key != "steps"@,
    ensures
        member_of(kept_trace(trace, plan), "steps"@) matches Some(JsonModel::Array(kept))
            && kept.len() == steps.len() && kept[i] == kept_step(
            steps[i],
            i < plan.steps.len() && plan.steps[i].capture_output,
        ),
        member_of(kept_trace(trace, plan), key) == member_of(trace, key),
{
    let members = trace->Object_0;
    let changed = with_value(members, "steps"@, JsonModel::Array(kept_steps(steps, plan)));
    lemma_first_member(members, "steps"@);
    let at = member_index(members, "steps"@) as int;
    assert forall|k: int| 0 <= k < at implies (#[trigger] changed[k]).key != "steps"@ by {
        assert(members[k].key != "steps"@);
    }
    lemma_member_index(changed, "steps"@, at);
    lemma_first_member(members, key);
    let place = member_index(members, key) as int;
    assert forall|k: int| 0 <= k < place implies (#[trigger] changed[k]).key != key by {
        assert(members[k].key != key);
    }
    lemma_member_index(changed, key, place);
}

/// A row of the record of steps holds what the step says under the names of its columns.
pub proof fn law_row_holds_the_step(step: JsonModel)
    ensures
        step_row(step).step_id == text_at(step, "id"@),
        step_row(step).server_id == text_at(step, "server_id"@),
        step_row(step).native_tool == text_at(step, "native_tool"@),
        step_row(step).status == text_at(step, "status"@),
        step_row(step).error == text_at(step, "error"@),
        step_row(step).duration_ms == u64_at(step, "duration_ms"@),
        member_of(step, "output"@) matches Some(output) ==> step_row(step).output_json == Some(
            json_text(output),
        ),
        member_of(step, "output"@) is None ==> step_row(step).output_json is None,
{
}

/// What a plan may refer to of its run is the run's number, its moment and what started it.
pub proof fn law_run_tells_its_moment(run: RunModel)
    ensures
        member_of(run_context(run), "run"@) matches Some(told) && {
            &&& text_at(told, "scheduled_at"@) == Some(run.scheduled_at)
            &&& text_at(told, "trigger"@) == Some(run.trigger)
            &&& member_of(told, "id"@) == Some(JsonModel::Number(signed_decimal(run.id as int)))
        },
{
    let members = run_context(run)->Object_0;
    assert(members[0].key == "run"@);
    law_member_is_found(members, 0);
    let told = members[0].value->Object_0;
    reveal_strlit("id");
    reveal_strlit("scheduled_at");
    reveal_strlit("trigger");
    assert("id"@.len() == 2 && "scheduled_at"@.len() == 12 && "trigger"@.len() == 7);
    assert(told[0].key == "id"@ && told[1].key == "scheduled_at"@ && told[2].key == "trigger"@);
    law_member_is_found(told, 0);
    law_member_is_found(told, 1);
    law_member_is_found(told, 2);
}

/// A plan of a job never calls the scheduler or another plan.
pub proof fn law_jobs_do_not_schedule(
    plan: PlanModel,
    definitions: Seq<DefinitionModel>,
    i: int,
)
    requires
        job_plan_error(plan, definitions) is None,
        0 <= i < plan.steps.len(),
    ensures
        !"orchestrator__"@.is_prefix_of(plan.steps[i].tool),
        plan.steps[i].tool != PIPELINE_TOOL_NAME@,
        plan_error(plan, definitions) is None,
{
    assert(!calls_scheduler(plan.steps[i]));
}

} // verus!
