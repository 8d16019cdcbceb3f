//! The store of jobs and their runs.

use vstd::prelude::*;

use crate::fields::{
    distinct_names, elements, find_named, has_distinct_names, has_repeated_name, members,
    named_value, read_elements, read_members, repeats_name, Layout,
};
use crate::jobs::{
    authorization, canonical_hash, copy_plan, finished_status, kept_trace, law_plan_round_trip,
    law_schedule_round_trip, law_status_round_trip, plan_value, redact_trace, run_status,
    status_name, status_named, GenericJob, GenericJobStatus, GenericRun, JobModel, RunModel,
};
use crate::json::{
    json_node, json_value, parse_json, read_node, text_at, Json, JsonModel, JsonNode, NodeModel,
    JSON_DEPTH,
};
use crate::numbers::{signed_decimal, signed_text};
use crate::order::{before, lemma_before_total, lemma_before_transitive, text_before};
use crate::scheduler::{
    daily_run, following_run, moment_read, next_run, parse_schedule, run_daily, schedule_error,
    schedule_in, schedule_value, time_read, validate_schedule, ScheduleModel, ScheduleSpec,
};
use crate::text::{
    agrees, is_blank, lemma_views_push, same, trim, trimmed, view_option, views,
};
use crate::time::{
    clock_read, in_years, law_next_clock_is_the_first, moment_at, next_clock, read_clock, Timestamp,
    TimestampModel, DAY_SECONDS, MOSCOW_OFFSET,
};
use crate::tools::{
    parse_pipeline_plan, plan_in, PipelinePlan, PlanModel, ToolOutcome, ToolResult, ToolResultModel,
};

verus! {

broadcast use lemma_views_push;

/// The tables that hold jobs, runs and steps.
pub const ORCHESTRATION_SCHEMA: &'static str = "CREATE TABLE IF NOT EXISTS orchestration_jobs (
    id INTEGER PRIMARY KEY AUTOINCREMENT,
    name TEXT NOT NULL,
    schedule_json TEXT NOT NULL,
    pipeline_json TEXT NOT NULL,
    authorization_hash TEXT NOT NULL,
    status TEXT NOT NULL,
    next_run_at TEXT,
    created_at TEXT NOT NULL,
    updated_at TEXT NOT NULL
);
CREATE TABLE IF NOT EXISTS orchestration_runs (
    id INTEGER PRIMARY KEY AUTOINCREMENT,
    job_id INTEGER NOT NULL REFERENCES orchestration_jobs(id),
    trigger TEXT NOT NULL,
    scheduled_at TEXT NOT NULL,
    started_at TEXT NOT NULL,
    finished_at TEXT,
    status TEXT NOT NULL,
    trace_json TEXT,
    error TEXT
);
CREATE TABLE IF NOT EXISTS orchestration_run_steps (
    run_id INTEGER NOT NULL REFERENCES orchestration_runs(id),
    ordinal INTEGER NOT NULL,
    step_id TEXT NOT NULL,
    server_id TEXT,
    native_tool TEXT NOT NULL,
    status TEXT NOT NULL,
    duration_ms INTEGER NOT NULL,
    output_json TEXT,
    error TEXT,
    PRIMARY KEY(run_id, ordinal)
);
CREATE UNIQUE INDEX IF NOT EXISTS one_running_orchestration_run_per_job
    ON orchestration_runs(job_id) WHERE status='running';";

// Rows.

/// A job as it is stored.
#[derive(Debug, PartialEq, Eq)]
pub struct JobRow {
    pub id: i64,
    pub name: String,
    pub schedule_json: String,
    pub pipeline_json: String,
    pub authorization_hash: String,
    pub status: String,
    pub next_run_at: Option<String>,
}

/// A job as it is stored, mathematically.
pub ghost struct JobRowModel {
    pub id: i64,
    pub name: Seq<char>,
    pub schedule_json: Seq<char>,
    pub pipeline_json: Seq<char>,
    pub authorization_hash: Seq<char>,
    pub status: Seq<char>,
    pub next_run_at: Option<Seq<char>>,
}

impl View for JobRow {
    type V = JobRowModel;

    open spec fn view(&self) -> JobRowModel {
        JobRowModel {
            id: self.id,
            name: self.name@,
            schedule_json: self.schedule_json@,
            pipeline_json: self.pipeline_json@,
            authorization_hash: self.authorization_hash@,
            status: self.status@,
            next_run_at: view_option(self.next_run_at),
        }
    }
}

/// What of a stored job tells when it is due.
#[derive(Debug, PartialEq, Eq)]
pub struct DueRow {
    pub id: i64,
    pub status: String,
    pub next_run_at: Option<String>,
}

/// What of a stored job tells when it is due, mathematically.
pub ghost struct DueRowModel {
    pub id: i64,
    pub status: Seq<char>,
    pub next_run_at: Option<Seq<char>>,
}

impl View for DueRow {
    type V = DueRowModel;

    open spec fn view(&self) -> DueRowModel {
        DueRowModel {
            id: self.id,
            status: self.status@,
            next_run_at: view_option(self.next_run_at),
        }
    }
}

/// The schedule that a value stands for, if it was read.
pub open spec fn stored_schedule(value: Result<JsonModel, Seq<char>>) -> Result<
    ScheduleModel,
    Seq<char>,
> {
    match value {
        Err(message) => Err(message),
        Ok(value) => match schedule_in(value) {
            Some(schedule) => Ok(schedule),
            None => Err("неверный формат расписания"@),
        },
    }
}

/// The plan that a value stands for, if it was read.
pub open spec fn stored_plan(value: Result<JsonModel, Seq<char>>) -> Result<PlanModel, Seq<char>> {
    match value {
        Err(message) => Err(message),
        Ok(value) => match plan_in(value) {
            Some(plan) => Ok(plan),
            None => Err("неверный формат MCP-пайплайна"@),
        },
    }
}

/// The job of a row; `schedule` and `plan` are the values that its texts stand for.
pub open spec fn job_of_row(
    row: JobRowModel,
    schedule: Result<JsonModel, Seq<char>>,
    plan: Result<JsonModel, Seq<char>>,
) -> Result<JobModel, Seq<char>> {
    match stored_schedule(schedule) {
        Err(message) => Err(message),
        Ok(schedule) => match stored_plan(plan) {
            Err(message) => Err(message),
            Ok(pipeline) => match status_named(row.status) {
                None => Err("неизвестный статус задания"@),
                Some(status) => Ok(
                    JobModel {
                        id: row.id,
                        name: row.name,
                        schedule,
                        pipeline,
                        authorization_hash: row.authorization_hash,
                        status,
                        next_run_at: row.next_run_at,
                    },
                ),
            },
        },
    }
}

/// The view of a value that was read.
pub open spec fn view_read(value: Result<Json, String>) -> Result<JsonModel, Seq<char>> {
    match value {
        Ok(value) => Ok(value@),
        Err(message) => Err(message@),
    }
}

/// Makes the job of a row of the values that its texts stand for.
pub fn make_job(row: JobRow, schedule: Result<Json, String>, plan: Result<Json, String>) -> (r:
    Result<GenericJob, String>)
    ensures
        agrees(r, job_of_row(row@, view_read(schedule), view_read(plan))),
{
    let schedule = match schedule {
        Err(message) => return Err(message),
        Ok(value) => match parse_schedule(&value) {
            Some(schedule) => schedule,
            None => return Err("неверный формат расписания".to_owned()),
        },
    };
    let pipeline = match plan {
        Err(message) => return Err(message),
        Ok(value) => match parse_pipeline_plan(&value) {
            Ok(plan) => plan,
            Err(message) => return Err(message),
        },
    };
    let status = match GenericJobStatus::parse(row.status.as_str()) {
        Ok(status) => status,
        Err(message) => return Err(message),
    };
    Ok(
        GenericJob {
            id: row.id,
            name: row.name,
            schedule,
            pipeline,
            authorization_hash: row.authorization_hash,
            status,
            next_run_at: row.next_run_at,
        },
    )
}

/// Whether the steps of a stored plan name a field twice.
pub open spec fn steps_repeat(steps: Seq<char>) -> bool {
    exists|k: int| 0 <= k < elements(steps).len() && repeats_name(#[trigger] elements(steps)[k])
}

/// Whether a stored plan names a field twice, in itself or in a step.
pub open spec fn plan_repeats(text: Seq<char>) -> bool {
    match json_node(text) {
        Ok(NodeModel::Object(_)) => !distinct_names(members(text)) || match named_value(
            members(text),
            "steps"@,
        ) {
            Some(steps) => steps_repeat(steps),
            None => false,
        },
        Ok(NodeModel::Array(_)) => elements(text).len() > 1 && steps_repeat(elements(text)[1]),
        _ => false,
    }
}

/// A value that was read, unless its text names a field twice.
pub open spec fn unless_repeated(
    value: Result<JsonModel, Seq<char>>,
    repeated: bool,
    message: Seq<char>,
) -> Result<JsonModel, Seq<char>> {
    if value is Ok && repeated {
        Err(message)
    } else {
        value
    }
}

fn has_repeated_step(steps: &str) -> (r: bool)
    ensures
        r == steps_repeat(steps@),
{
    let list = read_elements(&Layout::of(steps));
    let ghost model = elements(steps@);
    let mut k: usize = 0;
    while k < list.len()
        invariant
            k <= list@.len(),
            model == elements(steps@),
            model == views(list@),
            forall|i: int| 0 <= i < k ==> !repeats_name(#[trigger] model[i]),
        decreases list.len() - k,
    {
        proof {
            assert(model[k as int] == list@[k as int]@);
        }
        if has_repeated_name(list[k].as_str()) {
            return true;
        }
        k += 1;
    }
    false
}

fn has_repeated_field(text: &str) -> (r: bool)
    ensures
        r == plan_repeats(text@),
{
    match read_node(text) {
        Ok(JsonNode::Object(_)) => {
            let list = read_members(&Layout::of(text));
            if !has_distinct_names(&list) {
                return true;
            }
            match find_named(&list, "steps") {
                Some(steps) => has_repeated_step(steps.as_str()),
                None => false,
            }
        },
        Ok(JsonNode::Array(_)) => {
            let list = read_elements(&Layout::of(text));
            list.len() > 1 && has_repeated_step(list[1].as_str())
        },
        _ => false,
    }
}

/// Reads the job of a row. A schedule or a plan that names a field twice is refused.
pub fn load_job(row: JobRow) -> (r: Result<GenericJob, String>)
    ensures
        agrees(
            r,
            job_of_row(
                row@,
                unless_repeated(
                    json_value(row@.schedule_json, JSON_DEPTH as nat),
                    repeats_name(row@.schedule_json),
                    "неверный формат расписания"@,
                ),
                unless_repeated(
                    json_value(row@.pipeline_json, JSON_DEPTH as nat),
                    plan_repeats(row@.pipeline_json),
                    "неверный формат MCP-пайплайна"@,
                ),
            ),
        ),
{
    let schedule = match parse_json(row.schedule_json.as_str()) {
        Ok(value) => if has_repeated_name(row.schedule_json.as_str()) {
            Err("неверный формат расписания".to_owned())
        } else {
            Ok(value)
        },
        Err(message) => Err(message),
    };
    let plan = match parse_json(row.pipeline_json.as_str()) {
        Ok(value) => if has_repeated_field(row.pipeline_json.as_str()) {
            Err("неверный формат MCP-пайплайна".to_owned())
        } else {
            Ok(value)
        },
        Err(message) => Err(message),
    };
    make_job(row, schedule, plan)
}

// The store.

/// The jobs and their runs, and the numbers that the next ones get.
#[derive(Debug, PartialEq, Eq)]
pub struct GenericSchedulerStore {
    pub jobs: Vec<GenericJob>,
    pub runs: Vec<GenericRun>,
    pub next_job: i64,
    pub next_run: i64,
}

/// The jobs and their runs, mathematically.
pub ghost struct StoreModel {
    pub jobs: Seq<JobModel>,
    pub runs: Seq<RunModel>,
    pub next_job: i64,
    pub next_run: i64,
}

impl View for GenericSchedulerStore {
    type V = StoreModel;

    open spec fn view(&self) -> StoreModel {
        StoreModel {
            jobs: views(self.jobs@),
            runs: views(self.runs@),
            next_job: self.next_job,
            next_run: self.next_run,
        }
    }
}

/// A run goes on.
pub open spec fn is_running(run: RunModel) -> bool {
    run.status == "running"@
}

/// The jobs stand in the order of their numbers, each below the next number.
pub open spec fn jobs_numbered(jobs: Seq<JobModel>, next: i64) -> bool {
    &&& forall|i: int, j: int|
        0 <= i < j < jobs.len() ==> (#[trigger] jobs[i]).id < (#[trigger] jobs[j]).id
    &&& forall|i: int| 0 <= i < jobs.len() ==> (#[trigger] jobs[i]).id < next
}

/// The runs stand in the order of their numbers, each below the next number.
pub open spec fn runs_numbered(runs: Seq<RunModel>, next: i64) -> bool {
    &&& forall|i: int, j: int|
        0 <= i < j < runs.len() ==> (#[trigger] runs[i]).id < (#[trigger] runs[j]).id
    &&& forall|i: int| 0 <= i < runs.len() ==> (#[trigger] runs[i]).id < next
}

/// No job has two runs that go on.
pub open spec fn runs_exclusive(runs: Seq<RunModel>) -> bool {
    forall|i: int, j: int|
        0 <= i < j < runs.len() && is_running(#[trigger] runs[i]) && is_running(
            #[trigger] runs[j],
        ) ==> runs[i].job_id != runs[j].job_id
}

/// The store is sound: its numbers are in order, and no job has two runs that go on.
pub open spec fn store_wf(s: StoreModel) -> bool {
    &&& jobs_numbered(s.jobs, s.next_job)
    &&& runs_numbered(s.runs, s.next_run)
    &&& runs_exclusive(s.runs)
}

/// The position of the job with a number, or the number of jobs.
pub open spec fn job_index(jobs: Seq<JobModel>, id: i64) -> nat
    decreases jobs.len(),
{
    if jobs.len() == 0 || jobs[0].id == id {
        0
    } else {
        1 + job_index(jobs.skip(1), id)
    }
}

/// The job with a number.
pub open spec fn job_with(jobs: Seq<JobModel>, id: i64) -> Option<JobModel> {
    let at = job_index(jobs, id) as int;
    if at < jobs.len() {
        Some(jobs[at])
    } else {
        None
    }
}

/// The message where there is no job with a number.
pub open spec fn no_job(id: i64) -> Seq<char> {
    "задание #"@ + signed_decimal(id as int) + " не найдено"@
}

/// A job has a run that goes on.
pub open spec fn has_running(runs: Seq<RunModel>, job_id: i64) -> bool {
    exists|i: int|
        0 <= i < runs.len() && is_running(#[trigger] runs[i]) && runs[i].job_id == job_id
}

proof fn lemma_job_index(jobs: Seq<JobModel>, id: i64)
    ensures
        job_index(jobs, id) <= jobs.len(),
        job_index(jobs, id) < jobs.len() ==> jobs[job_index(jobs, id) as int].id == id,
        forall|i: int| 0 <= i < job_index(jobs, id) ==> (#[trigger] jobs[i]).id != id,
    decreases jobs.len(),
{
    if jobs.len() > 0 && jobs[0].id != id {
        lemma_job_index(jobs.skip(1), id);
        assert forall|i: int| 0 <= i < job_index(jobs, id) implies (#[trigger] jobs[i]).id
            != id by {
            if i > 0 {
                assert(jobs[i] == jobs.skip(1)[i - 1]);
            }
        }
    }
}

/// A new run of a job.
pub open spec fn started_run(
    id: i64,
    job_id: i64,
    trigger: Seq<char>,
    scheduled_at: Seq<char>,
) -> RunModel {
    RunModel {
        id,
        job_id,
        trigger,
        scheduled_at,
        status: "running"@,
        trace: None,
        error: None,
    }
}

/// The store with a new run of a job, unless one goes on.
pub open spec fn run_inserted(
    s: StoreModel,
    job_id: i64,
    trigger: Seq<char>,
    scheduled_at: Seq<char>,
) -> Result<(StoreModel, RunModel), Seq<char>> {
    if has_running(s.runs, job_id) {
        Err("UNIQUE constraint failed: orchestration_runs.job_id"@)
    } else if s.next_run == i64::MAX {
        Err("исчерпаны номера запусков"@)
    } else {
        let run = started_run(s.next_run, job_id, trigger, scheduled_at);
        Ok(
            (
                StoreModel {
                    runs: s.runs.push(run),
                    next_run: (s.next_run + 1) as i64,
                    ..s
                },
                run,
            ),
        )
    }
}

/// The store with a new job, given the moment of its first run.
pub open spec fn job_added(
    s: StoreModel,
    name: Seq<char>,
    schedule: ScheduleModel,
    plan: PlanModel,
    next: Result<TimestampModel, Seq<char>>,
    refused: Option<Seq<char>>,
) -> Result<(StoreModel, JobModel), Seq<char>> {
    if trim(name).len() == 0 {
        Err("имя задания не должно быть пустым"@)
    } else {
        match refused {
            Some(message) => Err(message),
            None => match next {
                Err(message) => Err(message),
                Ok(next) => if s.next_job == i64::MAX {
                    Err("исчерпаны номера заданий"@)
                } else {
                    let job = JobModel {
                        id: s.next_job,
                        name: trim(name),
                        schedule,
                        pipeline: plan,
                        authorization_hash: authorization(schedule, plan),
                        status: GenericJobStatus::Active,
                        next_run_at: Some(next.utc_text),
                    };
                    Ok(
                        (
                            StoreModel {
                                jobs: s.jobs.push(job),
                                next_job: (s.next_job + 1) as i64,
                                ..s
                            },
                            job,
                        ),
                    )
                },
            },
        }
    }
}

/// The store with another status of a job.
pub open spec fn status_set(s: StoreModel, id: i64, status: GenericJobStatus) -> Result<
    (StoreModel, JobModel),
    Seq<char>,
> {
    match job_with(s.jobs, id) {
        None => Err(no_job(id)),
        Some(job) => if job.status == GenericJobStatus::Deleted && status
            != GenericJobStatus::Deleted {
            Err("удалённое задание нельзя возобновить"@)
        } else {
            let changed = JobModel { status, ..job };
            Ok(
                (
                    StoreModel {
                        jobs: s.jobs.update(job_index(s.jobs, id) as int, changed),
                        ..s
                    },
                    changed,
                ),
            )
        },
    }
}

/// The store with a run of a job that was asked for.
pub open spec fn manual_claimed(s: StoreModel, id: i64, now: TimestampModel) -> Result<
    (StoreModel, JobModel, RunModel),
    Seq<char>,
> {
    match job_with(s.jobs, id) {
        None => Err(no_job(id)),
        Some(job) => if job.status == GenericJobStatus::Deleted {
            Err("задание удалено"@)
        } else {
            match run_inserted(s, id, "manual"@, now.utc_text) {
                Err(message) => Err(message),
                Ok(done) => Ok((done.0, job, done.1)),
            }
        },
    }
}

/// A job is due: it is active, its moment has come, and no run of it goes on.
pub open spec fn is_due(s: StoreModel, job: JobModel, now: Seq<char>) -> bool {
    &&& job.status == GenericJobStatus::Active
    &&& match job.next_run_at {
        Some(next) => !before(now, next),
        None => false,
    }
    &&& !has_running(s.runs, job.id)
}

/// The moment of a job that has one.
pub open spec fn due_at(job: JobModel) -> Seq<char> {
    match job.next_run_at {
        Some(next) => next,
        None => Seq::empty(),
    }
}

/// The position, among the first jobs, of the one that is due first.
pub open spec fn first_due(s: StoreModel, jobs: Seq<JobModel>, now: Seq<char>) -> Option<int>
    decreases jobs.len(),
{
    if jobs.len() == 0 {
        None
    } else {
        let earlier = first_due(s, jobs.drop_last(), now);
        let last = jobs.len() - 1;
        if !is_due(s, jobs[last], now) {
            earlier
        } else {
            match earlier {
                None => Some(last),
                Some(at) => if before(due_at(jobs[last]), due_at(jobs[at])) {
                    Some(last)
                } else {
                    earlier
                },
            }
        }
    }
}

/// A stored job is due.
pub open spec fn is_due_row(row: DueRowModel, runs: Seq<RunModel>, now: Seq<char>) -> bool {
    &&& row.status == "active"@
    &&& match row.next_run_at {
        Some(next) => !before(now, next),
        None => false,
    }
    &&& !has_running(runs, row.id)
}

/// The position, among the first rows, of the job that is due first.
pub open spec fn first_due_row(
    rows: Seq<DueRowModel>,
    runs: Seq<RunModel>,
    now: Seq<char>,
) -> Option<int>
    decreases rows.len(),
{
    if rows.len() == 0 {
        None
    } else {
        let earlier = first_due_row(rows.drop_last(), runs, now);
        let last = rows.len() - 1;
        if !is_due_row(rows[last], runs, now) {
            earlier
        } else {
            match earlier {
                None => Some(last),
                Some(at) => if row_before(rows[last], rows[at]) {
                    Some(last)
                } else {
                    earlier
                },
            }
        }
    }
}

/// A stored job with a moment comes before another with a moment.
pub open spec fn row_before(a: DueRowModel, b: DueRowModel) -> bool {
    match (a.next_run_at, b.next_run_at) {
        (Some(a), Some(b)) => before(a, b),
        _ => false,
    }
}

/// The moment of a job after a run by its schedule: none where it runs once.
pub open spec fn later_run(schedule: ScheduleModel, now: TimestampModel) -> Result<
    Option<Seq<char>>,
    Seq<char>,
> {
    match schedule {
        ScheduleModel::Once(_) => Ok(None),
        ScheduleModel::Daily(time, _) => match clock_read(time) {
            Err(message) => Err(message),
            Ok(clock) => match daily_run((now.seconds + 1) as i64, clock) {
                Err(message) => Err(message),
                Ok(run) => Ok(Some(run.utc_text)),
            },
        },
    }
}

/// The store with a run of the job that is due first, if there is one; `later` is the moment of the
/// job after that run.
pub open spec fn due_claimed(
    s: StoreModel,
    at: int,
    later: Result<Option<Seq<char>>, Seq<char>>,
) -> Result<(StoreModel, JobModel, RunModel), Seq<char>> {
    let job = s.jobs[at];
    match later {
        Err(message) => Err(message),
        Ok(next) => match run_inserted(
            StoreModel {
                jobs: s.jobs.update(at, JobModel { next_run_at: next, ..job }),
                ..s
            },
            job.id,
            "scheduled"@,
            due_at(job),
        ) {
            Err(message) => Err(message),
            Ok(done) => Ok((done.0, job, done.1)),
        },
    }
}

/// A run with the result of its plan.
pub open spec fn finished_run(run: RunModel, plan: PlanModel, result: ToolResultModel) -> RunModel {
    RunModel {
        status: run_status(result.outcome),
        trace: Some(kept_trace(result.content, plan)),
        error: text_at(kept_trace(result.content, plan), "error"@),
        ..run
    }
}

/// The runs with the result of one.
pub open spec fn runs_finished(
    runs: Seq<RunModel>,
    id: i64,
    plan: PlanModel,
    result: ToolResultModel,
) -> Seq<RunModel> {
    Seq::new(
        runs.len(),
        |i: int|
            if runs[i].id == id {
                finished_run(runs[i], plan, result)
            } else {
                runs[i]
            },
    )
}

/// A run after a restart: one that went on was interrupted.
pub open spec fn recovered_run(run: RunModel) -> RunModel {
    if is_running(run) {
        RunModel {
            status: "interrupted"@,
            error: Some("процесс был перезапущен"@),
            ..run
        }
    } else {
        run
    }
}

/// The runs after a restart.
pub open spec fn runs_recovered(runs: Seq<RunModel>) -> Seq<RunModel> {
    Seq::new(runs.len(), |i: int| recovered_run(runs[i]))
}

/// How many runs go on.
pub open spec fn running_count(runs: Seq<RunModel>) -> nat
    decreases runs.len(),
{
    if runs.len() == 0 {
        0
    } else {
        running_count(runs.drop_last()) + if is_running(runs.last()) {
            1nat
        } else {
            0nat
        }
    }
}

/// The jobs that are not deleted.
pub open spec fn kept_jobs(jobs: Seq<JobModel>) -> Seq<JobModel>
    decreases jobs.len(),
{
    if jobs.len() == 0 {
        Seq::empty()
    } else if jobs.last().status == GenericJobStatus::Deleted {
        kept_jobs(jobs.drop_last())
    } else {
        kept_jobs(jobs.drop_last()).push(jobs.last())
    }
}

/// The last runs of a job, the newest first, at most so many.
pub open spec fn latest_runs(runs: Seq<RunModel>, job_id: i64, limit: nat) -> Seq<RunModel>
    decreases runs.len(),
{
    if runs.len() == 0 || limit == 0 {
        Seq::empty()
    } else if runs.last().job_id == job_id {
        seq![runs.last()] + latest_runs(runs.drop_last(), job_id, (limit - 1) as nat)
    } else {
        latest_runs(runs.drop_last(), job_id, limit)
    }
}

/// How many runs of a history are shown.
pub open spec fn shown_limit(limit: u32) -> nat {
    if limit < 100 {
        limit as nat
    } else {
        100
    }
}

/// A job and its last runs.
#[derive(Debug, PartialEq, Eq)]
pub struct GenericHistory {
    pub job: GenericJob,
    pub runs: Vec<GenericRun>,
}

fn text_running(run: &GenericRun) -> (r: bool)
    ensures
        r == is_running(run@),
{
    same(run.status.as_str(), "running")
}

fn running_in(runs: &Vec<GenericRun>, job_id: i64) -> (r: bool)
    ensures
        r == has_running(views(runs@), job_id),
{
    let ghost model = views(runs@);
    let mut i: usize = 0;
    while i < runs.len()
        invariant
            i <= runs@.len(),
            model == views(runs@),
            forall|k: int|
                0 <= k < i ==> !(is_running(#[trigger] model[k]) && model[k].job_id == job_id),
        decreases runs.len() - i,
    {
        proof {
            assert(model[i as int] == runs@[i as int]@);
        }
        if text_running(&runs[i]) && runs[i].job_id == job_id {
            proof {
                assert(is_running(model[i as int]));
            }
            return true;
        }
        i += 1;
    }
    false
}

fn row_due(row: &DueRow, runs: &Vec<GenericRun>, now: &str) -> (r: bool)
    ensures
        r == is_due_row(row@, views(runs@), now@),
{
    let came = match &row.next_run_at {
        Some(next) => !text_before(now, next.as_str()),
        None => false,
    };
    same(row.status.as_str(), "active") && came && !running_in(runs, row.id)
}

/// Finds, among stored jobs, the one that is due first; no other is read.
pub fn due_row(rows: &Vec<DueRow>, runs: &Vec<GenericRun>, now: &str) -> (r: Option<usize>)
    ensures
        match r {
            Some(at) => at < rows@.len() && first_due_row(views(rows@), views(runs@), now@) == Some(
                at as int,
            ),
            None => first_due_row(views(rows@), views(runs@), now@) is None,
        },
{
    let ghost model = views(rows@);
    let mut found: Option<usize> = None;
    let mut i: usize = 0;
    proof {
        assert(model.take(0).len() == 0);
    }
    while i < rows.len()
        invariant
            i <= rows@.len(),
            model == views(rows@),
            match found {
                Some(at) => at < i && first_due_row(model.take(i as int), views(runs@), now@)
                    == Some(at as int),
                None => first_due_row(model.take(i as int), views(runs@), now@) is None,
            },
        decreases rows.len() - i,
    {
        proof {
            assert(model.take(i + 1).drop_last() =~= model.take(i as int));
            assert(model.take(i + 1)[i as int] == rows@[i as int]@);
        }
        if row_due(&rows[i], runs, now) {
            match found {
                None => {
                    found = Some(i);
                },
                Some(at) => {
                    proof {
                        assert(model.take(i + 1)[at as int] == rows@[at as int]@);
                    }
                    let sooner = match (&rows[i].next_run_at, &rows[at].next_run_at) {
                        (Some(a), Some(b)) => text_before(a.as_str(), b.as_str()),
                        _ => false,
                    };
                    if sooner {
                        found = Some(i);
                    }
                },
            }
        }
        i += 1;
    }
    proof {
        assert(model.take(i as int) =~= model);
    }
    found
}

/// How many runs of a history are shown.
pub fn history_limit(limit: u32) -> (r: u32)
    ensures
        r == shown_limit(limit),
{
    if limit < 100 {
        limit
    } else {
        100
    }
}

impl GenericSchedulerStore {
    fn numbered(&self) -> (r: bool)
        ensures
            r == (jobs_numbered(self@.jobs, self.next_job) && runs_numbered(
                self@.runs,
                self.next_run,
            )),
    {
        let ghost jobs = self@.jobs;
        let ghost runs = self@.runs;
        let mut i: usize = 0;
        while i < self.jobs.len()
            invariant
                i <= self.jobs@.len(),
                jobs == self@.jobs,
                jobs == views(self.jobs@),
                forall|k: int| 0 <= k < i ==> (#[trigger] jobs[k]).id < self.next_job,
                forall|k: int, m: int|
                    0 <= k < m < i ==> (#[trigger] jobs[k]).id < (#[trigger] jobs[m]).id,
            decreases self.jobs.len() - i,
        {
            proof {
                assert(jobs[i as int] == self.jobs@[i as int]@);
                if i > 0 {
                    assert(jobs[i - 1] == self.jobs@[i - 1]@);
                }
            }
            if self.jobs[i].id >= self.next_job {
                return false;
            }
            if i > 0 && self.jobs[i - 1].id >= self.jobs[i].id {
                proof {
                    assert(!(jobs[i - 1].id < jobs[i as int].id));
                }
                return false;
            }
            i += 1;
        }
        let mut j: usize = 0;
        while j < self.runs.len()
            invariant
                j <= self.runs@.len(),
                runs == self@.runs,
                runs == views(self.runs@),
                forall|k: int| 0 <= k < j ==> (#[trigger] runs[k]).id < self.next_run,
                forall|k: int, m: int|
                    0 <= k < m < j ==> (#[trigger] runs[k]).id < (#[trigger] runs[m]).id,
            decreases self.runs.len() - j,
        {
            proof {
                assert(runs[j as int] == self.runs@[j as int]@);
                if j > 0 {
                    assert(runs[j - 1] == self.runs@[j - 1]@);
                }
            }
            if self.runs[j].id >= self.next_run {
                return false;
            }
            if j > 0 && self.runs[j - 1].id >= self.runs[j].id {
                proof {
                    assert(!(runs[j - 1].id < runs[j as int].id));
                }
                return false;
            }
            j += 1;
        }
        true
    }

    fn exclusive(&self) -> (r: bool)
        ensures
            r == runs_exclusive(self@.runs),
    {
        let ghost runs = self@.runs;
        let total: usize = self.runs.len();
        let mut i: usize = 0;
        while i < total
            invariant
                i <= total,
                total == self.runs@.len(),
                runs == self@.runs,
                runs == views(self.runs@),
                forall|k: int, m: int|
                    0 <= k < m < runs.len() && k < i && is_running(#[trigger] runs[k]) && is_running(
                        #[trigger] runs[m],
                    ) ==> runs[k].job_id != runs[m].job_id,
            decreases total - i,
        {
            let mut j: usize = i + 1;
            let running = text_running(&self.runs[i]);
            proof {
                assert(runs[i as int] == self.runs@[i as int]@);
            }
            while j < total
                invariant
                    i < j <= total,
                    total == self.runs@.len(),
                    runs == self@.runs,
                    runs == views(self.runs@),
                    running == is_running(runs[i as int]),
                    runs[i as int] == self.runs@[i as int]@,
                    forall|m: int|
                        i < m < j && running && is_running(#[trigger] runs[m])
                            ==> runs[i as int].job_id != runs[m].job_id,
                decreases total - j,
            {
                proof {
                    assert(runs[j as int] == self.runs@[j as int]@);
                }
                if running && text_running(&self.runs[j]) && self.runs[i].job_id
                    == self.runs[j].job_id {
                    proof {
                        assert(is_running(runs[i as int]) && is_running(runs[j as int]));
                    }
                    return false;
                }
                j += 1;
            }
            i += 1;
        }
        true
    }

    /// Opens a store with what was stored. A store that is not sound is refused.
    pub fn open(
        jobs: Vec<GenericJob>,
        runs: Vec<GenericRun>,
        next_job: i64,
        next_run: i64,
    ) -> (r: Result<GenericSchedulerStore, String>)
        ensures
            ({
                let model = StoreModel {
                    jobs: views(jobs@),
                    runs: views(runs@),
                    next_job,
                    next_run,
                };
                match r {
                    Ok(store) => store_wf(model) && store@ == model,
                    Err(message) => !store_wf(model) && message@
                        == "база orchestrator повреждена"@,
                }
            }),
    {
        let store = GenericSchedulerStore { jobs, runs, next_job, next_run };
        if store.numbered() && store.exclusive() {
            Ok(store)
        } else {
            Err("база orchestrator повреждена".to_owned())
        }
    }

    fn find_job(&self, id: i64) -> (r: usize)
        ensures
            r == job_index(self@.jobs, id),
            r <= self.jobs@.len(),
    {
        let ghost model = self@.jobs;
        let mut i: usize = 0;
        proof {
            assert(model.skip(0) =~= model);
        }
        while i < self.jobs.len() && self.jobs[i].id != id
            invariant
                i <= self.jobs@.len(),
                model == self@.jobs,
                model == views(self.jobs@),
                job_index(model, id) == i + job_index(model.skip(i as int), id),
            decreases self.jobs.len() - i,
        {
            proof {
                assert(model.skip(i as int).skip(1) =~= model.skip(i + 1));
                assert(model.skip(i as int)[0] == self.jobs@[i as int]@);
            }
            i += 1;
        }
        proof {
            if i < self.jobs@.len() {
                assert(model.skip(i as int)[0] == self.jobs@[i as int]@);
            }
        }
        i
    }

    fn job_running(&self, job_id: i64) -> (r: bool)
        ensures
            r == has_running(self@.runs, job_id),
    {
        running_in(&self.runs, job_id)
    }

    /// Adds a job that was confirmed. Its first run lies ahead.
    pub fn create_job(
        &mut self,
        name: &str,
        schedule: &ScheduleSpec,
        pipeline: &PipelinePlan,
        now: &Timestamp,
    ) -> (r: Result<GenericJob, String>)
        requires
            store_wf(old(self)@),
            i64::MIN + 1_000_000 <= now@.seconds <= i64::MAX - 1_000_000,
        ensures
            store_wf(final(self)@),
            match (
                r,
                job_added(
                    old(self)@,
                    name@,
                    schedule@,
                    pipeline@,
                    following_run(schedule@, now@),
                    schedule_error(
                        schedule@,
                        now@,
                        moment_read(schedule@),
                        time_read(schedule@),
                    ),
                ),
            ) {
                (Ok(job), Ok(model)) => job@ == model.1 && final(self)@ == model.0,
                (Err(message), Err(model)) => message@ == model && final(self)@ == old(self)@,
                _ => false,
            },
    {
        if is_blank(name) {
            return Err("имя задания не должно быть пустым".to_owned());
        }
        if let Err(message) = validate_schedule(schedule, now) {
            return Err(message);
        }
        let next = match next_run(schedule, now) {
            Ok(next) => next,
            Err(message) => return Err(message),
        };
        if self.next_job == i64::MAX {
            return Err("исчерпаны номера заданий".to_owned());
        }
        let job = GenericJob {
            id: self.next_job,
            name: trimmed(name),
            schedule: schedule.copy(),
            pipeline: copy_plan(pipeline),
            authorization_hash: canonical_hash(schedule, pipeline),
            status: GenericJobStatus::Active,
            next_run_at: Some(next.utc_text),
        };
        let copy = job.copy();
        self.jobs.push(job);
        self.next_job += 1;
        Ok(copy)
    }

    /// The jobs that are not deleted.
    pub fn list_jobs(&self) -> (r: Vec<GenericJob>)
        ensures
            views(r@) == kept_jobs(self@.jobs),
    {
        let ghost model = self@.jobs;
        let mut out: Vec<GenericJob> = Vec::new();
        let mut i: usize = 0;
        proof {
            assert(model.take(0).len() == 0);
            assert(views(out@) =~= Seq::<JobModel>::empty());
        }
        while i < self.jobs.len()
            invariant
                i <= self.jobs@.len(),
                model == self@.jobs,
                model == views(self.jobs@),
                views(out@) == kept_jobs(model.take(i as int)),
            decreases self.jobs.len() - i,
        {
            proof {
                assert(model.take(i + 1).drop_last() =~= model.take(i as int));
                assert(model.take(i + 1).last() == self.jobs@[i as int]@);
            }
            match self.jobs[i].status {
                GenericJobStatus::Deleted => {},
                _ => {
                    out.push(self.jobs[i].copy());
                },
            }
            i += 1;
        }
        proof {
            assert(model.take(i as int) =~= model);
        }
        out
    }

    /// Changes the status of a job. A job that is deleted stays deleted.
    pub fn set_status(&mut self, id: i64, status: GenericJobStatus) -> (r: Result<
        GenericJob,
        String,
    >)
        requires
            store_wf(old(self)@),
        ensures
            store_wf(final(self)@),
            match (r, status_set(old(self)@, id, status)) {
                (Ok(job), Ok(model)) => job@ == model.1 && final(self)@ == model.0,
                (Err(message), Err(model)) => message@ == model && final(self)@ == old(self)@,
                _ => false,
            },
    {
        let ghost start = self@;
        let at = self.find_job(id);
        if at >= self.jobs.len() {
            return Err(
                "задание #".to_owned().concat(signed_text(id).as_str()).concat(" не найдено"),
            );
        }
        let mut job = self.jobs[at].copy();
        let deleted = match job.status {
            GenericJobStatus::Deleted => true,
            _ => false,
        };
        let deleting = match status {
            GenericJobStatus::Deleted => true,
            _ => false,
        };
        if deleted && !deleting {
            return Err("удалённое задание нельзя возобновить".to_owned());
        }
        job.status = status;
        let copy = job.copy();
        let ghost changed = job@;
        self.jobs.set(at, job);
        proof {
            assert(self@.jobs =~= start.jobs.update(at as int, changed));
            lemma_update_keeps_numbers(start.jobs, start.next_job, at as int, changed);
        }
        Ok(copy)
    }

    fn insert_run(&mut self, job_id: i64, trigger: &str, scheduled_at: &str) -> (r: Result<
        GenericRun,
        String,
    >)
        requires
            store_wf(old(self)@),
        ensures
            store_wf(final(self)@),
            match (r, run_inserted(old(self)@, job_id, trigger@, scheduled_at@)) {
                (Ok(run), Ok(model)) => run@ == model.1 && final(self)@ == model.0,
                (Err(message), Err(model)) => message@ == model && final(self)@ == old(self)@,
                _ => false,
            },
    {
        let ghost start = self@;
        if self.job_running(job_id) {
            return Err("UNIQUE constraint failed: orchestration_runs.job_id".to_owned());
        }
        if self.next_run == i64::MAX {
            return Err("исчерпаны номера запусков".to_owned());
        }
        let run = GenericRun {
            id: self.next_run,
            job_id,
            trigger: trigger.to_owned(),
            scheduled_at: scheduled_at.to_owned(),
            status: "running".to_owned(),
            trace: None,
            error: None,
        };
        let copy = run.copy();
        self.runs.push(run);
        self.next_run += 1;
        proof {
            lemma_inserted_run_is_alone(start.runs, copy@);
        }
        Ok(copy)
    }

    /// Begins a run of a job that was asked for. The moment of its next run by the schedule stays.
    pub fn claim_manual(&mut self, id: i64, now: &Timestamp) -> (r: Result<
        (GenericJob, GenericRun),
        String,
    >)
        requires
            store_wf(old(self)@),
        ensures
            store_wf(final(self)@),
            final(self)@.jobs == old(self)@.jobs,
            match (r, manual_claimed(old(self)@, id, now@)) {
                (Ok(claim), Ok(model)) => final(self)@ == model.0 && claim.0@ == model.1
                    && claim.1@ == model.2,
                (Err(message), Err(model)) => message@ == model && final(self)@ == old(self)@,
                _ => false,
            },
    {
        let at = self.find_job(id);
        if at >= self.jobs.len() {
            return Err(
                "задание #".to_owned().concat(signed_text(id).as_str()).concat(" не найдено"),
            );
        }
        let job = self.jobs[at].copy();
        proof {
            lemma_job_index(self@.jobs, id);
        }
        match job.status {
            GenericJobStatus::Deleted => return Err("задание удалено".to_owned()),
            _ => {},
        }
        match self.insert_run(id, "manual", now.utc_text.as_str()) {
            Ok(run) => Ok((job, run)),
            Err(message) => Err(message),
        }
    }

    fn job_due(&self, at: usize, now: &str) -> (r: bool)
        requires
            at < self.jobs@.len(),
        ensures
            r == is_due(self@, self@.jobs[at as int], now@),
    {
        let active = match self.jobs[at].status {
            GenericJobStatus::Active => true,
            _ => false,
        };
        let came = match &self.jobs[at].next_run_at {
            Some(next) => !text_before(now, next.as_str()),
            None => false,
        };
        active && came && !self.job_running(self.jobs[at].id)
    }

    fn due_first(&self, now: &str) -> (r: Option<usize>)
        ensures
            match r {
                Some(at) => at < self.jobs@.len() && first_due(self@, self@.jobs, now@) == Some(
                    at as int,
                ),
                None => first_due(self@, self@.jobs, now@) is None,
            },
    {
        let ghost model = self@.jobs;
        let mut found: Option<usize> = None;
        let mut i: usize = 0;
        proof {
            assert(model.take(0).len() == 0);
        }
        while i < self.jobs.len()
            invariant
                i <= self.jobs@.len(),
                model == self@.jobs,
                model == views(self.jobs@),
                match found {
                    Some(at) => at < i && first_due(self@, model.take(i as int), now@) == Some(
                        at as int,
                    ) && model[at as int].next_run_at is Some,
                    None => first_due(self@, model.take(i as int), now@) is None,
                },
            decreases self.jobs.len() - i,
        {
            proof {
                assert(model.take(i + 1).drop_last() =~= model.take(i as int));
                assert(model.take(i + 1)[i as int] == self.jobs@[i as int]@);
                assert(model[i as int] == self.jobs@[i as int]@);
            }
            if self.job_due(i, now) {
                match found {
                    None => {
                        found = Some(i);
                    },
                    Some(at) => {
                        proof {
                            assert(model.take(i + 1)[at as int] == model[at as int]);
                            assert(model[at as int] == self.jobs@[at as int]@);
                        }
                        let sooner = match (&self.jobs[i].next_run_at, &self.jobs[at].next_run_at) {
                            (Some(a), Some(b)) => text_before(a.as_str(), b.as_str()),
                            _ => false,
                        };
                        if sooner {
                            found = Some(i);
                        }
                    },
                }
            }
            i += 1;
        }
        proof {
            assert(model.take(i as int) =~= model);
        }
        found
    }

    /// Begins a run of the job that is due first, if there is one.
    pub fn claim_due(&mut self, now: &Timestamp) -> (r: Result<
        Option<(GenericJob, GenericRun)>,
        String,
    >)
        requires
            store_wf(old(self)@),
            i64::MIN + 1_000_000 <= now@.seconds <= i64::MAX - 1_000_001,
        ensures
            store_wf(final(self)@),
            match first_due(old(self)@, old(self)@.jobs, now@.utc_text) {
                None => r == Ok::<Option<(GenericJob, GenericRun)>, String>(None) && final(self)@
                    == old(self)@,
                Some(at) => match (
                    r,
                    due_claimed(
                        old(self)@,
                        at,
                        later_run(old(self)@.jobs[at].schedule, now@),
                    ),
                ) {
                    (Ok(Some(claim)), Ok(model)) => claim.0@ == model.1 && claim.1@ == model.2
                        && final(self)@ == model.0,
                    (Err(message), Err(model)) => message@ == model && final(self)@ == old(self)@,
                    _ => false,
                },
            },
            match first_due(old(self)@, old(self)@.jobs, now@.utc_text) {
                None => true,
                Some(at) => old(self)@.jobs[at].schedule matches ScheduleModel::Daily(time, _) ==> (
                clock_read(time) is Ok && in_years(now@) && old(self)@.next_run < i64::MAX
                    ==> r is Ok && final(self)@.jobs[at].next_run_at is Some),
            },
    {
        let ghost start = self@;
        let at = match self.due_first(now.utc_text.as_str()) {
            Some(at) => at,
            None => return Ok(None),
        };
        let job = self.jobs[at].copy();
        proof {
            lemma_first_due(start, start.jobs, now@.utc_text);
            assert(job@ == start.jobs[at as int]);
        }
        let next = match &job.schedule {
            ScheduleSpec::Once(_) => None,
            ScheduleSpec::Daily(time, _) => match read_clock(time.as_str()) {
                Err(message) => return Err(message),
                Ok(clock) => match run_daily(now.seconds + 1, clock) {
                    Err(message) => return Err(message),
                    Ok(run) => Some(run.utc_text),
                },
            },
        };
        if self.next_run == i64::MAX {
            return Err("исчерпаны номера запусков".to_owned());
        }
        let scheduled_at = match &job.next_run_at {
            Some(text) => text.clone(),
            None => String::new(),
        };
        let mut changed = self.jobs[at].copy();
        changed.next_run_at = next;
        let ghost after = changed@;
        self.jobs.set(at, changed);
        proof {
            assert(scheduled_at@ =~= due_at(job@));
            assert(self@.jobs =~= start.jobs.update(at as int, after));
            lemma_update_keeps_numbers(start.jobs, start.next_job, at as int, after);
        }
        match self.insert_run(job.id, "scheduled", scheduled_at.as_str()) {
            Ok(run) => Ok(Some((job, run))),
            Err(message) => {
                proof {
                    assert(false);
                }
                Err(message)
            },
        }
    }

    /// Keeps the result of a run, without what must not be kept.
    pub fn finish_run(&mut self, id: i64, plan: &PipelinePlan, result: &ToolResult)
        requires
            store_wf(old(self)@),
        ensures
            store_wf(final(self)@),
            final(self)@ == (StoreModel {
                runs: runs_finished(old(self)@.runs, id, plan@, result@),
                ..old(self)@
            }),
    {
        let ghost start = self@;
        let ghost all = runs_finished(start.runs, id, plan@, result@);
        let total: usize = self.runs.len();
        let mut i: usize = 0;
        proof {
            assert(all.take(0) + start.runs.skip(0) =~= start.runs);
        }
        while i < total
            invariant
                i <= total,
                total == self.runs@.len(),
                total == start.runs.len(),
                all == runs_finished(start.runs, id, plan@, result@),
                self@ == (StoreModel {
                    runs: all.take(i as int) + start.runs.skip(i as int),
                    ..start
                }),
            decreases total - i,
        {
            let ghost before = self@.runs;
            proof {
                assert(self@.runs[i as int] == self.runs@[i as int]@);
                assert(self@.runs[i as int] == start.runs[i as int]);
                assert(all[i as int] == if start.runs[i as int].id == id {
                    finished_run(start.runs[i as int], plan@, result@)
                } else {
                    start.runs[i as int]
                });
            }
            if self.runs[i].id == id {
                let trace = redact_trace(&result.content, plan);
                let error = match trace.get_text("error") {
                    Some(text) => Some(text.clone()),
                    None => None,
                };
                let run = GenericRun {
                    id,
                    job_id: self.runs[i].job_id,
                    trigger: self.runs[i].trigger.clone(),
                    scheduled_at: self.runs[i].scheduled_at.clone(),
                    status: finished_status(result.outcome).to_owned(),
                    trace: Some(trace),
                    error,
                };
                proof {
                    assert(run@ == all[i as int]);
                }
                self.runs.set(i, run);
            }
            proof {
                assert(self@.runs =~= before.update(i as int, all[i as int]));
                assert(self@.runs =~= all.take(i + 1) + start.runs.skip(i + 1));
            }
            i += 1;
        }
        proof {
            assert(all.take(i as int) + start.runs.skip(i as int) =~= all);
            reveal_strlit("running");
            reveal_strlit("succeeded");
            reveal_strlit("failed");
            reveal_strlit("unknown");
            assert("running"@.len() == 7 && "succeeded"@.len() == 9 && "failed"@.len() == 6);
            assert("running"@[0] == 'r' && "unknown"@[0] == 'u');
            assert forall|k: int| 0 <= k < start.runs.len() implies (#[trigger] all[k]).id
                == start.runs[k].id && all[k].job_id == start.runs[k].job_id && (is_running(all[k])
                ==> is_running(start.runs[k])) by {
                assert(!is_running(finished_run(start.runs[k], plan@, result@)));
            }
            lemma_fewer_running(start.runs, all, start.next_run);
        }
    }

    /// Marks the runs that went on before a restart as interrupted, and tells how many.
    pub fn recover_interrupted(&mut self) -> (r: usize)
        requires
            store_wf(old(self)@),
        ensures
            store_wf(final(self)@),
            r == running_count(old(self)@.runs),
            final(self)@ == (StoreModel { runs: runs_recovered(old(self)@.runs), ..old(self)@ }),
    {
        let ghost start = self@;
        let ghost all = runs_recovered(start.runs);
        let total: usize = self.runs.len();
        let mut count: usize = 0;
        let mut i: usize = 0;
        proof {
            assert(start.runs.take(0).len() == 0);
            assert(all.take(0) + start.runs.skip(0) =~= start.runs);
        }
        while i < total
            invariant
                i <= total,
                count <= i,
                total == self.runs@.len(),
                total == start.runs.len(),
                all == runs_recovered(start.runs),
                count == running_count(start.runs.take(i as int)),
                self@ == (StoreModel {
                    runs: all.take(i as int) + start.runs.skip(i as int),
                    ..start
                }),
            decreases total - i,
        {
            let ghost before = self@.runs;
            proof {
                assert(start.runs.take(i + 1).drop_last() =~= start.runs.take(i as int));
                assert(start.runs.take(i + 1).last() == start.runs[i as int]);
                assert(self@.runs[i as int] == self.runs@[i as int]@);
                assert(self@.runs[i as int] == start.runs[i as int]);
                assert(all[i as int] == recovered_run(start.runs[i as int]));
            }
            if text_running(&self.runs[i]) {
                let mut run = self.runs[i].copy();
                run.status = "interrupted".to_owned();
                run.error = Some("процесс был перезапущен".to_owned());
                proof {
                    assert(run@ == all[i as int]);
                }
                self.runs.set(i, run);
                count += 1;
            }
            proof {
                assert(self@.runs =~= before.update(i as int, all[i as int]));
                assert(self@.runs =~= all.take(i + 1) + start.runs.skip(i + 1));
            }
            i += 1;
        }
        proof {
            assert(start.runs.take(i as int) =~= start.runs);
            assert(all.take(i as int) + start.runs.skip(i as int) =~= all);
            reveal_strlit("running");
            reveal_strlit("interrupted");
            assert("running"@.len() != "interrupted"@.len());
            lemma_fewer_running(start.runs, all, start.next_run);
        }
        count
    }

    /// A job and its last runs, the newest first.
    pub fn history(&self, id: i64, limit: u32) -> (r: Result<GenericHistory, String>)
        ensures
            match (r, job_with(self@.jobs, id)) {
                (Ok(history), Some(job)) => history.job@ == job && views(history.runs@)
                    == latest_runs(self@.runs, id, shown_limit(limit)),
                (Err(message), None) => message@ == no_job(id),
                _ => false,
            },
    {
        let at = self.find_job(id);
        if at >= self.jobs.len() {
            return Err(
                "задание #".to_owned().concat(signed_text(id).as_str()).concat(" не найдено"),
            );
        }
        let job = self.jobs[at].copy();
        let ghost model = self@.runs;
        let max = history_limit(limit);
        let mut left: u32 = max;
        let mut runs: Vec<GenericRun> = Vec::new();
        let mut i: usize = self.runs.len();
        let ghost all = latest_runs(model, id, max as nat);
        proof {
            assert(model.take(i as int) =~= model);
            assert(views(runs@) + all =~= all);
        }
        while i > 0 && left > 0
            invariant
                i <= self.runs@.len(),
                model == self@.runs,
                model == views(self.runs@),
                all == latest_runs(model, id, max as nat),
                views(runs@) + latest_runs(model.take(i as int), id, left as nat) == all,
            decreases i,
        {
            i -= 1;
            let ghost earlier = views(runs@);
            proof {
                assert(model.take(i + 1).drop_last() =~= model.take(i as int));
                assert(model.take(i + 1).last() == self.runs@[i as int]@);
            }
            if self.runs[i].job_id == id {
                let copy = self.runs[i].copy();
                proof {
                    let rest = latest_runs(model.take(i as int), id, (left - 1) as nat);
                    assert(earlier + (seq![copy@] + rest) =~= earlier.push(copy@) + rest);
                }
                runs.push(copy);
                left -= 1;
            }
        }
        proof {
            assert(views(runs@) + Seq::<RunModel>::empty() =~= views(runs@));
        }
        Ok(GenericHistory { job, runs })
    }
}

proof fn lemma_update_keeps_numbers(jobs: Seq<JobModel>, next: i64, at: int, job: JobModel)
    requires
        jobs_numbered(jobs, next),
        0 <= at < jobs.len(),
        job.id == jobs[at].id,
    ensures
        jobs_numbered(jobs.update(at, job), next),
{
    let all = jobs.update(at, job);
    assert forall|i: int, j: int| 0 <= i < j < all.len() implies (#[trigger] all[i]).id < (
    #[trigger] all[j]).id by {
        assert(jobs[i].id < jobs[j].id);
    }
    assert forall|i: int| 0 <= i < all.len() implies (#[trigger] all[i]).id < next by {
        assert(jobs[i].id < next);
    }
}

proof fn lemma_inserted_run_is_alone(runs: Seq<RunModel>, run: RunModel)
    requires
        runs_exclusive(runs),
        !has_running(runs, run.job_id),
    ensures
        runs_exclusive(runs.push(run)),
{
    let all = runs.push(run);
    assert forall|i: int, j: int|
        0 <= i < j < all.len() && is_running(#[trigger] all[i]) && is_running(
            #[trigger] all[j],
        ) implies all[i].job_id != all[j].job_id by {
        if j < runs.len() {
            assert(is_running(runs[i]) && is_running(runs[j]));
        } else {
            assert(is_running(runs[i]));
        }
    }
}

proof fn lemma_fewer_running(runs: Seq<RunModel>, after: Seq<RunModel>, next: i64)
    requires
        runs_numbered(runs, next),
        runs_exclusive(runs),
        after.len() == runs.len(),
        forall|i: int|
            0 <= i < runs.len() ==> (#[trigger] after[i]).id == runs[i].id && after[i].job_id
                == runs[i].job_id && (is_running(after[i]) ==> is_running(runs[i])),
    ensures
        runs_numbered(after, next),
        runs_exclusive(after),
{
    assert forall|i: int, j: int| 0 <= i < j < after.len() implies (#[trigger] after[i]).id < (
    #[trigger] after[j]).id by {
        assert(runs[i].id < runs[j].id);
    }
    assert forall|i: int| 0 <= i < after.len() implies (#[trigger] after[i]).id < next by {
        assert(runs[i].id < next);
    }
    assert forall|i: int, j: int|
        0 <= i < j < after.len() && is_running(#[trigger] after[i]) && is_running(
            #[trigger] after[j],
        ) implies after[i].job_id != after[j].job_id by {
        assert(is_running(runs[i]) && is_running(runs[j]));
    }
}

proof fn lemma_first_due(s: StoreModel, jobs: Seq<JobModel>, now: Seq<char>)
    ensures
        match first_due(s, jobs, now) {
            Some(at) => 0 <= at < jobs.len() && is_due(s, jobs[at], now) && forall|i: int|
                0 <= i < jobs.len() && is_due(s, #[trigger] jobs[i], now) ==> !before(
                    due_at(jobs[i]),
                    due_at(jobs[at]),
                ),
            None => forall|i: int|
                0 <= i < jobs.len() ==> !is_due(s, #[trigger] jobs[i], now),
        },
    decreases jobs.len(),
{
    if jobs.len() > 0 {
        let head = jobs.drop_last();
        let last = jobs.len() - 1;
        lemma_first_due(s, head, now);
        let found = first_due(s, jobs, now);
        match found {
            None => {
                assert forall|i: int| 0 <= i < jobs.len() implies !is_due(
                    s,
                    #[trigger] jobs[i],
                    now,
                ) by {
                    if i < last {
                        assert(head[i] == jobs[i]);
                    }
                }
            },
            Some(at) => {
                if at < last {
                    assert(head[at] == jobs[at]);
                }
                assert forall|i: int|
                    0 <= i < jobs.len() && is_due(s, #[trigger] jobs[i], now) implies !before(
                    due_at(jobs[i]),
                    due_at(jobs[at]),
                ) by {
                    lemma_before_total(due_at(jobs[at]), due_at(jobs[at]));
                    if i < last {
                        assert(head[i] == jobs[i]);
                        if at == last {
                            if let Some(was) = first_due(s, head, now) {
                                assert(head[was] == jobs[was]);
                                assert(!before(due_at(jobs[i]), due_at(jobs[was])));
                                assert(before(due_at(jobs[last]), due_at(jobs[was])));
                                if before(due_at(jobs[i]), due_at(jobs[last])) {
                                    lemma_before_transitive(
                                        due_at(jobs[i]),
                                        due_at(jobs[last]),
                                        due_at(jobs[was]),
                                    );
                                }
                            }
                        }
                    } else if at < last {
                        assert(i == last);
                    }
                }
            },
        }
    }
}

/// The job that is claimed is due, and no job that is due has an earlier moment; where no job is due,
/// none is claimed.
pub proof fn law_earliest_due_job_is_claimed(s: StoreModel, now: Seq<char>)
    ensures
        match first_due(s, s.jobs, now) {
            Some(at) => 0 <= at < s.jobs.len() && is_due(s, s.jobs[at], now) && forall|i: int|
                0 <= i < s.jobs.len() && is_due(s, #[trigger] s.jobs[i], now) ==> !before(
                    due_at(s.jobs[i]),
                    due_at(s.jobs[at]),
                ),
            None => forall|i: int|
                0 <= i < s.jobs.len() ==> !is_due(s, #[trigger] s.jobs[i], now),
        },
{
    lemma_first_due(s, s.jobs, now);
}

/// A stored job stands for a job, as far as it tells when the job is due.
pub open spec fn stands_for(row: DueRowModel, job: JobModel) -> bool {
    &&& row.id == job.id
    &&& row.next_run_at == job.next_run_at
    &&& status_named(row.status) == Some(job.status)
}

/// The stored job that is due first is the job that is due first, where every row can be read.
pub proof fn law_due_row_is_the_due_job(
    rows: Seq<DueRowModel>,
    s: StoreModel,
    jobs: Seq<JobModel>,
    now: Seq<char>,
)
    requires
        rows.len() == jobs.len(),
        forall|i: int| 0 <= i < rows.len() ==> stands_for(#[trigger] rows[i], jobs[i]),
    ensures
        first_due_row(rows, s.runs, now) == first_due(s, jobs, now),
    decreases rows.len(),
{
    if rows.len() > 0 {
        let last = rows.len() - 1;
        assert forall|i: int| 0 <= i < last implies stands_for(
            #[trigger] rows.drop_last()[i],
            jobs.drop_last()[i],
        ) by {
            assert(stands_for(rows[i], jobs[i]));
        }
        law_due_row_is_the_due_job(rows.drop_last(), s, jobs.drop_last(), now);
        assert(stands_for(rows[last], jobs[last]));
        lemma_first_due(s, jobs.drop_last(), now);
        if let Some(at) = first_due(s, jobs.drop_last(), now) {
            assert(stands_for(rows[at], jobs[at]));
            assert(jobs.drop_last()[at] == jobs[at]);
        }
    }
}

/// The job that is due first is claimed in the same way from a store that holds no other job,
/// whatever runs it holds, as long as none of the job goes on.
pub proof fn law_due_job_is_claimed_alone(
    s: StoreModel,
    runs: Seq<RunModel>,
    now: TimestampModel,
    at: int,
)
    requires
        first_due(s, s.jobs, now.utc_text) == Some(at),
        !has_running(runs, s.jobs[at].id),
    ensures
        ({
            let alone = StoreModel { jobs: seq![s.jobs[at]], runs, ..s };
            let later = later_run(s.jobs[at].schedule, now);
            &&& first_due(alone, alone.jobs, now.utc_text) == Some(0int)
            &&& match (due_claimed(s, at, later), due_claimed(alone, 0, later)) {
                (Ok(whole), Ok(single)) => whole.1 == single.1 && whole.2 == single.2
                    && single.0.jobs == seq![whole.0.jobs[at]],
                (Err(whole), Err(single)) => whole == single,
                _ => false,
            }
        }),
{
    lemma_first_due(s, s.jobs, now.utc_text);
    let alone = StoreModel { jobs: seq![s.jobs[at]], runs, ..s };
    assert(alone.jobs.drop_last() =~= Seq::<JobModel>::empty());
    assert(first_due(alone, alone.jobs.drop_last(), now.utc_text) is None);
    assert(is_due(alone, alone.jobs[0], now.utc_text));
    match later_run(s.jobs[at].schedule, now) {
        Ok(next) => {
            let job = s.jobs[at];
            assert(alone.jobs.update(0, JobModel { next_run_at: next, ..job }) =~= seq![
                JobModel { next_run_at: next, ..job },
            ]);
        },
        Err(_) => {},
    }
}

/// A job that runs once is due only once: after its run it has no moment left.
pub proof fn law_single_run_happens_once(s: StoreModel, now: TimestampModel, at: int)
    requires
        store_wf(s),
        first_due(s, s.jobs, now.utc_text) == Some(at),
        0 <= at < s.jobs.len(),
        s.jobs[at].schedule is Once,
        due_claimed(s, at, later_run(s.jobs[at].schedule, now)) is Ok,
    ensures
        ({
            let after = due_claimed(s, at, later_run(s.jobs[at].schedule, now))->Ok_0.0;
            &&& after.jobs[at].next_run_at is None
            &&& forall|moment: Seq<char>| !is_due(after, #[trigger] after.jobs[at], moment)
        }),
{
}

/// A job that is deleted is never due and cannot be resumed or run.
pub proof fn law_deleted_jobs_stay_deleted(
    s: StoreModel,
    id: i64,
    status: GenericJobStatus,
    now: TimestampModel,
)
    requires
        job_with(s.jobs, id) is Some,
        job_with(s.jobs, id)->Some_0.status == GenericJobStatus::Deleted,
    ensures
        !is_due(s, job_with(s.jobs, id)->Some_0, now.utc_text),
        manual_claimed(s, id, now) is Err,
        status != GenericJobStatus::Deleted ==> status_set(s, id, status) is Err,
        status_set(s, id, GenericJobStatus::Deleted) is Ok,
{
}

/// After a restart no run goes on, so every job can run again; and no run is lost.
pub proof fn law_restart_leaves_nothing_running(runs: Seq<RunModel>, job_id: i64)
    ensures
        !has_running(runs_recovered(runs), job_id),
        runs_recovered(runs).len() == runs.len(),
{
    reveal_strlit("running");
    reveal_strlit("interrupted");
    assert("running"@.len() == 7 && "interrupted"@.len() == 11);
    let after = runs_recovered(runs);
    assert forall|i: int| 0 <= i < after.len() implies !is_running(#[trigger] after[i]) by {
        assert(after[i] == recovered_run(runs[i]));
    }
}

/// What is read of a store survives the deletion of a job: its runs stay in the history.
pub proof fn law_deletion_keeps_history(s: StoreModel, id: i64, limit: nat)
    requires
        job_with(s.jobs, id) is Some,
    ensures
        status_set(s, id, GenericJobStatus::Deleted) is Ok,
        latest_runs(
            status_set(s, id, GenericJobStatus::Deleted)->Ok_0.0.runs,
            id,
            limit,
        ) == latest_runs(s.runs, id, limit),
{
}

/// A daily job that is claimed runs again: it keeps a moment that lies ahead by at most a day and a
/// second, at which the clocks of Moscow show the time of its schedule, and it is due again from that
/// moment on, once its run is over.
pub proof fn law_daily_job_runs_again(
    s: StoreModel,
    now: TimestampModel,
    at: int,
    clock: u32,
    moment: Seq<char>,
    runs: Seq<RunModel>,
)
    requires
        first_due(s, s.jobs, now.utc_text) == Some(at),
        s.jobs[at].schedule is Daily,
        clock_read(s.jobs[at].schedule->Daily_0) == Ok::<u32, Seq<char>>(clock),
        clock < DAY_SECONDS,
        i64::MIN + 1_000_000 <= now.seconds <= i64::MAX - 1_000_001,
        due_claimed(s, at, later_run(s.jobs[at].schedule, now)) is Ok,
        !has_running(runs, s.jobs[at].id),
    ensures
        ({
            let after = due_claimed(s, at, later_run(s.jobs[at].schedule, now))->Ok_0.0;
            let job = after.jobs[at];
            &&& job.next_run_at is Some
            &&& exists|second: i64, run: TimestampModel|
                {
                    &&& now.seconds < second <= now.seconds + 1 + DAY_SECONDS
                    &&& (second + MOSCOW_OFFSET) % (DAY_SECONDS as int) == clock
                    &&& #[trigger] moment_at(second, 0, MOSCOW_OFFSET) == Some(run)
                    &&& job.next_run_at == Some(#[trigger] run.utc_text)
                }
            &&& !before(moment, job.next_run_at->Some_0) ==> is_due(
                StoreModel { runs, ..after },
                job,
                moment,
            )
        }),
{
    lemma_first_due(s, s.jobs, now.utc_text);
    law_next_clock_is_the_first(now.seconds + 1, clock as int, 0);
    let second = next_clock(now.seconds + 1, clock as int) as i64;
    let run = moment_at(second, 0, MOSCOW_OFFSET)->Some_0;
    assert(moment_at(second, 0, MOSCOW_OFFSET) == Some(run));
    let after = due_claimed(s, at, later_run(s.jobs[at].schedule, now))->Ok_0.0;
    assert(after.jobs[at].next_run_at == Some(run.utc_text));
}

/// The job that is claimed is active, its moment has come, and no run of it goes on; such a job is
/// never passed over.
pub proof fn law_only_ready_jobs_are_claimed(s: StoreModel, now: Seq<char>, i: int)
    requires
        0 <= i < s.jobs.len(),
    ensures
        first_due(s, s.jobs, now) matches Some(at) ==> {
            &&& 0 <= at < s.jobs.len()
            &&& s.jobs[at].status == GenericJobStatus::Active
            &&& s.jobs[at].next_run_at matches Some(next) && !before(now, next)
            &&& forall|k: int|
                0 <= k < s.runs.len() && (#[trigger] s.runs[k]).job_id == s.jobs[at].id
                    ==> s.runs[k].status != "running"@
        },
        ({
            &&& s.jobs[i].status == GenericJobStatus::Active
            &&& s.jobs[i].next_run_at matches Some(next) && !before(now, next)
            &&& forall|k: int|
                0 <= k < s.runs.len() && (#[trigger] s.runs[k]).job_id == s.jobs[i].id
                    ==> s.runs[k].status != "running"@
        }) ==> first_due(s, s.jobs, now) is Some,
{
    lemma_first_due(s, s.jobs, now);
    if let Some(at) = first_due(s, s.jobs, now) {
        assert forall|k: int|
            0 <= k < s.runs.len() && (#[trigger] s.runs[k]).job_id
                == s.jobs[at].id implies s.runs[k].status != "running"@ by {
            if s.runs[k].status == "running"@ {
                assert(is_running(s.runs[k]));
            }
        }
    } else {
        assert(!is_due(s, s.jobs[i], now));
    }
}

/// A run that is begun is recorded once, at the end, as one that goes on: with the job it belongs to,
/// what began it and the moment for which it was due. Beginning a run changes no other job, and a run
/// that was asked for changes none at all.
pub proof fn law_begun_run_is_recorded(s: StoreModel, now: TimestampModel, at: int, id: i64)
    requires
        first_due(s, s.jobs, now.utc_text) == Some(at),
    ensures
        due_claimed(s, at, later_run(s.jobs[at].schedule, now)) matches Ok(done) ==> {
            let (after, job, run) = done;
            &&& job == s.jobs[at]
            &&& after.runs == s.runs.push(run)
            &&& run.id == s.next_run
            &&& after.next_run == s.next_run + 1
            &&& run.job_id == job.id
            &&& run.status == "running"@
            &&& run.trigger == "scheduled"@
            &&& Some(run.scheduled_at) == job.next_run_at
            &&& after.jobs.len() == s.jobs.len()
            &&& forall|i: int|
                0 <= i < s.jobs.len() && i != at ==> #[trigger] after.jobs[i] == s.jobs[i]
            &&& after.jobs[at].status == job.status
            &&& after.jobs[at].schedule == job.schedule
            &&& after.jobs[at].pipeline == job.pipeline
            &&& has_running(after.runs, job.id)
        },
        manual_claimed(s, id, now) matches Ok(done) ==> {
            let (after, job, run) = done;
            &&& job.id == id
            &&& job.status != GenericJobStatus::Deleted
            &&& s.jobs.contains(job)
            &&& after.jobs == s.jobs
            &&& after.runs == s.runs.push(run)
            &&& run.id == s.next_run
            &&& run.job_id == id
            &&& run.status == "running"@
            &&& run.trigger == "manual"@
            &&& run.scheduled_at == now.utc_text
            &&& has_running(after.runs, id)
        },
{
    lemma_first_due(s, s.jobs, now.utc_text);
    lemma_job_index(s.jobs, id);
    if let Ok(done) = due_claimed(s, at, later_run(s.jobs[at].schedule, now)) {
        assert(is_running(done.0.runs[s.runs.len() as int]));
    }
    if let Ok(done) = manual_claimed(s, id, now) {
        assert(s.jobs[job_index(s.jobs, id) as int] == done.1);
        assert(is_running(done.0.runs[s.runs.len() as int]));
    }
}

/// While a run of a job goes on, no other run of it begins. A job that is there, is not deleted and
/// has no such run can be run at any time.
pub proof fn law_runs_of_a_job_do_not_overlap(s: StoreModel, now: TimestampModel, at: int)
    requires
        store_wf(s),
        0 <= at < s.jobs.len(),
        s.next_run < i64::MAX,
    ensures
        (exists|k: int|
            0 <= k < s.runs.len() && (#[trigger] s.runs[k]).job_id == s.jobs[at].id
                && s.runs[k].status == "running"@) ==> manual_claimed(s, s.jobs[at].id, now)
            is Err && first_due(s, s.jobs, now.utc_text) != Some(at),
        s.jobs[at].status != GenericJobStatus::Deleted && (forall|k: int|
            0 <= k < s.runs.len() && (#[trigger] s.runs[k]).job_id == s.jobs[at].id
                ==> s.runs[k].status != "running"@) ==> manual_claimed(s, s.jobs[at].id, now)
            is Ok,
{
    let id = s.jobs[at].id;
    lemma_first_due(s, s.jobs, now.utc_text);
    lemma_job_index(s.jobs, id);
    let found = job_index(s.jobs, id) as int;
    assert(found == at) by {
        if found < at {
            assert(s.jobs[found].id < s.jobs[at].id);
        }
    }
    if exists|k: int|
        0 <= k < s.runs.len() && (#[trigger] s.runs[k]).job_id == id && s.runs[k].status
            == "running"@ {
        let k = choose|k: int|
            0 <= k < s.runs.len() && (#[trigger] s.runs[k]).job_id == id && s.runs[k].status
                == "running"@;
        assert(is_running(s.runs[k]));
        assert(has_running(s.runs, id));
    }
}

/// A job that is created is active, has the schedule, the plan and the first moment that were given,
/// and can be found; the others stay as they are.
pub proof fn law_created_job_is_kept(
    s: StoreModel,
    name: Seq<char>,
    schedule: ScheduleModel,
    plan: PlanModel,
    first: TimestampModel,
)
    requires
        store_wf(s),
        s.next_job < i64::MAX,
        trim(name).len() > 0,
    ensures
        job_added(s, name, schedule, plan, Ok(first), None) matches Ok(done) && {
            let (after, job) = done;
            &&& after.jobs == s.jobs.push(job)
            &&& after.runs == s.runs
            &&& job.name == trim(name)
            &&& job.schedule == schedule
            &&& job.pipeline == plan
            &&& job.status == GenericJobStatus::Active
            &&& job.next_run_at == Some(first.utc_text)
            &&& job.authorization_hash == authorization(schedule, plan)
            &&& forall|i: int| 0 <= i < s.jobs.len() ==> (#[trigger] s.jobs[i]).id != job.id
            &&& job_with(after.jobs, job.id) == Some(job)
        },
        forall|message: Seq<char>|
            #[trigger] job_added(s, name, schedule, plan, Ok(first), Some(message)) is Err,
{
    let done = job_added(s, name, schedule, plan, Ok(first), None)->Ok_0;
    lemma_job_index(done.0.jobs, done.1.id);
    let found = job_index(done.0.jobs, done.1.id) as int;
    if found < s.jobs.len() {
        assert(done.0.jobs[found] == s.jobs[found]);
        assert(s.jobs[found].id < s.next_job);
    } else if found > s.jobs.len() {
        assert(done.0.jobs[s.jobs.len() as int] == done.1);
        assert(done.0.jobs[s.jobs.len() as int].id != done.1.id);
    }
}

/// A change of the status changes the status of the job with that number and nothing else; it is
/// refused only where there is no such job, or where a deleted job would come back.
pub proof fn law_status_changes_one_job(
    s: StoreModel,
    id: i64,
    status: GenericJobStatus,
    other: i64,
)
    ensures
        match (status_set(s, id, status), job_with(s.jobs, id)) {
            (Ok(done), Some(job)) => {
                &&& done.1 == (JobModel { status, ..job })
                &&& job_with(done.0.jobs, id) == Some(JobModel { status, ..job })
                &&& other != id ==> job_with(done.0.jobs, other) == job_with(s.jobs, other)
                &&& done.0.runs == s.runs
                &&& job.status == GenericJobStatus::Deleted ==> status
                    == GenericJobStatus::Deleted
            },
            (Err(_), Some(job)) => job.status == GenericJobStatus::Deleted && status
                != GenericJobStatus::Deleted,
            (Err(_), None) => true,
            _ => false,
        },
        job_with(s.jobs, id) is None <==> forall|i: int|
            0 <= i < s.jobs.len() ==> (#[trigger] s.jobs[i]).id != id,
        job_with(s.jobs, id) matches Some(job) ==> job.id == id && s.jobs.contains(job),
{
    lemma_job_index(s.jobs, id);
    lemma_job_index(s.jobs, other);
    let at = job_index(s.jobs, id) as int;
    if at < s.jobs.len() {
        assert(s.jobs.contains(s.jobs[at]));
    }
    if let Ok(done) = status_set(s, id, status) {
        let after = done.0.jobs;
        lemma_job_index(after, id);
        lemma_job_index(after, other);
        let now = job_index(after, id) as int;
        assert(after[at].id == id);
        if now < at {
            assert(after[now] == s.jobs[now]);
        }
        assert(now == at);
        if other != id {
            let a = job_index(s.jobs, other) as int;
            let b = job_index(after, other) as int;
            if a < b {
                assert(after[a].id != other);
                assert(s.jobs[a].id == after[a].id);
            }
            if b < a {
                assert(after[b].id == other);
                assert(s.jobs[b].id == after[b].id);
            }
            assert(a == b);
        }
    }
}

/// The list of jobs shows every job that is not deleted, and no other.
pub proof fn law_list_shows_the_kept_jobs(jobs: Seq<JobModel>, job: JobModel)
    ensures
        kept_jobs(jobs).contains(job) <==> jobs.contains(job) && job.status
            != GenericJobStatus::Deleted,
        kept_jobs(jobs).len() <= jobs.len(),
    decreases jobs.len(),
{
    if jobs.len() > 0 {
        let head = jobs.drop_last();
        law_list_shows_the_kept_jobs(head, job);
        assert(jobs =~= head.push(jobs.last()));
        if jobs.contains(job) {
            let i = choose|i: int| 0 <= i < jobs.len() && jobs[i] == job;
            if i < head.len() {
                assert(head[i] == job);
            }
        }
        if head.contains(job) {
            let i = choose|i: int| 0 <= i < head.len() && head[i] == job;
            assert(jobs[i] == job);
        }
        assert(jobs[jobs.len() - 1] == jobs.last());
        let kept = kept_jobs(head);
        if jobs.last().status != GenericJobStatus::Deleted {
            let all = kept.push(jobs.last());
            assert(all[kept.len() as int] == jobs.last());
            if all.contains(job) {
                let i = choose|i: int| 0 <= i < all.len() && all[i] == job;
                if i < kept.len() {
                    assert(kept[i] == job);
                }
            }
            if kept.contains(job) {
                let i = choose|i: int| 0 <= i < kept.len() && kept[i] == job;
                assert(all[i] == job);
            }
        }
    }
}

/// A history shows runs of the job only, the newest first, as many as there are up to the limit; none
/// that it leaves out is newer than one that it shows.
pub proof fn law_history_shows_the_newest_runs(
    runs: Seq<RunModel>,
    next: i64,
    job_id: i64,
    limit: nat,
)
    requires
        runs_numbered(runs, next),
    ensures
        ({
            let shown = latest_runs(runs, job_id, limit);
            &&& shown.len() <= limit
            &&& forall|i: int|
                0 <= i < shown.len() ==> (#[trigger] shown[i]).job_id == job_id && runs.contains(
                    shown[i],
                )
            &&& forall|i: int, j: int|
                0 <= i < j < shown.len() ==> (#[trigger] shown[i]).id > (#[trigger] shown[j]).id
            &&& forall|k: int|
                0 <= k < runs.len() && (#[trigger] runs[k]).job_id == job_id ==> shown.contains(
                    runs[k],
                ) || shown.len() == limit && forall|i: int|
                    0 <= i < shown.len() ==> (#[trigger] shown[i]).id > runs[k].id
        }),
    decreases runs.len(),
{
    let shown = latest_runs(runs, job_id, limit);
    if runs.len() > 0 && limit > 0 {
        let head = runs.drop_last();
        let last = runs.last();
        assert(runs_numbered(head, next));
        assert forall|r: RunModel| head.contains(r) implies #[trigger] runs.contains(r) && r.id
            < last.id by {
            let k = choose|k: int| 0 <= k < head.len() && head[k] == r;
            assert(runs[k] == r);
            assert(runs[k].id < runs[runs.len() - 1].id);
        }
        assert(runs[runs.len() - 1] == last);
        if last.job_id == job_id {
            law_history_shows_the_newest_runs(head, next, job_id, (limit - 1) as nat);
            let rest = latest_runs(head, job_id, (limit - 1) as nat);
            assert(shown =~= seq![last] + rest);
            assert forall|i: int| 0 <= i < shown.len() implies (#[trigger] shown[i]).job_id
                == job_id && runs.contains(shown[i]) by {
                if i > 0 {
                    assert(shown[i] == rest[i - 1]);
                    assert(runs.contains(rest[i - 1]));
                }
            }
            assert forall|i: int, j: int| 0 <= i < j < shown.len() implies (
            #[trigger] shown[i]).id > (#[trigger] shown[j]).id by {
                assert(shown[j] == rest[j - 1]);
                if i > 0 {
                    assert(shown[i] == rest[i - 1]);
                } else {
                    assert(runs.contains(rest[j - 1]) && rest[j - 1].id < last.id);
                }
            }
            assert forall|k: int|
                0 <= k < runs.len() && (#[trigger] runs[k]).job_id == job_id implies shown.contains(
                runs[k],
            ) || shown.len() == limit && (forall|i: int|
                0 <= i < shown.len() ==> (#[trigger] shown[i]).id > runs[k].id) by {
                if k == runs.len() - 1 {
                    assert(shown[0] == runs[k]);
                } else {
                    assert(head[k] == runs[k]);
                    if rest.contains(runs[k]) {
                        let i = choose|i: int| 0 <= i < rest.len() && rest[i] == runs[k];
                        assert(shown[i + 1] == runs[k]);
                    } else {
                        assert forall|i: int| 0 <= i < shown.len() implies (
                        #[trigger] shown[i]).id > runs[k].id by {
                            if i > 0 {
                                assert(shown[i] == rest[i - 1]);
                            } else {
                                assert(runs.contains(head[k]));
                            }
                        }
                    }
                }
            }
        } else {
            law_history_shows_the_newest_runs(head, next, job_id, limit);
            assert forall|k: int|
                0 <= k < runs.len() && (#[trigger] runs[k]).job_id == job_id implies shown.contains(
                runs[k],
            ) || shown.len() == limit && (forall|i: int|
                0 <= i < shown.len() ==> (#[trigger] shown[i]).id > runs[k].id) by {
                assert(head[k] == runs[k]);
            }
        }
    }
}

/// A run that is over says how it went, and is the only one that changes: it no longer goes on.
pub proof fn law_finished_run_says_how_it_went(
    runs: Seq<RunModel>,
    id: i64,
    plan: PlanModel,
    result: ToolResultModel,
    i: int,
)
    requires
        0 <= i < runs.len(),
    ensures
        ({
            let after = runs_finished(runs, id, plan, result);
            &&& after.len() == runs.len()
            &&& runs[i].id != id ==> after[i] == runs[i]
            &&& runs[i].id == id ==> {
                &&& after[i].status == match result.outcome {
                    ToolOutcome::Success => "succeeded"@,
                    ToolOutcome::Failed => "failed"@,
                    ToolOutcome::Unknown => "unknown"@,
                }
                &&& !is_running(after[i])
                &&& after[i].trace is Some
                &&& after[i].id == id
                &&& after[i].job_id == runs[i].job_id
                &&& after[i].scheduled_at == runs[i].scheduled_at
            }
        }),
{
    reveal_strlit("succeeded");
    reveal_strlit("failed");
    reveal_strlit("unknown");
    reveal_strlit("running");
    assert("succeeded"@.len() == 9 && "failed"@.len() == 6 && "running"@.len() == 7);
    assert("unknown"@[0] == 'u' && "running"@[0] == 'r');
}

/// After a restart the runs that went on are marked as interrupted, and nothing else changes.
pub proof fn law_restart_marks_interrupted_runs(runs: Seq<RunModel>, i: int)
    requires
        0 <= i < runs.len(),
    ensures
        runs_recovered(runs).len() == runs.len(),
        runs[i].status == "running"@ ==> runs_recovered(runs)[i].status == "interrupted"@
            && runs_recovered(runs)[i].error is Some,
        runs[i].status != "running"@ ==> runs_recovered(runs)[i] == runs[i],
        runs_recovered(runs)[i].id == runs[i].id,
        runs_recovered(runs)[i].job_id == runs[i].job_id,
{
}

/// A stored job is read as it was written: with its schedule, its plan, its status and its next run.
pub proof fn law_stored_job_is_read_back(job: JobModel, row: JobRowModel)
    requires
        row.id == job.id,
        row.name == job.name,
        row.authorization_hash == job.authorization_hash,
        row.status == status_name(job.status),
        row.next_run_at == job.next_run_at,
    ensures
        job_of_row(row, Ok(schedule_value(job.schedule)), Ok(plan_value(job.pipeline))) == Ok::<
            JobModel,
            Seq<char>,
        >(job),
{
    law_schedule_round_trip(job.schedule);
    law_plan_round_trip(job.pipeline);
    law_status_round_trip(job.status);
}

/// The runs that are going on are counted one by one.
pub proof fn law_running_runs_are_counted(runs: Seq<RunModel>)
    ensures
        running_count(runs) == runs.filter(|run: RunModel| is_running(run)).len(),
    decreases runs.len(),
{
    reveal(Seq::filter);
    if runs.len() > 0 {
        law_running_runs_are_counted(runs.drop_last());
    }
}

/// No more runs are shown than were asked for, and never more than a hundred.
pub proof fn law_shown_runs_are_limited(limit: u32)
    ensures
        shown_limit(limit) <= limit,
        shown_limit(limit) <= 100,
        limit <= 100 ==> shown_limit(limit) == limit,
{
}

} // verus!
