use chrono::Datelike;
use fox_llm::config::{validate_mcp_server_id, McpConfig, McpServerConfig};
use fox_llm::job_store::{
    due_row, history_limit, load_job, DueRow, GenericSchedulerStore, JobRow,
};
use fox_llm::jobs::{
    canonical_hash, check_authorization, check_job_plan, failed_run, finished_status, redact_trace,
    run_call_id, runtime_values, step_rows, validate_job_plan, write_plan, write_schedule,
    GenericJobStatus, GenericRun, MAX_CAPTURED_OUTPUT,
};
use fox_llm::json::{json_str, object1, parse_json, write_json, Json};
use fox_llm::pipeline::{
    identity, pipeline_result, qualify_tool_name, timed_out_result, PipelineAction, PipelineRun,
    PipelineStatus, PipelineStepStatus,
};
use fox_llm::registry::{
    baggage_step, call_step, check_bind_address, check_registration, disabled_by_choice, disabled_text,
    enabled_tool_definitions, entered_server_id, log_local_call, mcp_correlation_id, other_servers,
    parse_dump_metrics_flag, parse_startup_mode, reconcile_disabled_tools, selected_tool_names,
    server_label, server_started_line, step_baggage, tool_label, validate_mcp_url, McpRouter,
    McpServerKind, McpToolInfo, StartupMode,
};
use fox_llm::scheduler::{next_run, parse_schedule, validate_schedule, ScheduleSpec};
use fox_llm::single_server;
use fox_llm::time::{
    day_of, is_after, moscow_midnight, next_time, parse_moment, seconds_between, Timestamp, FIRST_DAY,
    LAST_DAY,
};
use fox_llm::tools::{
    mcp_tool_timeout, parse_pipeline_plan, pipeline_tool_definition, report_schema_check,
    resolve_pipeline_arguments, tool_failure, tool_reply, validate_pipeline_plan,
    validate_tool_arguments, PipelinePlan, PipelineStep, SchemaCheck, ToolCall, ToolDefinition,
    ToolOutcome, ToolResult, DEFAULT_TOOL_TIMEOUT_MS, PIPELINE_TOOL_NAME,
};

fn json(text: &str) -> Json {
    parse_json(text).unwrap()
}

fn at(text: &str) -> Timestamp {
    parse_moment(text).unwrap()
}

fn step(id: &str, tool: &str, arguments: &str, capture_output: bool) -> PipelineStep {
    PipelineStep {
        id: id.to_owned(),
        tool: tool.to_owned(),
        arguments: json(arguments),
        capture_output,
    }
}

fn definition(name: &str, input_schema: &str, read_only: bool) -> ToolDefinition {
    ToolDefinition {
        name: name.to_owned(),
        description: None,
        input_schema: json(input_schema),
        read_only,
        destructive: false,
    }
}

fn sample_plan() -> PipelinePlan {
    PipelinePlan {
        name: "test".to_owned(),
        steps: vec![step("one", "source__read", "{}", false)],
    }
}

fn digest_plan() -> PipelinePlan {
    PipelinePlan {
        name: "tomorrow-digest".to_owned(),
        steps: vec![
            step(
                "calendar",
                "calendar__list_events",
                "{\"relative_to\": {\"$ref\": \"run.scheduled_at\"}, \"target_day\": \"tomorrow\"}",
                false,
            ),
            step(
                "summary",
                "ai__generate_text",
                "{\"instructions\": \"Составь сводку\", \"input\": {\"$ref\": \"calendar.output\"}}",
                true,
            ),
            step(
                "delivery",
                "telegram__send_message",
                "{\"text\": {\"$ref\": \"summary.output.text\"}}",
                false,
            ),
        ],
    }
}

fn digest_definitions() -> Vec<ToolDefinition> {
    vec![
        definition(
            "calendar__list_events",
            "{\"type\": \"object\", \"required\": [\"relative_to\", \"target_day\"], \"properties\": {\"relative_to\": {\"type\": \"string\"}, \"target_day\": {\"const\": \"tomorrow\"}}}",
            true,
        ),
        definition(
            "ai__generate_text",
            "{\"type\": \"object\", \"required\": [\"instructions\", \"input\"]}",
            true,
        ),
        definition(
            "telegram__send_message",
            "{\"type\": \"object\", \"required\": [\"text\"], \"properties\": {\"text\": {\"type\": \"string\"}}}",
            false,
        ),
    ]
}

fn serve(mode: &str, call: &ToolCall) -> ToolResult {
    let (content, outcome) = match call.name.as_str() {
        "calendar__list_events" if mode == "source_failed" => {
            ("{\"error\": \"source failed\"}", ToolOutcome::Failed)
        }
        "calendar__list_events" => ("[{\"title\": \"Standup\"}]", ToolOutcome::Success),
        "ai__generate_text" if mode == "ai_failed" => {
            ("{\"error\": \"provider failed\"}", ToolOutcome::Failed)
        }
        "ai__generate_text" => ("{\"text\": \"Завтра: Standup\"}", ToolOutcome::Success),
        "telegram__send_message" if mode == "delivery_unknown" => (
            "{\"outcome\": \"unknown\", \"error\": \"network\"}",
            ToolOutcome::Unknown,
        ),
        "telegram__send_message" => {
            ("{\"outcome\": \"delivered\", \"message_id\": 7}", ToolOutcome::Success)
        }
        _ => unreachable!(),
    };
    ToolResult {
        call_id: call.id.clone(),
        is_error: outcome != ToolOutcome::Success,
        content: json(content),
        outcome,
    }
}

fn empty_store() -> GenericSchedulerStore {
    GenericSchedulerStore::open(vec![], vec![], 1, 1).unwrap()
}

fn daily(time: &str, timezone: &str) -> ScheduleSpec {
    ScheduleSpec::Daily(time.to_owned(), timezone.to_owned())
}

fn field<'a>(value: &'a Json, key: &str) -> &'a Json {
    value.get(key).unwrap()
}

#[test]
fn store_persists_generic_job_and_manual_run_preserves_next_time() {
    let mut store = empty_store();
    let now = at("2026-09-25T05:00:00Z");
    let job = store
        .create_job("test", &daily("09:00", "Europe/Moscow"), &sample_plan(), &now)
        .unwrap();
    let next = job.next_run_at.clone();
    let (_, run) = store.claim_manual(job.id, &now).unwrap();
    assert_eq!(run.trigger, "manual");
    assert_eq!(store.list_jobs()[0].next_run_at, next);
    assert!(store.claim_manual(job.id, &now).is_err());
}

#[test]
fn store_recovers_interrupted_runs() {
    let mut store = empty_store();
    let now = at("2026-09-25T05:00:00Z");
    let job = store
        .create_job(
            "test",
            &ScheduleSpec::Once("2026-09-25T06:00:00Z".to_owned()),
            &sample_plan(),
            &now,
        )
        .unwrap();
    store.claim_manual(job.id, &now).unwrap();
    assert_eq!(store.recover_interrupted(), 1);
    assert_eq!(store.history(job.id, 10).unwrap().runs[0].status, "interrupted");
}

#[test]
fn scheduled_calendar_ai_telegram_flow_persists_order_and_stops_on_failure() {
    for mode in ["success", "source_failed", "ai_failed", "delivery_unknown"] {
        let mut store = empty_store();
        let now = at("2026-09-25T05:00:00Z");
        let plan = digest_plan();
        let job = store
            .create_job(
                "digest",
                &ScheduleSpec::Once("2026-09-25T05:00:01+00:00".to_owned()),
                &plan,
                &now,
            )
            .unwrap();
        assert!(store.claim_due(&now).unwrap().is_none());
        let (_, run) = store.claim_due(&at("2026-09-25T05:00:02Z")).unwrap().unwrap();
        assert_eq!(run.trigger, "scheduled");
        let definitions = digest_definitions();
        let runtime = runtime_values(&run);
        let mut calls = vec![];
        let (mut pipeline, mut action) =
            PipelineRun::start("scheduled-test", digest_plan(), &definitions, &runtime);
        let trace = loop {
            action = match action {
                PipelineAction::Authorize(_) => pipeline.authorize(Ok(true), 1000),
                PipelineAction::Execute(call, _) => {
                    let result = serve(mode, &call);
                    calls.push(call);
                    pipeline.executed(&definitions, &runtime, result, 1)
                }
                PipelineAction::Finished(trace) => break trace,
            };
        };
        let result = pipeline_result("scheduled-test", &trace);
        store.finish_run(run.id, &plan, &result);
        assert_eq!(
            field(&calls[0].arguments, "relative_to"),
            &json_str(&run.scheduled_at)
        );
        assert_eq!(
            calls.len(),
            match mode {
                "source_failed" => 1,
                "ai_failed" => 2,
                _ => 3,
            }
        );
        let history = store.history(job.id, 10).unwrap();
        assert_eq!(history.runs.len(), 1);
        assert_eq!(
            history.runs[0].status,
            match mode {
                "success" => "succeeded",
                "delivery_unknown" => "unknown",
                _ => "failed",
            }
        );
        let steps = history.runs[0].trace.as_ref().unwrap().get_array("steps").unwrap();
        assert_eq!(steps[0].get_u64("ordinal"), Some(1));
        assert_eq!(field(&steps[0], "server_id"), &json_str("calendar"));
        if mode == "source_failed" {
            assert_eq!(field(&steps[1], "status"), &json_str("skipped"));
            assert_eq!(field(&steps[2], "status"), &json_str("skipped"));
        } else {
            assert_eq!(field(&steps[1], "server_id"), &json_str("ai"));
        }
        if mode == "ai_failed" {
            assert_eq!(field(&steps[2], "status"), &json_str("skipped"));
        } else if matches!(mode, "success" | "delivery_unknown") {
            assert_eq!(field(&steps[2], "server_id"), &json_str("telegram"));
            assert!(steps[0].get("output").is_none());
            assert!(steps[1].get("output").is_some());
        }
    }
}

#[test]
fn captured_outputs_are_bounded_in_persisted_history() {
    let mut store = empty_store();
    let now = at("2026-09-25T05:00:00Z");
    let mut plan = sample_plan();
    plan.steps[0].capture_output = true;
    let job = store
        .create_job(
            "capture",
            &ScheduleSpec::Once("2026-09-25T06:00:00Z".to_owned()),
            &plan,
            &now,
        )
        .unwrap();
    let (_, run) = store.claim_manual(job.id, &now).unwrap();
    let long = "x".repeat(MAX_CAPTURED_OUTPUT + 1);
    let result = ToolResult {
        call_id: "capture".to_owned(),
        content: json(&format!(
            "{{\"status\": \"succeeded\", \"steps\": [{{\"ordinal\": 1, \"id\": \"one\", \"server_id\": \"source\", \"native_tool\": \"read\", \"status\": \"succeeded\", \"duration_ms\": 1, \"output\": \"{long}\"}}]}}"
        )),
        is_error: false,
        outcome: ToolOutcome::Success,
    };
    store.finish_run(run.id, &plan, &result);
    let history = store.history(job.id, 1).unwrap();
    let steps = history.runs[0].trace.as_ref().unwrap().get_array("steps").unwrap();
    assert_eq!(field(&steps[0], "output"), &json("{\"truncated\": true}"));
}

#[test]
fn due_jobs_run_once_and_deleted_ones_never() {
    let mut store = empty_store();
    let now = at("2026-09-25T05:00:00Z");
    let later = at("2026-09-25T07:00:00Z");
    let once = ScheduleSpec::Once("2026-09-25T06:00:00Z".to_owned());
    let first = store.create_job("a", &once, &sample_plan(), &now).unwrap();
    let second = store.create_job("b", &once, &sample_plan(), &now).unwrap();
    store.set_status(second.id, GenericJobStatus::Deleted).unwrap();
    let (job, run) = store.claim_due(&later).unwrap().unwrap();
    assert_eq!(job.id, first.id);
    let done = tool_reply("c", json("{\"status\": \"succeeded\", \"steps\": []}"), false);
    store.finish_run(run.id, &sample_plan(), &done);
    assert!(store.claim_due(&later).unwrap().is_none());
    assert!(store.set_status(99, GenericJobStatus::Paused).is_err());
    assert!(store.claim_manual(99, &now).is_err());
    assert!(store.history(99, 10).is_err());
    assert_eq!(GenericJobStatus::parse("paused").unwrap(), GenericJobStatus::Paused);
    assert!(GenericJobStatus::parse("asleep").is_err());
}

#[test]
fn stored_jobs_are_read_back_and_authorised() {
    let mut store = empty_store();
    let now = at("2026-09-25T05:00:00Z");
    let job = store
        .create_job("test", &daily("09:00", "Europe/Moscow"), &digest_plan(), &now)
        .unwrap();
    let row = |hash: &str| JobRow {
        id: job.id,
        name: job.name.clone(),
        schedule_json: write_json(&write_schedule(&job.schedule)),
        pipeline_json: write_json(&write_plan(&job.pipeline)),
        authorization_hash: hash.to_owned(),
        status: "active".to_owned(),
        next_run_at: job.next_run_at.clone(),
    };
    let loaded = load_job(row(&job.authorization_hash)).unwrap();
    assert_eq!(loaded, job);
    assert!(check_authorization(&loaded).is_ok());
    assert!(check_authorization(&load_job(row("0")).unwrap()).is_err());
    let mut repeated = row("0");
    repeated.schedule_json = "{\"type\":\"daily\",\"time\":\"08:00\",\"time\":\"09:00\"}".to_owned();
    assert_eq!(load_job(repeated).unwrap_err(), "неверный формат расписания");
    let plan = |step: &str| format!("{{\"name\":\"p\",\"steps\":[{{{step}}}]}}");
    let step = "\"id\":\"a\",\"tool\":\"t\",\"arguments\":{\"x\":1,\"x\":2}";
    let mut twice = row("0");
    twice.pipeline_json = plan(step);
    assert!(load_job(twice).is_ok());
    let mut repeated = row("0");
    repeated.pipeline_json = plan(&format!("{step},\"id\":\"b\""));
    assert_eq!(load_job(repeated).unwrap_err(), "неверный формат MCP-пайплайна");
    let mut repeated = row("0");
    repeated.pipeline_json = "{\"name\":\"p\",\"name\":\"q\",\"steps\":[]}".to_owned();
    assert_eq!(load_job(repeated).unwrap_err(), "неверный формат MCP-пайплайна");
    assert_ne!(
        canonical_hash(&job.schedule, &sample_plan()),
        job.authorization_hash
    );
    let mut broken = row("0");
    broken.schedule_json = "{}".to_owned();
    assert!(load_job(broken).is_err());
    assert!(check_job_plan(&sample_plan()).is_ok());
    assert!(validate_job_plan(&digest_plan(), &digest_definitions()).is_ok());
    assert!(validate_job_plan(&sample_plan(), &digest_definitions()).is_err());
}

#[test]
fn finished_runs_keep_their_steps() {
    let trace = json("{\"status\": \"failed\", \"steps\": [{\"ordinal\": 1, \"id\": \"one\", \"server_id\": \"source\", \"native_tool\": \"read\", \"status\": \"failed\", \"duration_ms\": 5, \"output\": {\"secret\": 1}, \"error\": \"e\"}]}");
    let kept = redact_trace(&trace, &sample_plan());
    let rows = step_rows(&kept);
    assert_eq!(rows.len(), 1);
    assert_eq!(rows[0].step_id.as_deref(), Some("one"));
    assert_eq!(rows[0].duration_ms, Some(5));
    assert!(rows[0].output_json.is_none());
    assert!(!write_json(&kept).contains("secret"));
    assert_eq!(finished_status(ToolOutcome::Success), "succeeded");
    assert_eq!(finished_status(ToolOutcome::Failed), "failed");
    assert_eq!(finished_status(ToolOutcome::Unknown), "unknown");
    let mut store = empty_store();
    let now = at("2026-09-25T05:00:00Z");
    let job = store
        .create_job("t", &daily("09:00", "Europe/Moscow"), &sample_plan(), &now)
        .unwrap();
    let (_, run) = store.claim_manual(job.id, &now).unwrap();
    let failed = failed_run(&run, "сбой");
    assert_eq!(failed.outcome, ToolOutcome::Failed);
    assert!(run_call_id(run.id).contains(&run.id.to_string()));
}

#[test]
fn daily_schedule_defaults_to_moscow_and_advances_to_next_day() {
    let now = at("2026-09-23T04:00:00Z");
    let schedule = parse_schedule(&json("{\"type\":\"daily\",\"time\":\"08:00\"}")).unwrap();
    assert!(validate_schedule(&schedule, &now).is_ok());
    assert_eq!(
        next_run(&schedule, &now).unwrap().utc_text,
        "2026-09-23T05:00:00+00:00"
    );
    assert_eq!(
        next_run(&schedule, &at("2026-09-23T05:00:00Z")).unwrap().utc_text,
        "2026-09-24T05:00:00+00:00"
    );
}

#[test]
fn daily_schedule_rejects_unknown_timezone() {
    let now = at(&chrono::Utc::now().to_rfc3339());
    assert!(validate_schedule(&daily("08:00", "UTC"), &now).is_err());
}

#[test]
fn single_schedules_must_lie_ahead() {
    let now = at("2026-09-23T04:00:00Z");
    let once = |text: &str| ScheduleSpec::Once(text.to_owned());
    assert!(validate_schedule(&once("2026-09-23T05:00:00Z"), &now).is_ok());
    assert!(validate_schedule(&once("2026-09-23T04:00:00Z"), &now).is_err());
    assert!(validate_schedule(&once("завтра"), &now).is_err());
    assert!(validate_schedule(&daily("8 утра", "Europe/Moscow"), &now).is_err());
    assert!(parse_schedule(&json("{\"type\":\"weekly\"}")).is_none());
    assert!(parse_schedule(&json("{\"type\":\"daily\"}")).is_none());
    assert!(is_after(&at("2026-09-23T05:00:00Z"), &now));
    assert!(!is_after(&now, &at("2026-09-23T07:00:00+03:00")));
    assert_eq!(day_of(&at("1970-01-02T00:00:00Z")) - day_of(&at("1970-01-01T00:00:00Z")), 1);
    assert_eq!(moscow_midnight(0), 75_600);
    assert_eq!(next_time(0, 10_800 + 60), 60);
    assert_eq!(next_time(60, 10_800 + 60), 86_460);
    assert!(parse_moment("2026-09-23").is_err());
}

fn info(name: &str, input_schema: &str, read_only: bool) -> McpToolInfo {
    McpToolInfo {
        name: name.to_owned(),
        description: None,
        input_schema: json(input_schema),
        read_only,
        destructive: false,
    }
}

#[test]
fn mod_validates_http_urls() {
    assert_eq!(
        validate_mcp_url(" http://localhost:8000/mcp ").unwrap(),
        "http://localhost:8000/mcp"
    );
    assert!(validate_mcp_url("localhost:8000/mcp").is_err());
    assert!(validate_mcp_url("file:///tmp/mcp").is_err());
}

#[test]
fn mcp_validates_http_urls() {
    assert_eq!(
        validate_mcp_url(" http://localhost:8000/mcp ").unwrap(),
        "http://localhost:8000/mcp"
    );
    assert!(validate_mcp_url("localhost:8000/mcp").is_err());
    assert!(validate_mcp_url("file:///tmp/mcp").is_err());
}

fn single_tool(name: &str) -> single_server::McpToolInfo {
    single_server::McpToolInfo { name: name.to_owned(), description: None }
}

#[test]
fn removes_duplicate_and_stale_enabled_tools() {
    let available = vec![single_tool("echo")];
    assert_eq!(
        single_server::reconcile_enabled_tools(
            &available,
            &vec!["old".to_owned(), "echo".to_owned(), "echo".to_owned()]
        ),
        vec!["echo"]
    );
}

#[test]
fn switching_server_clears_previous_selection() {
    let mut config = single_server::McpConfig {
        server_url: Some("http://old.test/mcp".to_owned()),
        enabled_tools: vec!["old-tool".to_owned()],
    };
    single_server::switch_mcp_server(&mut config, "http://new.test/mcp".to_owned());
    assert_eq!(config.server_url.as_deref(), Some("http://new.test/mcp"));
    assert!(config.enabled_tools.is_empty());
}

#[test]
fn mcp_selected_tool_names_are_sorted_and_deduplicated() {
    let tools = vec![single_tool("zeta"), single_tool("echo")];
    assert_eq!(
        single_server::selected_tool_names(&tools, &vec![0, 1, 0]),
        vec!["echo", "zeta"]
    );
}

#[test]
fn removes_duplicate_and_stale_disabled_tools() {
    let available = vec![info("echo", "{}", true)];
    assert_eq!(
        reconcile_disabled_tools(
            &available,
            &vec!["old".to_owned(), "echo".to_owned(), "echo".to_owned()]
        ),
        vec!["echo"]
    );
}

#[test]
fn qualifies_tool_names_without_ambiguity() {
    assert_eq!(qualify_tool_name("github", "search"), "github__search");
    assert!(validate_mcp_server_id("bad__id").is_err());
    assert_eq!(
        identity("github__search"),
        (Some("github".to_owned()), "search".to_owned())
    );
}

#[test]
fn mod_selected_tool_names_are_sorted_and_deduplicated() {
    let tools = vec![info("zeta", "{}", true), info("echo", "{}", true)];
    assert_eq!(selected_tool_names(&tools, &vec![0, 1, 0]), vec!["echo", "zeta"]);
}

#[test]
fn enabled_tool_definitions_preserve_schema_and_annotations() {
    let mut write = info("write", "{\"type\": \"object\", \"required\": [\"title\"]}", false);
    write.description = Some("Writes data".to_owned());
    let tools = vec![write, info("hidden", "{\"type\": \"object\"}", true)];
    let selected =
        enabled_tool_definitions(&tools, &vec!["hidden".to_owned(), "stale".to_owned()]);
    assert_eq!(selected.len(), 1);
    assert_eq!(selected[0].name, "write");
    assert_eq!(
        selected[0].input_schema.get_array("required").unwrap()[0],
        json_str("title")
    );
    assert!(!selected[0].read_only);
}

#[test]
fn tool_outcomes_are_explicit_and_serializable() {
    assert_eq!(ToolOutcome::Success.name(), "success");
    assert_eq!(ToolOutcome::Failed.name(), "failed");
    assert_eq!(ToolOutcome::Unknown.name(), "unknown");
}

fn server(id: &str, disabled: &[&str]) -> McpServerConfig {
    McpServerConfig {
        id: id.to_owned(),
        url: "http://127.0.0.1:1/mcp".to_owned(),
        disabled_tools: disabled.iter().map(|d| d.to_string()).collect(),
    }
}

#[test]
fn router_qualifies_colliding_tools_and_isolates_unavailable_servers() {
    let tools = vec![
        info("calculate_github_metrics", "{}", true),
        info("render_github_report", "{}", true),
    ];
    let mut router = McpRouter::new();
    assert!(router.is_empty());
    router.add_server(&server("one", &["render_github_report"]), &tools);
    router.add_server(&server("two", &[]), &tools);
    router.add_failure("offline", "нет ответа");
    assert_eq!(router.route("one__calculate_github_metrics").unwrap().server_id, "one");
    assert_eq!(router.route("two__calculate_github_metrics").unwrap().server_id, "two");
    assert!(router.route("one__render_github_report").is_none());
    assert!(router.warnings.iter().any(|warning| warning.starts_with("offline:")));
    assert_eq!(router.definitions().len(), 3);
    let call = ToolCall {
        id: "c".to_owned(),
        name: "two__render_github_report".to_owned(),
        arguments: json("{}"),
    };
    let (target, native) = router.native_call(&call).unwrap();
    assert_eq!(target, "two");
    assert_eq!(native.name, "render_github_report");
    let unknown = ToolCall { id: "c".to_owned(), name: "x".to_owned(), arguments: json("{}") };
    assert!(router.native_call(&unknown).is_err());
}

#[test]
fn router_logs_metadata_without_arguments_or_results() {
    let step_id = call_step("pipeline-1:step-2");
    assert_eq!(step_id.as_deref(), Some("step-2"));
    let start = log_local_call(
        "mcp_call_start",
        "corr",
        "reporting",
        "calculate_github_metrics",
        step_id.as_deref(),
        None,
        None,
    );
    let finish = log_local_call(
        "mcp_call_finish",
        "corr",
        "reporting",
        "calculate_github_metrics",
        step_id.as_deref(),
        Some(ToolOutcome::Failed),
        Some(4),
    );
    let start: serde_json::Value = serde_json::from_str(start.trim()).unwrap();
    let finish: serde_json::Value = serde_json::from_str(finish.trim()).unwrap();
    assert_eq!(start["event"], "mcp_call_start");
    assert_eq!(finish["event"], "mcp_call_finish");
    assert_eq!(start["correlation_id"], finish["correlation_id"]);
    assert_eq!(start["step_id"], "step-2");
    assert_eq!(start["server_id"], "reporting");
    assert_eq!(finish["outcome"], "failed");
    assert_eq!(step_baggage("step-2"), "fox-step=step-2");
    assert_eq!(step_baggage("шаг 2"), "fox-step=____2");
    assert_eq!(baggage_step(&step_baggage("step-2")).as_deref(), Some("step-2"));
    assert_eq!(baggage_step("other=step-2"), None);
    assert_eq!(mcp_correlation_id("abc"), "00-e71fa2190541574b7bab84f7414251ac-09e0885c0c03d09b-01");
}

#[test]
fn parses_dump_metrics_flag() {
    assert!(!parse_dump_metrics_flag(&vec![]).unwrap());
    assert!(parse_dump_metrics_flag(&vec!["--dump-metrics".to_owned()]).unwrap());
    assert!(parse_dump_metrics_flag(&vec!["--unknown".to_owned()]).is_err());
}

#[test]
fn startup_arguments_choose_a_server() {
    let args = |items: &[&str]| items.iter().map(|i| i.to_string()).collect::<Vec<_>>();
    assert_eq!(
        parse_startup_mode(&args(&["--mcp-server", "ai", "--addr", "127.0.0.1:1"])).unwrap(),
        StartupMode::Server(McpServerKind::Ai, "127.0.0.1:1".to_owned())
    );
    assert!(parse_startup_mode(&args(&["--mcp-server", "ai"])).is_err());
    assert!(parse_startup_mode(&args(&["--mcp-server", "web", "--addr", "a"])).is_err());
    assert!(parse_startup_mode(&args(&["--dump-metrics", "--dump-metrics"])).is_err());
    assert!(parse_dump_metrics_flag(&args(&["--mcp-server", "ai", "--addr", "a"])).is_err());
    assert!(check_bind_address(Some(true)).is_ok());
    assert!(check_bind_address(Some(false)).is_err());
    assert!(check_bind_address(None).is_err());
    assert!(server_started_line(McpServerKind::Ai, "127.0.0.1:1").contains("ai"));
}

#[test]
fn servers_are_registered_and_listed() {
    let mut config = McpConfig::default();
    assert!(check_registration(&config, "github").is_ok());
    config.register("github".to_owned(), "http://a".to_owned());
    assert!(check_registration(&config, "github").is_err());
    assert!(check_registration(&config, "bad id").is_err());
    config.move_server(0, "http://b".to_owned());
    config.disable_tools(0, vec!["echo".to_owned()]);
    assert_eq!(config.servers[0].url, "http://b");
    assert_eq!(config.servers[0].disabled_tools, vec!["echo"]);
    assert!(server_label(&config.servers[0], Some(2)).contains("github"));
    assert!(other_servers(&config.servers, "github").is_empty());
    config.forget(0);
    assert!(config.servers.is_empty());
    assert_eq!(entered_server_id("").unwrap(), None);
    assert!(entered_server_id("bad__id").is_err());
    let tools = vec![info("a", "{}", true), info("b", "{}", false)];
    assert_eq!(disabled_by_choice(&tools, &vec![1]), vec!["a"]);
    assert!(tool_label(&tools[1]).contains('b'));
    assert!(disabled_text(&vec!["a".to_owned()]).contains('a'));
}

#[test]
fn one_server_is_configured_by_hand() {
    assert_eq!(single_server::entered_address("  "), None);
    let pending = Some("http://a".to_owned());
    assert_eq!(single_server::after_failed_connection(pending.clone(), None, None), None);
    assert_eq!(single_server::entered_address(" http://a ").as_deref(), Some("http://a"));
    let config = single_server::McpConfig { server_url: None, enabled_tools: vec![] };
    assert!(!single_server::enabled_text(&config).is_empty());
}

fn plan_json(text: &str) -> Result<PipelinePlan, String> {
    parse_pipeline_plan(&json(text))
}

#[test]
fn plans_are_read_and_validated() {
    let plan = plan_json("{\"name\": \"p\", \"steps\": [{\"id\": \"one\", \"tool\": \"t\", \"arguments\": {}}]}").unwrap();
    assert!(!plan.steps[0].capture_output);
    assert!(plan_json("{\"name\": \"p\"}").is_err());
    assert!(plan_json("{\"name\": \"p\", \"steps\": [], \"extra\": 1}").is_err());
    assert!(validate_pipeline_plan(&digest_plan(), &digest_definitions()).is_ok());
    assert!(validate_pipeline_plan(&sample_plan(), &digest_definitions()).is_err());
    let mut forward = digest_plan();
    forward.steps.swap(0, 2);
    assert!(validate_pipeline_plan(&forward, &digest_definitions()).is_err());
    let empty = PipelinePlan { name: "p".to_owned(), steps: vec![] };
    assert!(validate_pipeline_plan(&empty, &digest_definitions()).is_err());
    assert_eq!(pipeline_tool_definition().name, PIPELINE_TOOL_NAME);
}

#[test]
fn references_are_replaced_by_outputs() {
    let outputs = vec![("one".to_owned(), json("{\"items\": [{\"name\": \"x\"}], \"n\": 1}"))];
    assert_eq!(
        resolve_pipeline_arguments(&json("{\"a\": {\"$ref\": \"one.output\"}}"), &outputs).unwrap(),
        object1("a", json("{\"items\": [{\"name\": \"x\"}], \"n\": 1}"))
    );
    assert_eq!(
        resolve_pipeline_arguments(&json("{\"a\": {\"$ref\": \"one.output.n\"}}"), &outputs).unwrap(),
        json("{\"a\": 1}")
    );
    assert!(resolve_pipeline_arguments(&json("{\"$ref\": \"two.output\"}"), &outputs).is_err());
    assert!(resolve_pipeline_arguments(&json("{\"$ref\": \"one.output.z\"}"), &outputs).is_err());
    let plain = json("{\"a\": [1, \"b\", null]}");
    assert_eq!(resolve_pipeline_arguments(&plain, &outputs).unwrap(), plain);
}

#[test]
fn arguments_are_checked_against_the_schema() {
    let definitions = digest_definitions();
    let good = json("{\"relative_to\": \"x\", \"target_day\": \"tomorrow\"}");
    assert!(validate_tool_arguments(&definitions[0], &good).is_ok());
    let wrong = json("{\"relative_to\": 1, \"target_day\": \"tomorrow\"}");
    let error = validate_tool_arguments(&definitions[0], &wrong).unwrap_err();
    assert!(error.contains("calendar__list_events"));
    assert!(validate_tool_arguments(&definition("t", "{\"type\": 5}", true), &good).is_err());
    assert!(report_schema_check("t", &SchemaCheck::Valid).is_ok());
    assert!(report_schema_check("t", &SchemaCheck::BadSchema).is_err());
    assert!(report_schema_check("t", &SchemaCheck::Mismatch("m".to_owned())).is_err());
    assert_eq!(mcp_tool_timeout("echo", DEFAULT_TOOL_TIMEOUT_MS), DEFAULT_TOOL_TIMEOUT_MS);
    assert!(mcp_tool_timeout("github_project_activity", 1) > 1);
}

#[test]
fn refused_steps_end_the_plan() {
    let definitions = digest_definitions();
    let runtime = json("{\"run\": {\"scheduled_at\": \"2026-09-25T05:00:00Z\"}}");
    let (mut run, action) = PipelineRun::start("c", digest_plan(), &definitions, &runtime);
    assert!(matches!(action, PipelineAction::Authorize(_)));
    match run.authorize(Ok(false), 1000) {
        PipelineAction::Finished(trace) => {
            assert_eq!(trace.status, PipelineStatus::Cancelled);
            assert_eq!(trace.steps.len(), 3);
            assert_eq!(trace.steps[0].status, PipelineStepStatus::Cancelled);
            assert_eq!(trace.steps[2].status, PipelineStepStatus::Skipped);
        }
        _ => panic!("a refused step ends the plan"),
    }
    let (mut run, _) = PipelineRun::start("c", digest_plan(), &definitions, &runtime);
    run.authorize(Ok(true), 1000);
    let late = timed_out_result("c", 1000);
    assert_eq!(late.outcome, ToolOutcome::Failed);
    match run.executed(&definitions, &runtime, late, 1000) {
        PipelineAction::Finished(trace) => assert_eq!(trace.status, PipelineStatus::Failed),
        _ => panic!("a late step ends the plan"),
    }
    assert_eq!(tool_failure("c", "сбой").outcome, ToolOutcome::Failed);
    assert_eq!(tool_reply("c", Json::Null, true).outcome, ToolOutcome::Failed);
}

#[test]
fn spans_count_whole_seconds() {
    let span = |from: &str, to: &str| seconds_between(&at(from), &at(to));
    assert_eq!(span("2026-09-25T08:00:00.9Z", "2026-09-25T08:00:02.8Z"), 1);
    assert_eq!(span("2026-09-25T08:00:02.8Z", "2026-09-25T08:00:00.9Z"), -1);
    assert_eq!(span("2026-09-25T08:00:00Z", "2026-09-25T11:00:00+03:00"), 0);
    assert_eq!(span("2016-12-31T23:59:60Z", "2017-01-01T00:00:01Z"), 1);
    assert_eq!(span("2015-06-30T12:59:60Z", "2015-06-30T13:00:01Z"), 2);
    let texts = [
        "2016-12-31T23:59:60Z",
        "2016-12-31T23:59:60.5Z",
        "2016-12-31T23:59:59.9Z",
        "2017-01-01T00:00:00Z",
        "2017-01-01T02:59:60.25+03:00",
        "2015-06-30T12:59:60Z",
        "2015-06-30T12:59:60.75-05:00",
        "2015-06-30T13:00:01.125Z",
        "0000-01-01T00:00:00+23:59",
        "9999-12-31T23:59:60.999999999-23:59",
        "1969-12-31T23:59:59.5Z",
    ];
    for from in texts {
        for to in texts {
            let a = chrono::DateTime::parse_from_rfc3339(from).unwrap();
            let b = chrono::DateTime::parse_from_rfc3339(to).unwrap();
            assert_eq!(span(from, to), (b - a).num_seconds(), "{from} {to}");
        }
    }
}

#[test]
fn moments_are_written_in_all_forms() {
    let moment = at("2026-09-25T01:02:03.5+03:00");
    assert_eq!(moment.text, "2026-09-25T01:02:03.500+03:00");
    assert_eq!(moment.utc_text, "2026-09-24T22:02:03.500+00:00");
    assert_eq!(moment.stamp, "20260924T220203Z");
    assert_eq!(moment.date, "2026-09-24");
    let leap = at("2016-12-31T23:59:60Z");
    assert_eq!(leap.stamp, "20161231T235960Z");
    let last = at("9999-12-31T23:59:60.999999999-23:59");
    assert_eq!(last.date, "+10000-01-01");
}

#[test]
fn days_of_the_calendar_have_bounds() {
    assert_eq!(chrono::NaiveDate::MIN.num_days_from_ce(), FIRST_DAY);
    assert_eq!(chrono::NaiveDate::MAX.num_days_from_ce(), LAST_DAY);
}

#[test]
fn due_job_is_found_among_rows() {
    let row = |id: i64, status: &str, next: Option<&str>| DueRow {
        id,
        status: status.to_owned(),
        next_run_at: next.map(str::to_owned),
    };
    let rows = vec![
        row(1, "paused", Some("2026-09-25T05:00:00+00:00")),
        row(2, "active", Some("2026-09-25T07:00:00+00:00")),
        row(3, "active", Some("2026-09-25T06:00:00+00:00")),
        row(4, "active", Some("2026-09-25T06:00:00+00:00")),
        row(5, "broken", Some("2026-09-25T05:00:00+00:00")),
        row(6, "active", None),
    ];
    assert_eq!(due_row(&rows, &Vec::new(), "2026-09-25T08:00:00+00:00"), Some(2));
    assert_eq!(due_row(&rows, &Vec::new(), "2026-09-25T06:00:00+00:00"), Some(2));
    assert_eq!(due_row(&rows, &Vec::new(), "2026-09-25T05:59:59+00:00"), None);
    let mut run = GenericRun {
        id: 1,
        job_id: 3,
        trigger: "manual".to_owned(),
        scheduled_at: String::new(),
        status: "running".to_owned(),
        trace: None,
        error: None,
    };
    assert_eq!(due_row(&rows, &vec![run.copy()], "2026-09-25T08:00:00+00:00"), Some(3));
    run.status = "failed".to_owned();
    assert_eq!(due_row(&rows, &vec![run], "2026-09-25T08:00:00+00:00"), Some(2));
}

#[test]
fn history_shows_a_hundred_runs_at_most() {
    assert_eq!(history_limit(0), 0);
    assert_eq!(history_limit(99), 99);
    assert_eq!(history_limit(u32::MAX), 100);
}
