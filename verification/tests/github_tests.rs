use fox_llm::activity::{begin_period, ActivityRun, GithubProjectActivity, PageFetch};
use fox_llm::github::{
    after_stats_attempt, commit_author_identity, read_answer, read_languages, repository_metadata,
    repository_path, request_address, request_limit, require_value, usable_token,
    validate_repository, GithubRepositoryMetadata, LanguageBytes, RequestBudget, StatsStep,
    MAX_PAGES, MAX_REQUESTS_AUTHENTICATED, MAX_REQUESTS_UNAUTHENTICATED, PAGE_SIZE,
};
use fox_llm::json::{parse_json, Json};
use fox_llm::metrics::{calculate_github_metrics, Amount, MetricKind, MetricValue};
use fox_llm::report::{
    format_count, format_coverage, format_metric, open_report, render_github_report,
    validate_filename, OpenMode, ReportTarget, ShownMetric, ShownMetrics,
};
use fox_llm::time::{parse_moment, Timestamp};

fn json(text: &str) -> Json {
    parse_json(text).unwrap()
}

fn now() -> Timestamp {
    parse_moment("2026-09-25T12:00:00Z").unwrap()
}

/// The value of a metric, where hours are counted in whole seconds.
fn value(metric: &MetricValue) -> Option<f64> {
    match &metric.value {
        None => None,
        Some(Amount::Count(n)) => Some(*n as f64),
        Some(Amount::Percent(part, whole)) => Some(*part as f64 / *whole as f64 * 100.0),
        Some(Amount::Middle(a, b)) => Some((*a as f64 / 3600.0 + *b as f64 / 3600.0) / 2.0),
        Some(Amount::MeanDays(spans)) => Some(
            spans.iter().map(|s| *s as f64 / 86_400.0).sum::<f64>() / spans.len() as f64,
        ),
    }
}

#[test]
fn metadata_is_normalized_and_http_errors_are_safe() {
    let repo = json(
        "{\"description\": \"demo\", \"stargazers_count\": 12, \"forks_count\": 3, \"subscribers_count\": 2, \"open_issues_count\": 4, \"default_branch\": \"main\", \"created_at\": \"2025-01-01T00:00:00Z\", \"pushed_at\": \"2026-09-20T00:00:00Z\"}",
    );
    let languages = json("{\"Rust\": 1000, \"Shell\": 20}");
    let metadata = repository_metadata("acme/demo", &repo, &languages).unwrap();
    assert_eq!(metadata.stars, 12);
    assert_eq!(metadata.languages[0].name, "Rust");
    assert_eq!(metadata.languages[0].bytes, 1000);

    let missing = read_answer(404, Some(json("\"secret response body\""))).unwrap_err();
    assert!(missing.contains("не найден"));
    assert!(!missing.contains("secret"));
    let limited = read_answer(403, Some(json("\"sensitive rate-limit details\""))).unwrap_err();
    assert!(limited.contains("rate limit"));
    assert!(!limited.contains("sensitive"));
    assert!(read_answer(500, None).is_err());
    assert!(read_answer(202, None).unwrap().is_none());
    assert_eq!(read_answer(200, Some(json("[1]"))).unwrap(), Some(json("[1]")));
    assert!(require_value(None).is_err());
    assert!(repository_metadata("acme/demo", &json("{}"), &languages).is_err());
    assert!(read_languages(&json("[]")).is_err());
}

#[test]
fn repositories_and_requests_are_checked() {
    assert!(validate_repository("acme/demo").is_ok());
    for bad in ["acme", "acme/", "/demo", "a/b/c", "acme/de mo", ""] {
        assert!(validate_repository(bad).is_err(), "{bad}");
    }
    assert_eq!(repository_path("acme/demo", "/languages"), "/repos/acme/demo/languages");
    assert_eq!(request_address("http://host", "/repos"), "http://host/repos");
    assert_eq!(usable_token(Some("  ".to_owned())), None);
    assert_eq!(usable_token(Some(" t ".to_owned())).as_deref(), Some("t"));
    assert_eq!(request_limit(false), MAX_REQUESTS_UNAUTHENTICATED);
    assert_eq!(request_limit(true), MAX_REQUESTS_AUTHENTICATED);
    assert_eq!(
        commit_author_identity(&json("{\"author\": {\"login\": \"Alice\"}}")),
        commit_author_identity(&json("{\"author\": {\"login\": \"alice\"}}"))
    );
    assert_eq!(commit_author_identity(&json("{}")), None);
}

#[test]
fn request_budget_is_bounded() {
    let mut budget = RequestBudget::new(1);
    assert!(budget.take().is_ok());
    let error = budget.take().unwrap_err();
    assert!(error.contains("внутренний лимит"));
    assert_eq!(budget.used, 1);
}

fn answer(text: &str) -> Result<Option<Json>, String> {
    Ok(Some(json(text)))
}

fn page_of(item: &str, count: usize) -> Json {
    json(&format!("[{}]", vec![item.to_owned(); count].join(",")))
}

fn collect(run: &mut ActivityRun, pages: Vec<Result<(Vec<Json>, bool), String>>) {
    for page in pages {
        assert!(run.fetch().is_some());
        run.accept(&page);
    }
    assert!(run.fetch().is_none());
}

fn array(value: Json) -> Vec<Json> {
    match value {
        Json::Array(items) => items,
        _ => panic!("an array"),
    }
}

#[test]
fn activity_handles_pagination_and_collects_all_sources() {
    let since = begin_period("acme/demo", 30, &now()).unwrap();
    let week = now().seconds;
    let mut run = ActivityRun::begin(
        "acme/demo",
        30,
        since,
        answer(&format!("[{{\"week\": {week}, \"total\": 5}}]")),
        answer(&format!("[{{\"weeks\": [{{\"w\": {week}, \"c\": 2}}]}}]")),
    )
    .unwrap();
    let issue = "{\"created_at\": \"2026-09-25T11:00:00Z\", \"closed_at\": \"2026-09-25T11:30:00Z\"}";
    let mut fetch = run.fetch().unwrap();
    assert!(fetch.request_path().contains("/repos/acme/demo/issues"));
    assert_eq!(fetch.accept(&page_of(issue, PAGE_SIZE)).unwrap(), None);
    assert_eq!(fetch.accept(&json("[]")).unwrap(), Some(false));
    assert_eq!(fetch.values.len(), PAGE_SIZE);
    let pull = "{\"created_at\": \"2026-09-25T00:00:00Z\", \"merged_at\": \"2026-09-25T12:00:00Z\", \"updated_at\": \"2026-09-25T12:00:00Z\"}";
    let releases = "[{\"published_at\": \"2026-09-15T12:00:00Z\"}, {\"published_at\": \"2026-09-23T12:00:00Z\"}]";
    let issues = fetch.values;
    collect(
        &mut run,
        vec![
            Ok((issues, false)),
            Ok((array(page_of(pull, 1)), false)),
            Ok((array(json("[{\"conclusion\": \"success\"}]")), false)),
            Ok((array(json(releases)), false)),
        ],
    );
    let activity = run.finish();
    assert_eq!(activity.commits, Some(5));
    assert_eq!(activity.active_contributors, Some(1));
    assert_eq!(activity.issues_opened, Some(PAGE_SIZE as u64));
    assert_eq!(activity.issues_closed, Some(PAGE_SIZE as u64));
    assert_eq!(activity.pull_requests_merged, Some(1));
    assert_eq!(activity.merge_times, vec![12 * 3600]);
    assert_eq!(activity.workflow_successes, Some(1));
    assert_eq!(activity.release_times.as_ref().unwrap().len(), 2);
    assert!(!activity.truncated);
}

#[test]
fn activity_validates_period_and_degrades_persistent_pending_statistics() {
    for period_days in [0, 366] {
        let error = begin_period("acme/demo", period_days, &now()).unwrap_err();
        assert!(error.contains("от 1 до 365"));
    }
    let mut requests = 0;
    let mut attempt = 0;
    let statistics = loop {
        requests += 1;
        match after_stats_attempt(attempt, None) {
            StatsStep::Wait(_) => attempt += 1,
            StatsStep::GiveUp => break None,
            StatsStep::Ready(value) => break Some(value),
        }
    };
    assert_eq!(requests, 4);
    assert!(statistics.is_none());
    assert_eq!(after_stats_attempt(0, Some(json("[]"))), StatsStep::Ready(json("[]")));

    let since = begin_period("acme/demo", 30, &now()).unwrap();
    let mut run = ActivityRun::begin("acme/demo", 30, since, Ok(None), Ok(None)).unwrap();
    let commits = "[{\"author\": {\"login\": \"Alice\"}}, {\"author\": {\"login\": \"alice\"}}, {\"author\": null, \"commit\": {\"author\": {\"email\": \"bob@example.test\"}}}]";
    assert!(run.fetch().unwrap().request_path().contains("/commits"));
    collect(
        &mut run,
        vec![
            Ok((array(json(commits)), false)),
            Err("HTTP 404".to_owned()),
            Err("HTTP 404".to_owned()),
            Err("HTTP 404".to_owned()),
            Err("HTTP 404".to_owned()),
        ],
    );
    let activity = run.finish();
    assert_eq!(activity.commits, None);
    assert_eq!(activity.active_contributors, Some(2));
    assert!(activity.incomplete_sources.contains(&"commits".to_owned()));
    assert!(!activity.incomplete_sources.contains(&"contributors".to_owned()));
    assert!(activity.warnings.iter().any(|warning| warning.contains("commits недоступны")));
    assert!(activity
        .warnings
        .iter()
        .any(|warning| warning.contains("уникальным авторам коммитов")));

    let metrics = calculate_github_metrics("acme/demo", &activity).unwrap();
    assert_eq!(metrics.commits.kind, MetricKind::Unavailable);
    assert_eq!(value(&metrics.active_contributors), Some(2.0));
}

#[test]
fn pagination_stops_when_a_page_reaches_the_time_boundary() {
    let since = parse_moment("2026-08-26T12:00:00Z").unwrap();
    let mut fetch = PageFetch::new(
        "/items?per_page=100".to_owned(),
        None,
        Some(("updated_at".to_owned(), since)),
    );
    let old = "{\"updated_at\": \"2026-07-27T12:00:00Z\"}";
    assert_eq!(fetch.accept(&page_of(old, PAGE_SIZE)).unwrap(), Some(false));
    assert_eq!(fetch.values.len(), PAGE_SIZE);
}

#[test]
fn pages_are_bounded_and_must_be_arrays() {
    let mut fetch = PageFetch::new("/items?per_page=100".to_owned(), None, None);
    let page = page_of("1", PAGE_SIZE);
    for _ in 1..MAX_PAGES {
        assert_eq!(fetch.accept(&page).unwrap(), None);
    }
    assert_eq!(fetch.accept(&page).unwrap(), Some(true));
    let mut broken = PageFetch::new("/items".to_owned(), Some("runs".to_owned()), None);
    assert!(broken.accept(&json("[]")).is_err());
}

fn metadata() -> GithubRepositoryMetadata {
    GithubRepositoryMetadata {
        repository: "acme/demo".to_owned(),
        description: None,
        stars: 10,
        forks: 2,
        subscribers: 1,
        open_issues_and_pulls: 3,
        default_branch: "main".to_owned(),
        created_at: "2025-01-01T00:00:00Z".to_owned(),
        pushed_at: None,
        languages: vec![LanguageBytes { name: "Rust".to_owned(), bytes: 100 }],
    }
}

fn activity(hours: &[i64], releases: &[&str]) -> GithubProjectActivity {
    GithubProjectActivity {
        repository: "acme/demo".to_owned(),
        period_days: 30,
        since: "2026-08-25T00:00:00Z".to_owned(),
        commits: Some(20),
        active_contributors: Some(4),
        issues_opened: Some(10),
        issues_closed: Some(8),
        pull_requests_opened: Some(5),
        pull_requests_merged: Some(4),
        merge_times: hours.iter().map(|h| h * 3600).collect(),
        workflow_runs: Some(10),
        workflow_successes: Some(9),
        release_times: Some(releases.iter().map(|r| r.to_string()).collect()),
        truncated: false,
        incomplete_sources: vec![],
        warnings: vec![],
    }
}

#[test]
fn metrics_are_deterministic_and_missing_values_are_not_zero() {
    let releases = ["2026-09-01T00:00:00Z", "2026-09-11T00:00:00Z"];
    let full = activity(&[10, 20, 30], &releases);
    let metrics = calculate_github_metrics("acme/demo", &full).unwrap();
    assert_eq!(value(&metrics.commits), Some(20.0));
    assert_eq!(value(&metrics.issue_closure_rate), Some(80.0));
    assert_eq!(value(&metrics.pull_request_merge_rate), Some(80.0));
    assert_eq!(value(&metrics.median_merge_hours), Some(20.0));
    assert_eq!(value(&metrics.ci_success_rate), Some(90.0));
    assert_eq!(value(&metrics.release_cadence_days), Some(10.0));

    let mut partial = activity(&[10, 20, 30], &releases);
    partial.workflow_runs = None;
    partial.workflow_successes = None;
    partial.release_times = None;
    partial.truncated = true;
    partial.warnings.push("данные усечены".to_owned());
    let metrics = calculate_github_metrics("acme/demo", &partial).unwrap();
    assert_eq!(value(&metrics.ci_success_rate), None);
    assert_eq!(metrics.ci_success_rate.kind, MetricKind::Unavailable);
    assert!(metrics.warnings.iter().any(|warning| warning.contains("усечены")));
    assert!(calculate_github_metrics("acme/other", &partial).is_err());
}

#[test]
fn an_even_number_of_times_has_two_in_the_middle() {
    let even = activity(&[40, 10, 30, 20], &[]);
    let metrics = calculate_github_metrics("acme/demo", &even).unwrap();
    assert_eq!(
        metrics.median_merge_hours.value,
        Some(Amount::Middle(20 * 3600, 30 * 3600))
    );
    assert_eq!(value(&metrics.median_merge_hours), Some(25.0));
}

fn shown(value: Option<&str>, unit: &str, kind: MetricKind) -> ShownMetric {
    ShownMetric { value: value.map(str::to_owned), unit: unit.to_owned(), kind }
}

fn shown_metrics() -> ShownMetrics {
    ShownMetrics {
        repository: "acme/demo".to_owned(),
        period_days: 30,
        commits: shown(Some("20.00"), "commits", MetricKind::Source),
        active_contributors: shown(Some("4.00"), "contributors", MetricKind::Source),
        issue_closure_rate: shown(Some("80.00"), "percent", MetricKind::Derived),
        pull_request_merge_rate: shown(None, "percent", MetricKind::Unavailable),
        median_merge_hours: shown(Some("12.00"), "hours", MetricKind::Derived),
        ci_success_rate: shown(Some("90.00"), "percent", MetricKind::Derived),
        release_cadence_days: shown(None, "days", MetricKind::Unavailable),
        warnings: vec!["release cadence недоступна".to_owned()],
    }
}

#[test]
fn github_report_has_all_sections_and_metric_kinds() {
    let mut source = activity(&[12], &["2026-09-01T00:00:00Z"]);
    source.incomplete_sources = vec!["releases".to_owned()];
    source.warnings = vec!["release cadence недоступна".to_owned()];
    let shares = vec!["100.0".to_owned()];
    let report = render_github_report(&metadata(), &source, &shown_metrics(), &shares).unwrap();
    let expected = [
        "# GitHub project report: acme/demo",
        "## Overview",
        "## Development",
        "## Collaboration",
        "## Delivery",
        "## Data coverage",
        "## Warnings",
        "20.00 commits (source)",
        "Issues opened: 10 issues (source)",
        "Workflow runs: 10 runs (source)",
        "Rust: 100 bytes (100.0%)",
        "releases: incomplete",
        "80.00 percent (derived)",
        "unavailable (unavailable)",
        "release cadence недоступна",
    ];
    for fragment in expected {
        assert!(report.contains(fragment), "missing fragment: {fragment}");
    }
    let mut other = shown_metrics();
    other.repository = "acme/other".to_owned();
    assert!(render_github_report(&metadata(), &source, &other, &shares).is_err());
}

#[test]
fn report_lines_are_formatted() {
    assert_eq!(
        format_metric(&shown(Some("1.50"), "days", MetricKind::Derived)),
        "1.50 days (derived)"
    );
    assert_eq!(format_count(Some(3), "runs"), "3 runs (source)");
    assert!(format_count(None, "runs").contains("unavailable"));
    assert!(format_coverage(&vec![]).contains("complete"));
}

#[test]
fn save_report_accepts_arbitrary_utf8_and_protects_existing_files() {
    assert!(validate_filename("metrics.json").is_ok());
    assert_eq!(open_report(ReportTarget::Nothing, false).unwrap(), OpenMode::Create);
    let error = open_report(ReportTarget::File, false).unwrap_err();
    assert!(error.contains("overwrite=true"));
    assert_eq!(open_report(ReportTarget::File, true).unwrap(), OpenMode::Replace);
}

#[test]
fn save_report_rejects_paths_and_non_file_targets() {
    for filename in ["", ".", "..", "/tmp/report", "nested/report", "nested\\report"] {
        let error = validate_filename(filename).unwrap_err();
        assert!(error.contains("безопасным именем"));
    }
    let error = open_report(ReportTarget::Other, true).unwrap_err();
    assert!(error.contains("обычным файлом"));
}

#[test]
fn save_report_rejects_symlink_target() {
    let error = open_report(ReportTarget::Link, true).unwrap_err();
    assert!(error.contains("символическую ссылку"));
}
