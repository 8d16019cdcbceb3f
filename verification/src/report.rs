//! The report on a repository, and the file it is saved in.

use vstd::prelude::*;

use crate::activity::{ActivityModel, GithubProjectActivity};
use crate::github::{GithubRepositoryMetadata, LanguageModel, MetadataModel};
use crate::metrics::MetricKind;
use crate::numbers::{decimal, decimal_text};
use crate::text::{
    agrees, has_part, holds_text, join, joined, lemma_grown, lemma_index_of_char, lemma_joined_part,
    lemma_middle_part, lemma_views_push, same, split_once_char, view_option, views,
};

verus! {

broadcast use lemma_views_push;

// Metrics as they are shown.

/// A metric as it is shown: its value with two digits behind the point.
#[derive(Debug, PartialEq, Eq)]
pub struct ShownMetric {
    pub value: Option<String>,
    pub unit: String,
    pub kind: MetricKind,
}

/// A metric as it is shown, mathematically.
pub ghost struct ShownModel {
    pub value: Option<Seq<char>>,
    pub unit: Seq<char>,
    pub kind: MetricKind,
}

impl View for ShownMetric {
    type V = ShownModel;

    open spec fn view(&self) -> ShownModel {
        ShownModel { value: view_option(self.value), unit: self.unit@, kind: self.kind }
    }
}

/// The metrics of a repository as they are shown.
#[derive(Debug, PartialEq, Eq)]
pub struct ShownMetrics {
    pub repository: String,
    pub period_days: u16,
    pub commits: ShownMetric,
    pub active_contributors: ShownMetric,
    pub issue_closure_rate: ShownMetric,
    pub pull_request_merge_rate: ShownMetric,
    pub median_merge_hours: ShownMetric,
    pub ci_success_rate: ShownMetric,
    pub release_cadence_days: ShownMetric,
    pub warnings: Vec<String>,
}

/// The metrics of a repository as they are shown, mathematically.
pub ghost struct ShownMetricsModel {
    pub repository: Seq<char>,
    pub period_days: u16,
    pub commits: ShownModel,
    pub active_contributors: ShownModel,
    pub issue_closure_rate: ShownModel,
    pub pull_request_merge_rate: ShownModel,
    pub median_merge_hours: ShownModel,
    pub ci_success_rate: ShownModel,
    pub release_cadence_days: ShownModel,
    pub warnings: Seq<Seq<char>>,
}

impl View for ShownMetrics {
    type V = ShownMetricsModel;

    open spec fn view(&self) -> ShownMetricsModel {
        ShownMetricsModel {
            repository: self.repository@,
            period_days: self.period_days,
            commits: self.commits@,
            active_contributors: self.active_contributors@,
            issue_closure_rate: self.issue_closure_rate@,
            pull_request_merge_rate: self.pull_request_merge_rate@,
            median_merge_hours: self.median_merge_hours@,
            ci_success_rate: self.ci_success_rate@,
            release_cadence_days: self.release_cadence_days@,
            warnings: views(self.warnings@),
        }
    }
}

/// The name of where a metric comes from.
pub open spec fn metric_kind_name(kind: MetricKind) -> Seq<char> {
    match kind {
        MetricKind::Source => "source"@,
        MetricKind::Derived => "derived"@,
        MetricKind::Unavailable => "unavailable"@,
    }
}

/// A metric in the report.
pub open spec fn metric_text(metric: ShownModel) -> Seq<char> {
    match metric.value {
        Some(value) => value + " "@ + metric.unit + " ("@ + metric_kind_name(metric.kind) + ")"@,
        None => "unavailable ("@ + metric_kind_name(metric.kind) + ")"@,
    }
}

/// Writes a metric.
pub fn format_metric(metric: &ShownMetric) -> (r: String)
    ensures
        r@ == metric_text(metric@),
{
    let kind = match metric.kind {
        MetricKind::Source => "source",
        MetricKind::Derived => "derived",
        MetricKind::Unavailable => "unavailable",
    };
    match &metric.value {
        Some(value) => value.clone().concat(" ").concat(metric.unit.as_str()).concat(" (").concat(
            kind,
        ).concat(")"),
        None => "unavailable (".to_owned().concat(kind).concat(")"),
    }
}

/// A number in the report.
pub open spec fn count_text(value: Option<u64>, unit: Seq<char>) -> Seq<char> {
    match value {
        Some(n) => decimal(n as nat) + " "@ + unit + " (source)"@,
        None => "unavailable (unavailable)"@,
    }
}

/// Writes a number.
pub fn format_count(value: Option<u64>, unit: &str) -> (r: String)
    ensures
        r@ == count_text(value, unit@),
{
    match value {
        Some(n) => decimal_text(n).concat(" ").concat(unit).concat(" (source)"),
        None => "unavailable (unavailable)".to_owned(),
    }
}

/// Whether a source is complete, in the report.
pub open spec fn coverage_line(incomplete: Seq<Seq<char>>, source: Seq<char>) -> Seq<char> {
    "- "@ + source + ": "@ + if incomplete.contains(source) {
        "incomplete"@
    } else {
        "complete"@
    }
}

/// Which sources are complete, in the report.
pub open spec fn coverage_text(incomplete: Seq<Seq<char>>) -> Seq<char> {
    join(
        seq![
            coverage_line(incomplete, "commits"@),
            coverage_line(incomplete, "contributors"@),
            coverage_line(incomplete, "issues"@),
            coverage_line(incomplete, "pull_requests"@),
            coverage_line(incomplete, "actions"@),
            coverage_line(incomplete, "releases"@),
        ],
        "\n"@,
    )
}

fn write_coverage(incomplete: &Vec<String>, source: &str) -> (r: String)
    ensures
        r@ == coverage_line(views(incomplete@), source@),
{
    let status = if holds_text(incomplete.as_slice(), source) {
        "incomplete"
    } else {
        "complete"
    };
    "- ".to_owned().concat(source).concat(": ").concat(status)
}

/// Writes which sources are complete.
pub fn format_coverage(incomplete: &Vec<String>) -> (r: String)
    ensures
        r@ == coverage_text(views(incomplete@)),
{
    let mut lines: Vec<String> = Vec::new();
    lines.push(write_coverage(incomplete, "commits"));
    lines.push(write_coverage(incomplete, "contributors"));
    lines.push(write_coverage(incomplete, "issues"));
    lines.push(write_coverage(incomplete, "pull_requests"));
    lines.push(write_coverage(incomplete, "actions"));
    lines.push(write_coverage(incomplete, "releases"));
    proof {
        let all = views(incomplete@);
        assert(views(lines@) =~= seq![
            coverage_line(all, "commits"@),
            coverage_line(all, "contributors"@),
            coverage_line(all, "issues"@),
            coverage_line(all, "pull_requests"@),
            coverage_line(all, "actions"@),
            coverage_line(all, "releases"@),
        ]);
    }
    joined(lines.as_slice(), "\n")
}

// The report.

/// The languages of a project, each with its share.
pub open spec fn language_texts(languages: Seq<LanguageModel>, shares: Seq<Seq<char>>) -> Seq<
    Seq<char>,
> {
    Seq::new(
        languages.len(),
        |i: int|
            languages[i].name + ": "@ + decimal(languages[i].bytes) + " bytes ("@ + shares[i]
                + "%)"@,
    )
}

/// The languages of a project, in the report.
pub open spec fn languages_text(languages: Seq<LanguageModel>, shares: Seq<Seq<char>>) -> Seq<char> {
    if languages.len() == 0 {
        "unavailable"@
    } else {
        join(language_texts(languages, shares), ", "@)
    }
}

fn write_languages(metadata: &GithubRepositoryMetadata, shares: &Vec<String>) -> (r: String)
    requires
        shares@.len() == metadata.languages@.len(),
    ensures
        r@ == languages_text(metadata@.languages, views(shares@)),
{
    let ghost all = language_texts(metadata@.languages, views(shares@));
    if metadata.languages.len() == 0 {
        return "unavailable".to_owned();
    }
    let mut out: Vec<String> = Vec::new();
    let mut i: usize = 0;
    while i < metadata.languages.len()
        invariant
            i <= metadata.languages@.len(),
            shares@.len() == metadata.languages@.len(),
            all == language_texts(metadata@.languages, views(shares@)),
            views(out@) == all.take(i as int),
        decreases metadata.languages.len() - i,
    {
        let text = metadata.languages[i].name.clone().concat(": ").concat(
            decimal_text(metadata.languages[i].bytes).as_str(),
        ).concat(" bytes (").concat(shares[i].as_str()).concat("%)");
        proof {
            assert(all.take(i as int).push(text@) =~= all.take(i + 1));
        }
        out.push(text);
        i += 1;
    }
    proof {
        assert(all.take(i as int) =~= all);
    }
    joined(out.as_slice(), ", ")
}

/// A text that may not be known, in the report.
pub open spec fn known_text(value: Option<Seq<char>>) -> Seq<char> {
    match value {
        Some(text) => text,
        None => "unavailable"@,
    }
}

fn write_known(value: &Option<String>) -> (r: String)
    ensures
        r@ == known_text(view_option(*value)),
{
    match value {
        Some(text) => text.clone(),
        None => "unavailable".to_owned(),
    }
}

/// A line of the report.
pub open spec fn line(label: Seq<char>, value: Seq<char>, end: Seq<char>) -> Seq<char> {
    label + value + end
}

/// The head and the overview of the report.
pub open spec fn overview_text(
    metadata: MetadataModel,
    period_days: u16,
    languages: Seq<char>,
) -> Seq<char> {
    line("# GitHub project report: "@, metadata.repository, "\n\n"@) + line(
        "Period: "@,
        decimal(period_days as nat),
        " days\n\n## Overview\n\n"@,
    ) + line("- Repository: https://github.com/"@, metadata.repository, "\n"@) + line(
        "- Description: "@,
        known_text(metadata.description),
        "\n"@,
    ) + line("- Created at: "@, metadata.created_at, "\n"@) + line(
        "- Last pushed at: "@,
        known_text(metadata.pushed_at),
        "\n"@,
    ) + line("- Stars: "@, decimal(metadata.stars), " (source)\n"@) + line(
        "- Forks: "@,
        decimal(metadata.forks),
        " (source)\n"@,
    ) + line("- Subscribers: "@, decimal(metadata.subscribers), " (source)\n"@) + line(
        "- Open issues and pull requests: "@,
        decimal(metadata.open_issues_and_pulls),
        " (source)\n"@,
    ) + line("- Default branch: "@, metadata.default_branch, " (source)\n"@) + line(
        "- Languages: "@,
        languages,
        " (source)\n\n"@,
    )
}

/// The development and the collaboration in the report.
pub open spec fn collaboration_text(
    activity: ActivityModel,
    metrics: ShownMetricsModel,
) -> Seq<char> {
    "## Development\n\n"@ + line("- Commits: "@, metric_text(metrics.commits), "\n"@) + line(
        "- Active contributors: "@,
        metric_text(metrics.active_contributors),
        "\n\n## Collaboration\n\n"@,
    ) + line("- Issues opened: "@, count_text(activity.issues_opened, "issues"@), "\n"@) + line(
        "- Issues closed: "@,
        count_text(activity.issues_closed, "issues"@),
        "\n"@,
    ) + line("- Issue closure rate: "@, metric_text(metrics.issue_closure_rate), "\n"@) + line(
        "- Pull requests opened: "@,
        count_text(activity.pull_requests_opened, "pull requests"@),
        "\n"@,
    ) + line(
        "- Pull requests merged: "@,
        count_text(activity.pull_requests_merged, "pull requests"@),
        "\n"@,
    ) + line(
        "- Pull request merge rate: "@,
        metric_text(metrics.pull_request_merge_rate),
        "\n"@,
    ) + line("- Median merge time: "@, metric_text(metrics.median_merge_hours), "\n\n"@)
}

/// How many releases there were.
pub open spec fn release_count(times: Option<Seq<Seq<char>>>) -> Option<u64> {
    match times {
        Some(times) => Some(times.len() as u64),
        None => None,
    }
}

/// The delivery and the coverage in the report.
pub open spec fn delivery_text(activity: ActivityModel, metrics: ShownMetricsModel) -> Seq<char> {
    "## Delivery\n\n"@ + line(
        "- Workflow runs: "@,
        count_text(activity.workflow_runs, "runs"@),
        "\n"@,
    ) + line(
        "- Successful workflow runs: "@,
        count_text(activity.workflow_successes, "runs"@),
        "\n"@,
    ) + line("- CI success rate: "@, metric_text(metrics.ci_success_rate), "\n"@) + line(
        "- Releases: "@,
        count_text(release_count(activity.release_times), "releases"@),
        "\n"@,
    ) + line("- Release cadence: "@, metric_text(metrics.release_cadence_days), "\n\n"@) + line(
        "## Data coverage\n\n"@,
        coverage_text(activity.incomplete_sources),
        "\n## Warnings\n\n"@,
    )
}

/// The warnings, one on a line.
pub open spec fn warning_lines(warnings: Seq<Seq<char>>) -> Seq<char>
    decreases warnings.len(),
{
    if warnings.len() == 0 {
        Seq::empty()
    } else {
        warning_lines(warnings.drop_last()) + line("- "@, warnings.last(), "\n"@)
    }
}

/// The warnings in the report.
pub open spec fn warnings_text(warnings: Seq<Seq<char>>) -> Seq<char> {
    if warnings.len() == 0 {
        "- None\n"@
    } else {
        warning_lines(warnings)
    }
}

/// The report on a repository; `shares` are the shares of its languages, as they are shown.
pub open spec fn report_text(
    metadata: MetadataModel,
    activity: ActivityModel,
    metrics: ShownMetricsModel,
    shares: Seq<Seq<char>>,
) -> Result<Seq<char>, Seq<char>> {
    if metadata.repository != metrics.repository || metadata.repository != activity.repository {
        Err("metadata, activity и metrics относятся к разным GitHub-репозиториям"@)
    } else if activity.period_days != metrics.period_days {
        Err("activity и metrics относятся к разным периодам"@)
    } else {
        Ok(
            overview_text(
                metadata,
                metrics.period_days,
                languages_text(metadata.languages, shares),
            ) + collaboration_text(activity, metrics) + delivery_text(activity, metrics)
                + warnings_text(metrics.warnings),
        )
    }
}

fn write_line(label: &str, value: &str, end: &str) -> (r: String)
    ensures
        r@ == line(label@, value@, end@),
{
    label.to_owned().concat(value).concat(end)
}

fn write_overview(
    metadata: &GithubRepositoryMetadata,
    period_days: u16,
    languages: &str,
) -> (r: String)
    ensures
        r@ == overview_text(metadata@, period_days, languages@),
{
    let repository = metadata.repository.as_str();
    write_line("# GitHub project report: ", repository, "\n\n").concat(
        write_line(
            "Period: ",
            decimal_text(period_days as u64).as_str(),
            " days\n\n## Overview\n\n",
        ).as_str(),
    ).concat(write_line("- Repository: https://github.com/", repository, "\n").as_str()).concat(
        write_line("- Description: ", write_known(&metadata.description).as_str(), "\n").as_str(),
    ).concat(write_line("- Created at: ", metadata.created_at.as_str(), "\n").as_str()).concat(
        write_line("- Last pushed at: ", write_known(&metadata.pushed_at).as_str(), "\n").as_str(),
    ).concat(
        write_line("- Stars: ", decimal_text(metadata.stars).as_str(), " (source)\n").as_str(),
    ).concat(
        write_line("- Forks: ", decimal_text(metadata.forks).as_str(), " (source)\n").as_str(),
    ).concat(
        write_line(
            "- Subscribers: ",
            decimal_text(metadata.subscribers).as_str(),
            " (source)\n",
        ).as_str(),
    ).concat(
        write_line(
            "- Open issues and pull requests: ",
            decimal_text(metadata.open_issues_and_pulls).as_str(),
            " (source)\n",
        ).as_str(),
    ).concat(
        write_line("- Default branch: ", metadata.default_branch.as_str(), " (source)\n").as_str(),
    ).concat(write_line("- Languages: ", languages, " (source)\n\n").as_str())
}

fn write_collaboration(activity: &GithubProjectActivity, metrics: &ShownMetrics) -> (r: String)
    ensures
        r@ == collaboration_text(activity@, metrics@),
{
    "## Development\n\n".to_owned().concat(
        write_line("- Commits: ", format_metric(&metrics.commits).as_str(), "\n").as_str(),
    ).concat(
        write_line(
            "- Active contributors: ",
            format_metric(&metrics.active_contributors).as_str(),
            "\n\n## Collaboration\n\n",
        ).as_str(),
    ).concat(
        write_line(
            "- Issues opened: ",
            format_count(activity.issues_opened, "issues").as_str(),
            "\n",
        ).as_str(),
    ).concat(
        write_line(
            "- Issues closed: ",
            format_count(activity.issues_closed, "issues").as_str(),
            "\n",
        ).as_str(),
    ).concat(
        write_line(
            "- Issue closure rate: ",
            format_metric(&metrics.issue_closure_rate).as_str(),
            "\n",
        ).as_str(),
    ).concat(
        write_line(
            "- Pull requests opened: ",
            format_count(activity.pull_requests_opened, "pull requests").as_str(),
            "\n",
        ).as_str(),
    ).concat(
        write_line(
            "- Pull requests merged: ",
            format_count(activity.pull_requests_merged, "pull requests").as_str(),
            "\n",
        ).as_str(),
    ).concat(
        write_line(
            "- Pull request merge rate: ",
            format_metric(&metrics.pull_request_merge_rate).as_str(),
            "\n",
        ).as_str(),
    ).concat(
        write_line(
            "- Median merge time: ",
            format_metric(&metrics.median_merge_hours).as_str(),
            "\n\n",
        ).as_str(),
    )
}

fn write_delivery(activity: &GithubProjectActivity, metrics: &ShownMetrics) -> (r: String)
    ensures
        r@ == delivery_text(activity@, metrics@),
{
    let releases = match &activity.release_times {
        Some(times) => Some(times.len() as u64),
        None => None,
    };
    "## Delivery\n\n".to_owned().concat(
        write_line(
            "- Workflow runs: ",
            format_count(activity.workflow_runs, "runs").as_str(),
            "\n",
        ).as_str(),
    ).concat(
        write_line(
            "- Successful workflow runs: ",
            format_count(activity.workflow_successes, "runs").as_str(),
            "\n",
        ).as_str(),
    ).concat(
        write_line(
            "- CI success rate: ",
            format_metric(&metrics.ci_success_rate).as_str(),
            "\n",
        ).as_str(),
    ).concat(
        write_line("- Releases: ", format_count(releases, "releases").as_str(), "\n").as_str(),
    ).concat(
        write_line(
            "- Release cadence: ",
            format_metric(&metrics.release_cadence_days).as_str(),
            "\n\n",
        ).as_str(),
    ).concat(
        write_line(
            "## Data coverage\n\n",
            format_coverage(&activity.incomplete_sources).as_str(),
            "\n## Warnings\n\n",
        ).as_str(),
    )
}

fn write_warnings(warnings: &Vec<String>) -> (r: String)
    ensures
        r@ == warnings_text(views(warnings@)),
{
    if warnings.len() == 0 {
        return "- None\n".to_owned();
    }
    let ghost model = views(warnings@);
    let mut out = String::new();
    let mut i: usize = 0;
    proof {
        assert(model.take(0).len() == 0);
        assert(out@ =~= Seq::<char>::empty());
    }
    while i < warnings.len()
        invariant
            i <= warnings@.len(),
            model == views(warnings@),
            out@ == warning_lines(model.take(i as int)),
        decreases warnings.len() - i,
    {
        proof {
            assert(model.take(i + 1).drop_last() =~= model.take(i as int));
            assert(model.take(i + 1).last() == warnings@[i as int]@);
        }
        out = out.concat(write_line("- ", warnings[i].as_str(), "\n").as_str());
        i += 1;
    }
    proof {
        assert(model.take(i as int) =~= model);
    }
    out
}

/// Writes the report on a repository; `shares` are the shares of its languages, as they are shown.
pub fn render_github_report(
    metadata: &GithubRepositoryMetadata,
    activity: &GithubProjectActivity,
    metrics: &ShownMetrics,
    shares: &Vec<String>,
) -> (r: Result<String, String>)
    requires
        shares@.len() == metadata@.languages.len(),
    ensures
        agrees(r, report_text(metadata@, activity@, metrics@, views(shares@))),
{
    if !same(metadata.repository.as_str(), metrics.repository.as_str()) || !same(
        metadata.repository.as_str(),
        activity.repository.as_str(),
    ) {
        return Err(
            "metadata, activity и metrics относятся к разным GitHub-репозиториям".to_owned(),
        );
    }
    if activity.period_days != metrics.period_days {
        return Err("activity и metrics относятся к разным периодам".to_owned());
    }
    let languages = write_languages(metadata, shares);
    Ok(
        write_overview(metadata, metrics.period_days, languages.as_str()).concat(
            write_collaboration(activity, metrics).as_str(),
        ).concat(write_delivery(activity, metrics).as_str()).concat(
            write_warnings(&metrics.warnings).as_str(),
        ),
    )
}

// Saving.

/// A text that names one file, and no path.
pub open spec fn is_filename(name: Seq<char>) -> bool {
    &&& name.len() > 0
    &&& name != "."@
    &&& name != ".."@
    &&& !name.contains('/')
    &&& !name.contains('\\')
}

fn holds_char(text: &str, c: char) -> (r: bool)
    ensures
        r == text@.contains(c),
{
    proof {
        lemma_index_of_char(text@, c);
    }
    split_once_char(text, c).is_some()
}

/// Checks that a text names one file, and no path.
pub fn validate_filename(filename: &str) -> (r: Result<(), String>)
    ensures
        r is Ok <==> is_filename(filename@),
        r is Err ==> r->Err_0@
            == "filename должен быть безопасным именем одного файла, а не путём"@,
{
    if filename.unicode_len() == 0 || same(filename, ".") || same(filename, "..") || holds_char(
        filename,
        '/',
    ) || holds_char(filename, '\\') {
        Err("filename должен быть безопасным именем одного файла, а не путём".to_owned())
    } else {
        Ok(())
    }
}

/// What stands where a report is to be saved.
#[derive(Debug, Clone, Copy, PartialEq, Eq, Structural)]
pub enum ReportTarget {
    Nothing,
    Link,
    File,
    Other,
}

/// How the file of a report is opened.
#[derive(Debug, Clone, Copy, PartialEq, Eq, Structural)]
pub enum OpenMode {
    /// The file must not be there.
    Create,
    /// A file that is there is replaced.
    Replace,
}

/// How a report is saved, or why it is not.
pub open spec fn save_mode(target: ReportTarget, overwrite: bool) -> Result<OpenMode, Seq<char>> {
    match target {
        ReportTarget::Link => Err("нельзя сохранять отчёт через символическую ссылку"@),
        ReportTarget::Other => Err("цель отчёта не является обычным файлом"@),
        _ => if target == ReportTarget::File && !overwrite {
            Err("файл уже существует; для замены укажите overwrite=true"@)
        } else if overwrite {
            Ok(OpenMode::Replace)
        } else {
            Ok(OpenMode::Create)
        },
    }
}

/// Decides how a report is saved.
pub fn open_report(target: ReportTarget, overwrite: bool) -> (r: Result<OpenMode, String>)
    ensures
        match (r, save_mode(target, overwrite)) {
            (Ok(mode), Ok(model)) => mode == model,
            (Err(message), Err(model)) => message@ == model,
            _ => false,
        },
{
    match target {
        ReportTarget::Link => Err("нельзя сохранять отчёт через символическую ссылку".to_owned()),
        ReportTarget::Other => Err("цель отчёта не является обычным файлом".to_owned()),
        ReportTarget::File => if overwrite {
            Ok(OpenMode::Replace)
        } else {
            Err("файл уже существует; для замены укажите overwrite=true".to_owned())
        },
        ReportTarget::Nothing => if overwrite {
            Ok(OpenMode::Replace)
        } else {
            Ok(OpenMode::Create)
        },
    }
}

/// A file that is there is replaced only where that was asked for, and nothing but a file is.
pub proof fn law_existing_files_are_protected(target: ReportTarget, overwrite: bool)
    requires
        save_mode(target, overwrite) is Ok,
    ensures
        target == ReportTarget::Nothing || target == ReportTarget::File,
        target == ReportTarget::File ==> overwrite,
        save_mode(target, overwrite)->Ok_0 == OpenMode::Replace <==> overwrite,
{
}

/// A line that is added to a text tells its value behind its label, and all that the text told before
/// is still told.
proof fn lemma_line_behind(
    head: Seq<char>,
    label: Seq<char>,
    value: Seq<char>,
    end: Seq<char>,
) -> (whole: Seq<char>)
    ensures
        whole == head + line(label, value, end),
        has_part(whole, label + value),
        forall|part: Seq<char>| #[trigger] has_part(head, part) ==> has_part(whole, part),
{
    lemma_middle_part(head, label + value, end);
    assert(head + (label + value) + end =~= head + line(label, value, end));
    lemma_grown(head, line(label, value, end));
    head + line(label, value, end)
}

/// The overview tells what the metadata says, each number behind its own label.
pub proof fn law_overview_tells_the_metadata(
    metadata: MetadataModel,
    period_days: u16,
    languages: Seq<char>,
)
    ensures
        has_part(
            overview_text(metadata, period_days, languages),
            "# GitHub project report: "@ + metadata.repository,
        ),
        has_part(
            overview_text(metadata, period_days, languages),
            "Period: "@ + decimal(period_days as nat),
        ),
        has_part(
            overview_text(metadata, period_days, languages),
            "- Repository: https://github.com/"@ + metadata.repository,
        ),
        has_part(
            overview_text(metadata, period_days, languages),
            "- Description: "@ + known_text(metadata.description),
        ),
        has_part(
            overview_text(metadata, period_days, languages),
            "- Created at: "@ + metadata.created_at,
        ),
        has_part(
            overview_text(metadata, period_days, languages),
            "- Last pushed at: "@ + known_text(metadata.pushed_at),
        ),
        has_part(
            overview_text(metadata, period_days, languages),
            "- Stars: "@ + decimal(metadata.stars),
        ),
        has_part(
            overview_text(metadata, period_days, languages),
            "- Forks: "@ + decimal(metadata.forks),
        ),
        has_part(
            overview_text(metadata, period_days, languages),
            "- Subscribers: "@ + decimal(metadata.subscribers),
        ),
        has_part(
            overview_text(metadata, period_days, languages),
            "- Open issues and pull requests: "@ + decimal(metadata.open_issues_and_pulls),
        ),
        has_part(
            overview_text(metadata, period_days, languages),
            "- Default branch: "@ + metadata.default_branch,
        ),
        has_part(overview_text(metadata, period_days, languages), "- Languages: "@ + languages),
{
    let part1 = lemma_line_behind(
        Seq::empty(),
        "# GitHub project report: "@,
        metadata.repository,
        "\n\n"@,
    );
    let part2 = lemma_line_behind(
        part1,
        "Period: "@,
        decimal(period_days as nat),
        " days\n\n## Overview\n\n"@,
    );
    let part3 = lemma_line_behind(
        part2,
        "- Repository: https://github.com/"@,
        metadata.repository,
        "\n"@,
    );
    let part4 = lemma_line_behind(
        part3,
        "- Description: "@,
        known_text(metadata.description),
        "\n"@,
    );
    let part5 = lemma_line_behind(part4, "- Created at: "@, metadata.created_at, "\n"@);
    let part6 = lemma_line_behind(
        part5,
        "- Last pushed at: "@,
        known_text(metadata.pushed_at),
        "\n"@,
    );
    let part7 = lemma_line_behind(part6, "- Stars: "@, decimal(metadata.stars), " (source)\n"@);
    let part8 = lemma_line_behind(part7, "- Forks: "@, decimal(metadata.forks), " (source)\n"@);
    let part9 = lemma_line_behind(
        part8,
        "- Subscribers: "@,
        decimal(metadata.subscribers),
        " (source)\n"@,
    );
    let part10 = lemma_line_behind(
        part9,
        "- Open issues and pull requests: "@,
        decimal(metadata.open_issues_and_pulls),
        " (source)\n"@,
    );
    let part11 = lemma_line_behind(
        part10,
        "- Default branch: "@,
        metadata.default_branch,
        " (source)\n"@,
    );
    let part12 = lemma_line_behind(part11, "- Languages: "@, languages, " (source)\n\n"@);
    assert(part12 =~= overview_text(metadata, period_days, languages));
}

/// The report tells the numbers of the development, each behind its own label.
pub proof fn law_collaboration_tells_the_numbers(
    activity: ActivityModel,
    metrics: ShownMetricsModel,
)
    ensures
        has_part(
            collaboration_text(activity, metrics),
            "- Commits: "@ + metric_text(metrics.commits),
        ),
        has_part(
            collaboration_text(activity, metrics),
            "- Active contributors: "@ + metric_text(metrics.active_contributors),
        ),
        has_part(
            collaboration_text(activity, metrics),
            "- Issues opened: "@ + count_text(activity.issues_opened, "issues"@),
        ),
        has_part(
            collaboration_text(activity, metrics),
            "- Issues closed: "@ + count_text(activity.issues_closed, "issues"@),
        ),
        has_part(
            collaboration_text(activity, metrics),
            "- Issue closure rate: "@ + metric_text(metrics.issue_closure_rate),
        ),
        has_part(
            collaboration_text(activity, metrics),
            "- Pull requests opened: "@ + count_text(activity.pull_requests_opened, "pull requests"@),
        ),
        has_part(
            collaboration_text(activity, metrics),
            "- Pull requests merged: "@ + count_text(activity.pull_requests_merged, "pull requests"@),
        ),
        has_part(
            collaboration_text(activity, metrics),
            "- Pull request merge rate: "@ + metric_text(metrics.pull_request_merge_rate),
        ),
        has_part(
            collaboration_text(activity, metrics),
            "- Median merge time: "@ + metric_text(metrics.median_merge_hours),
        ),
{
    let part1 = lemma_line_behind(
        "## Development\n\n"@,
        "- Commits: "@,
        metric_text(metrics.commits),
        "\n"@,
    );
    let part2 = lemma_line_behind(
        part1,
        "- Active contributors: "@,
        metric_text(metrics.active_contributors),
        "\n\n## Collaboration\n\n"@,
    );
    let part3 = lemma_line_behind(
        part2,
        "- Issues opened: "@,
        count_text(activity.issues_opened, "issues"@),
        "\n"@,
    );
    let part4 = lemma_line_behind(
        part3,
        "- Issues closed: "@,
        count_text(activity.issues_closed, "issues"@),
        "\n"@,
    );
    let part5 = lemma_line_behind(
        part4,
        "- Issue closure rate: "@,
        metric_text(metrics.issue_closure_rate),
        "\n"@,
    );
    let part6 = lemma_line_behind(
        part5,
        "- Pull requests opened: "@,
        count_text(activity.pull_requests_opened, "pull requests"@),
        "\n"@,
    );
    let part7 = lemma_line_behind(
        part6,
        "- Pull requests merged: "@,
        count_text(activity.pull_requests_merged, "pull requests"@),
        "\n"@,
    );
    let part8 = lemma_line_behind(
        part7,
        "- Pull request merge rate: "@,
        metric_text(metrics.pull_request_merge_rate),
        "\n"@,
    );
    let part9 = lemma_line_behind(
        part8,
        "- Median merge time: "@,
        metric_text(metrics.median_merge_hours),
        "\n\n"@,
    );
    assert(part9 =~= collaboration_text(activity, metrics));
}

/// The report tells the numbers of the delivery, each behind its own label.
pub proof fn law_delivery_tells_the_numbers(
    activity: ActivityModel,
    metrics: ShownMetricsModel,
)
    ensures
        has_part(
            delivery_text(activity, metrics),
            "- Workflow runs: "@ + count_text(activity.workflow_runs, "runs"@),
        ),
        has_part(
            delivery_text(activity, metrics),
            "- Successful workflow runs: "@ + count_text(activity.workflow_successes, "runs"@),
        ),
        has_part(
            delivery_text(activity, metrics),
            "- CI success rate: "@ + metric_text(metrics.ci_success_rate),
        ),
        has_part(
            delivery_text(activity, metrics),
            "- Releases: "@ + count_text(release_count(activity.release_times), "releases"@),
        ),
        has_part(
            delivery_text(activity, metrics),
            "- Release cadence: "@ + metric_text(metrics.release_cadence_days),
        ),
        has_part(
            delivery_text(activity, metrics),
            "## Data coverage\n\n"@ + coverage_text(activity.incomplete_sources),
        ),
{
    let part1 = lemma_line_behind(
        "## Delivery\n\n"@,
        "- Workflow runs: "@,
        count_text(activity.workflow_runs, "runs"@),
        "\n"@,
    );
    let part2 = lemma_line_behind(
        part1,
        "- Successful workflow runs: "@,
        count_text(activity.workflow_successes, "runs"@),
        "\n"@,
    );
    let part3 = lemma_line_behind(
        part2,
        "- CI success rate: "@,
        metric_text(metrics.ci_success_rate),
        "\n"@,
    );
    let part4 = lemma_line_behind(
        part3,
        "- Releases: "@,
        count_text(release_count(activity.release_times), "releases"@),
        "\n"@,
    );
    let part5 = lemma_line_behind(
        part4,
        "- Release cadence: "@,
        metric_text(metrics.release_cadence_days),
        "\n\n"@,
    );
    let part6 = lemma_line_behind(
        part5,
        "## Data coverage\n\n"@,
        coverage_text(activity.incomplete_sources),
        "\n## Warnings\n\n"@,
    );
    assert(part6 =~= delivery_text(activity, metrics));
}

/// A report has all its sections, and is about one repository and one period.
pub proof fn law_report_has_its_sections(
    metadata: MetadataModel,
    activity: ActivityModel,
    metrics: ShownMetricsModel,
    shares: Seq<Seq<char>>,
)
    ensures
        report_text(metadata, activity, metrics, shares) is Ok <==> metadata.repository
            == metrics.repository && metadata.repository == activity.repository
            && activity.period_days == metrics.period_days,
        report_text(metadata, activity, metrics, shares) matches Ok(text) ==> {
            &&& has_part(
                text,
                overview_text(
                    metadata,
                    activity.period_days,
                    languages_text(metadata.languages, shares),
                ),
            )
            &&& has_part(text, collaboration_text(activity, metrics))
            &&& has_part(text, delivery_text(activity, metrics))
            &&& has_part(text, warnings_text(metrics.warnings))
        },
{
    let overview = overview_text(
        metadata,
        metrics.period_days,
        languages_text(metadata.languages, shares),
    );
    let development = collaboration_text(activity, metrics);
    let delivery = delivery_text(activity, metrics);
    let warnings = warnings_text(metrics.warnings);
    lemma_grown(Seq::empty(), overview);
    assert(Seq::<char>::empty() + overview =~= overview);
    lemma_grown(overview, development);
    lemma_grown(overview + development, delivery);
    lemma_grown(overview + development + delivery, warnings);
    assert(has_part(overview + development, overview));
    assert(has_part(overview + development + delivery, overview));
    assert(has_part(overview + development + delivery, development));
}

/// Every warning is told, and no warnings at all are told as none.
pub proof fn law_every_warning_is_told(warnings: Seq<Seq<char>>, i: int)
    ensures
        0 <= i < warnings.len() ==> has_part(warnings_text(warnings), "- "@ + warnings[i]),
        warnings.len() == 0 ==> warnings_text(warnings) == "- None\n"@,
    decreases warnings.len(),
{
    if 0 <= i < warnings.len() {
        let head = warnings.drop_last();
        let part = lemma_line_behind(warning_lines(head), "- "@, warnings.last(), "\n"@);
        if i < head.len() {
            law_every_warning_is_told(head, i);
            assert(head[i] == warnings[i]);
            assert(has_part(warning_lines(head), "- "@ + warnings[i]));
        }
        assert(has_part(part, "- "@ + warnings[i]));
    }
}

/// A source that could not be read whole is told to be incomplete, any other to be complete.
pub proof fn law_coverage_tells_every_source(incomplete: Seq<Seq<char>>, source: Seq<char>)
    requires
        seq![
            "commits"@,
            "contributors"@,
            "issues"@,
            "pull_requests"@,
            "actions"@,
            "releases"@,
        ].contains(source),
    ensures
        incomplete.contains(source) ==> has_part(
            coverage_text(incomplete),
            "- "@ + source + ": "@ + "incomplete"@,
        ),
        !incomplete.contains(source) ==> has_part(
            coverage_text(incomplete),
            "- "@ + source + ": "@ + "complete"@,
        ),
{
    let sources = seq![
        "commits"@,
        "contributors"@,
        "issues"@,
        "pull_requests"@,
        "actions"@,
        "releases"@,
    ];
    let told = seq![
        coverage_line(incomplete, "commits"@),
        coverage_line(incomplete, "contributors"@),
        coverage_line(incomplete, "issues"@),
        coverage_line(incomplete, "pull_requests"@),
        coverage_line(incomplete, "actions"@),
        coverage_line(incomplete, "releases"@),
    ];
    let at = choose|at: int| 0 <= at < sources.len() && sources[at] == source;
    assert(told[at] == coverage_line(incomplete, source));
    lemma_joined_part(told, "\n"@, at);
}

/// Every language is told with its bytes and its share.
pub proof fn law_every_language_is_told(
    languages: Seq<LanguageModel>,
    shares: Seq<Seq<char>>,
    i: int,
)
    requires
        0 <= i < languages.len(),
    ensures
        has_part(
            languages_text(languages, shares),
            languages[i].name + ": "@ + decimal(languages[i].bytes) + " bytes ("@ + shares[i]
                + "%)"@,
        ),
{
    lemma_joined_part(language_texts(languages, shares), ", "@, i);
}

/// A metric is told with its value and its unit; a missing one is told to be unavailable.
pub proof fn law_metric_is_told_with_its_unit(metric: ShownModel, count: u64, unit: Seq<char>)
    ensures
        metric.value matches Some(value) ==> (value + " "@ + metric.unit).is_prefix_of(
            metric_text(metric),
        ),
        metric.value is None ==> "unavailable"@.is_prefix_of(metric_text(metric)),
        (decimal(count as nat) + " "@ + unit).is_prefix_of(count_text(Some(count), unit)),
        "unavailable"@.is_prefix_of(count_text(None, unit)),
{
    if let Some(value) = metric.value {
        let start = value + " "@ + metric.unit;
        let end = " ("@ + metric_kind_name(metric.kind) + ")"@;
        assert(metric_text(metric) =~= start + end);
        assert(metric_text(metric).subrange(0, start.len() as int) =~= start);
    } else {
        reveal_strlit("unavailable (");
        reveal_strlit("unavailable");
        assert(metric_text(metric).subrange(0, "unavailable"@.len() as int) =~= "unavailable"@);
    }
    let start = decimal(count as nat) + " "@ + unit;
    assert(count_text(Some(count), unit).subrange(0, start.len() as int) =~= start);
    reveal_strlit("unavailable (unavailable)");
    reveal_strlit("unavailable");
    assert("unavailable (unavailable)"@.subrange(0, 11) =~= "unavailable"@);
}

/// A report is saved under a plain name: never in another directory.
pub proof fn law_report_stays_in_its_directory(name: Seq<char>, part: Seq<char>)
    ensures
        is_filename(name) ==> name.len() > 0 && name != "."@ && name != ".."@,
        !is_filename(part + "/"@ + name),
        !is_filename(part + "\\"@ + name),
{
    reveal_strlit("/");
    reveal_strlit("\\");
    let slashed = part + "/"@ + name;
    assert(slashed[part.len() as int] == '/');
    let other = part + "\\"@ + name;
    assert(other[part.len() as int] == '\\');
}

} // verus!
