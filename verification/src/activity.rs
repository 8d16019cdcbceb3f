//! The collection of a repository's activity: which pages are asked for, and what is made of them.

use vstd::prelude::*;

use crate::github::{
    active_in, authors_in, collect_releases, collect_spans, commits_in, count_authors, count_since,
    is_active, is_repository, keep_issues, law_active_contributors_have_commits,
    law_counted_since_a_moment, law_issues_are_no_pull_requests, law_successes_are_successful_runs,
    merge_spans, names_moment_since, plain_issues, releases_in, repository_path, successes_in,
    sum_commits, tally_active, tally_since, tally_successes, time_in, validate_repository,
    MAX_PAGES, PAGE_SIZE,
};
use crate::json::{array_at, array_value, member_of, text_at, Json, JsonModel};
use crate::numbers::{decimal, size_text};
use crate::order::{ascending, same_texts, sorted_texts};
use crate::text::{
    agrees, contains_text, has_part, lemma_middle_part, lemma_views_push, view_option, views,
};
use crate::time::{
    after, is_after, moment_at, read_moment, rfc3339_read, timestamp_at, Timestamp, TimestampModel,
    DAY_SECONDS, LATEST_SECOND,
};

verus! {

broadcast use lemma_views_push;

// Lists of pages.

/// A list that is read page by page.
#[derive(Debug, PartialEq, Eq)]
pub struct PageFetch {
    /// The path of the list.
    pub path: String,
    /// The field that holds the elements of a page, where the page is no list itself.
    pub array_field: Option<String>,
    /// A field that names a moment, and the moment before which nothing is asked for.
    pub cutoff: Option<(String, Timestamp)>,
    /// The page that is asked for next.
    pub page: usize,
    /// The elements so far.
    pub values: Vec<Json>,
}

/// A list that is read page by page, mathematically.
pub ghost struct FetchModel {
    pub path: Seq<char>,
    pub array_field: Option<Seq<char>>,
    pub cutoff: Option<(Seq<char>, TimestampModel)>,
    pub page: nat,
    pub values: Seq<JsonModel>,
}

impl View for PageFetch {
    type V = FetchModel;

    open spec fn view(&self) -> FetchModel {
        FetchModel {
            path: self.path@,
            array_field: view_option(self.array_field),
            cutoff: match self.cutoff {
                Some(cutoff) => Some((cutoff.0@, cutoff.1@)),
                None => None,
            },
            page: self.page as nat,
            values: views(self.values@),
        }
    }
}

/// A list from its first page on.
pub open spec fn fetch_of(
    path: Seq<char>,
    array_field: Option<Seq<char>>,
    cutoff: Option<(Seq<char>, TimestampModel)>,
) -> FetchModel {
    FetchModel { path, array_field, cutoff, page: 1, values: Seq::empty() }
}

/// The path of a page.
pub open spec fn page_path(path: Seq<char>, page: nat) -> Seq<char> {
    path + (if has_part(path, "?"@) {
        "&"@
    } else {
        "?"@
    }) + "page="@ + decimal(page)
}

/// The elements of a page.
pub open spec fn page_items(fetch: FetchModel, value: JsonModel) -> Option<Seq<JsonModel>> {
    match fetch.array_field {
        Some(field) => array_at(value, field),
        None => array_value(value),
    }
}

/// A value names a moment before another.
pub open spec fn is_before(value: JsonModel, field: Seq<char>, moment: TimestampModel) -> bool {
    match time_in(value, field) {
        Some(time) => after(moment, time),
        None => false,
    }
}

/// Some element of a page lies before the moment that bounds the list.
pub open spec fn reaches_cutoff(
    cutoff: Option<(Seq<char>, TimestampModel)>,
    items: Seq<JsonModel>,
) -> bool {
    match cutoff {
        Some(cutoff) => exists|i: int|
            0 <= i < items.len() && is_before(#[trigger] items[i], cutoff.0, cutoff.1),
        None => false,
    }
}

/// What follows a page: the list so far, and whether it is finished; a finished list says whether it
/// was cut off.
pub open spec fn page_taken(fetch: FetchModel, value: JsonModel) -> Result<
    (FetchModel, Option<bool>),
    Seq<char>,
> {
    match page_items(fetch, value) {
        None => Err("GitHub вернул неожиданный формат списка"@),
        Some(items) => {
            let after = FetchModel { values: fetch.values + items, ..fetch };
            if items.len() < PAGE_SIZE || reaches_cutoff(fetch.cutoff, items) {
                Ok((after, Some(false)))
            } else if fetch.page >= MAX_PAGES {
                Ok((after, Some(true)))
            } else {
                Ok((FetchModel { page: fetch.page + 1, ..after }, None))
            }
        },
    }
}

fn names_before(value: &Json, field: &str, moment: &Timestamp) -> (r: bool)
    ensures
        r == is_before(value@, field@, moment@),
{
    match value.get_text(field) {
        Some(text) => match read_moment(text.as_str()) {
            Some(time) => is_after(moment, &time),
            None => false,
        },
        None => false,
    }
}

fn passes_cutoff(cutoff: &Option<(String, Timestamp)>, items: &Vec<Json>) -> (r: bool)
    ensures
        r == reaches_cutoff(
            match *cutoff {
                Some(cutoff) => Some((cutoff.0@, cutoff.1@)),
                None => None,
            },
            views(items@),
        ),
{
    match cutoff {
        None => false,
        Some(bound) => {
            let ghost model = views(items@);
            let mut i: usize = 0;
            while i < items.len()
                invariant
                    i <= items@.len(),
                    model == views(items@),
                    *cutoff == Some(*bound),
                    forall|k: int| 0 <= k < i ==> !is_before(
                        #[trigger] model[k],
                        bound.0@,
                        bound.1@,
                    ),
                decreases items.len() - i,
            {
                proof {
                    assert(model[i as int] == items@[i as int]@);
                }
                if names_before(&items[i], bound.0.as_str(), &bound.1) {
                    proof {
                        assert(is_before(model[i as int], bound.0@, bound.1@));
                    }
                    return true;
                }
                i += 1;
            }
            false
        },
    }
}

impl PageFetch {
    /// A list from its first page on.
    pub fn new(
        path: String,
        array_field: Option<String>,
        cutoff: Option<(String, Timestamp)>,
    ) -> (r: PageFetch)
        ensures
            r@ == fetch_of(
                path@,
                view_option(array_field),
                match cutoff {
                    Some(cutoff) => Some((cutoff.0@, cutoff.1@)),
                    None => None,
                },
            ),
    {
        let fetch = PageFetch { path, array_field, cutoff, page: 1, values: Vec::new() };
        proof {
            assert(views(fetch.values@) =~= Seq::<JsonModel>::empty());
        }
        fetch
    }

    /// The path of the page that is asked for next.
    pub fn request_path(&self) -> (r: String)
        ensures
            r@ == page_path(self@.path, self@.page),
    {
        let separator = if contains_text(self.path.as_str(), "?") {
            "&"
        } else {
            "?"
        };
        self.path.clone().concat(separator).concat("page=").concat(size_text(self.page).as_str())
    }

    /// Takes a page. A finished list says whether it was cut off.
    pub fn accept(&mut self, value: &Json) -> (r: Result<Option<bool>, String>)
        ensures
            match (r, page_taken(old(self)@, value@)) {
                (Ok(finished), Ok(model)) => finished == model.1 && final(self)@ == model.0,
                (Err(message), Err(model)) => message@ == model && final(self)@ == old(self)@,
                _ => false,
            },
    {
        let ghost start = self@;
        let items = match &self.array_field {
            Some(field) => value.get_array(field.as_str()),
            None => value.as_array(),
        };
        let items = match items {
            Some(items) => items,
            None => return Err("GitHub вернул неожиданный формат списка".to_owned()),
        };
        let reached = passes_cutoff(&self.cutoff, items);
        let ghost model = views(items@);
        let mut i: usize = 0;
        proof {
            assert(start.values + model.take(0) =~= start.values);
        }
        while i < items.len()
            invariant
                i <= items@.len(),
                model == views(items@),
                self@ == (FetchModel { values: start.values + model.take(i as int), ..start }),
            decreases items.len() - i,
        {
            let copy = items[i].copy();
            proof {
                assert((start.values + model.take(i as int)).push(copy@) =~= start.values
                    + model.take(i + 1));
            }
            self.values.push(copy);
            i += 1;
        }
        proof {
            assert(model.take(i as int) =~= model);
        }
        if items.len() < PAGE_SIZE || reached {
            Ok(Some(false))
        } else if self.page >= MAX_PAGES {
            Ok(Some(true))
        } else {
            self.page += 1;
            Ok(None)
        }
    }
}

/// A list asks for no page beyond the last that may be read, and a page that is not the last one
/// leads to the next.
pub proof fn law_pages_are_bounded(fetch: FetchModel, value: JsonModel)
    requires
        1 <= fetch.page <= MAX_PAGES,
        page_taken(fetch, value) is Ok,
    ensures
        ({
            let (after, finished) = page_taken(fetch, value)->Ok_0;
            &&& 1 <= after.page <= MAX_PAGES
            &&& finished is None ==> after.page == fetch.page + 1
            &&& finished == Some(true) ==> fetch.page == MAX_PAGES
            &&& fetch.values.is_prefix_of(after.values)
        }),
{
    let items = page_items(fetch, value)->Some_0;
    assert((fetch.values + items).subrange(0, fetch.values.len() as int) =~= fetch.values);
}

// Activity.

/// What GitHub tells of the activity in a period. The times to merge are numbers in the order of those
/// times.
#[derive(Debug, PartialEq, Eq)]
pub struct GithubProjectActivity {
    pub repository: String,
    pub period_days: u16,
    pub since: String,
    pub commits: Option<u64>,
    pub active_contributors: Option<u64>,
    pub issues_opened: Option<u64>,
    pub issues_closed: Option<u64>,
    pub pull_requests_opened: Option<u64>,
    pub pull_requests_merged: Option<u64>,
    pub merge_times: Vec<i64>,
    pub workflow_runs: Option<u64>,
    pub workflow_successes: Option<u64>,
    pub release_times: Option<Vec<String>>,
    pub truncated: bool,
    pub incomplete_sources: Vec<String>,
    pub warnings: Vec<String>,
}

/// What GitHub tells of the activity in a period, mathematically.
pub ghost struct ActivityModel {
    pub repository: Seq<char>,
    pub period_days: u16,
    pub since: Seq<char>,
    pub commits: Option<u64>,
    pub active_contributors: Option<u64>,
    pub issues_opened: Option<u64>,
    pub issues_closed: Option<u64>,
    pub pull_requests_opened: Option<u64>,
    pub pull_requests_merged: Option<u64>,
    pub merge_times: Seq<i64>,
    pub workflow_runs: Option<u64>,
    pub workflow_successes: Option<u64>,
    pub release_times: Option<Seq<Seq<char>>>,
    pub truncated: bool,
    pub incomplete_sources: Seq<Seq<char>>,
    pub warnings: Seq<Seq<char>>,
}

/// The view of an optional list of texts.
pub open spec fn view_texts(value: Option<Vec<String>>) -> Option<Seq<Seq<char>>> {
    match value {
        Some(texts) => Some(views(texts@)),
        None => None,
    }
}

impl View for GithubProjectActivity {
    type V = ActivityModel;

    open spec fn view(&self) -> ActivityModel {
        ActivityModel {
            repository: self.repository@,
            period_days: self.period_days,
            since: self.since@,
            commits: self.commits,
            active_contributors: self.active_contributors,
            issues_opened: self.issues_opened,
            issues_closed: self.issues_closed,
            pull_requests_opened: self.pull_requests_opened,
            pull_requests_merged: self.pull_requests_merged,
            merge_times: self.merge_times@,
            workflow_runs: self.workflow_runs,
            workflow_successes: self.workflow_successes,
            release_times: view_texts(self.release_times),
            truncated: self.truncated,
            incomplete_sources: views(self.incomplete_sources@),
            warnings: views(self.warnings@),
        }
    }
}

/// Which list is read.
#[derive(Debug, Clone, Copy, PartialEq, Eq, Structural)]
pub enum ActivityStage {
    Commits,
    Issues,
    Pulls,
    Workflows,
    Releases,
    Finished,
}

/// A collection of the activity of a repository.
#[derive(Debug, PartialEq, Eq)]
pub struct ActivityRun {
    pub since: Timestamp,
    pub stage: ActivityStage,
    pub activity: GithubProjectActivity,
}

/// A collection of the activity of a repository, mathematically.
pub ghost struct RunModel {
    pub since: TimestampModel,
    pub stage: ActivityStage,
    pub activity: ActivityModel,
}

impl View for ActivityRun {
    type V = RunModel;

    open spec fn view(&self) -> RunModel {
        RunModel { since: self.since@, stage: self.stage, activity: self.activity@ }
    }
}

/// The beginning of a period, or why there is none.
pub open spec fn period_error(repository: Seq<char>, period_days: u16) -> Option<Seq<char>> {
    if !is_repository(repository) {
        Some("репозиторий должен иметь безопасный формат owner/name"@)
    } else if !(1 <= period_days <= 365) {
        Some("period_days должен быть от 1 до 365"@)
    } else {
        None
    }
}

/// The second at which a period began that ends now.
pub open spec fn period_start(now: TimestampModel, period_days: u16) -> int {
    now.seconds - period_days * DAY_SECONDS
}

/// Checks what is asked for and gives the beginning of the period.
pub fn begin_period(repository: &str, period_days: u16, now: &Timestamp) -> (r: Result<
    Timestamp,
    String,
>)
    requires
        EARLIEST_NOW <= now@.seconds <= LATEST_SECOND,
        now@.nanos < 1_000_000_000,
    ensures
        match period_error(repository@, period_days) {
            Some(message) => r is Err && r->Err_0@ == message,
            None => r is Ok && Some(r->Ok_0@) == moment_at(
                period_start(now@, period_days) as i64,
                now@.nanos,
                0,
            ) && r->Ok_0@.seconds == period_start(now@, period_days),
        },
{
    if let Err(message) = validate_repository(repository) {
        return Err(message);
    }
    if !(1 <= period_days && period_days <= 365) {
        return Err("period_days должен быть от 1 до 365".to_owned());
    }
    let start: i64 = now.seconds - period_days as i64 * DAY_SECONDS;
    Ok(timestamp_at(start, now.nanos, 0).unwrap())
}

/// The first second from which a year can be counted back.
pub const EARLIEST_NOW: i64 = -62_135_000_000;

/// Nothing is known of the activity yet.
pub open spec fn no_activity(
    repository: Seq<char>,
    period_days: u16,
    since: TimestampModel,
) -> ActivityModel {
    ActivityModel {
        repository,
        period_days,
        since: since.utc_text,
        commits: None,
        active_contributors: None,
        issues_opened: None,
        issues_closed: None,
        pull_requests_opened: None,
        pull_requests_merged: None,
        merge_times: Seq::empty(),
        workflow_runs: None,
        workflow_successes: None,
        release_times: None,
        truncated: false,
        incomplete_sources: Seq::empty(),
        warnings: Seq::empty(),
    }
}

/// The activity with a warning.
pub open spec fn warned(activity: ActivityModel, warning: Seq<char>) -> ActivityModel {
    ActivityModel { warnings: activity.warnings.push(warning), ..activity }
}

/// The activity with a source that is incomplete, and a warning.
pub open spec fn with_gap(
    activity: ActivityModel,
    source: Seq<char>,
    warning: Seq<char>,
) -> ActivityModel {
    warned(
        ActivityModel {
            incomplete_sources: activity.incomplete_sources.push(source),
            ..activity
        },
        warning,
    )
}

/// The message where the commits are more than a number can hold.
pub open spec fn too_many_commits() -> Seq<char> {
    "число коммитов GitHub вне допустимого диапазона"@
}

/// What the statistics of commits add: their number, or a warning that it is not there yet.
pub open spec fn commits_noted(
    activity: ActivityModel,
    answer: Option<JsonModel>,
    since: TimestampModel,
) -> Result<ActivityModel, Seq<char>> {
    match answer {
        None => Ok(
            with_gap(
                activity,
                "commits"@,
                "commit statistics ещё формируется GitHub; commits недоступны, повторите запрос позже"@,
            ),
        ),
        Some(value) => match array_value(value) {
            None => Ok(activity),
            Some(weeks) => if commits_in(weeks, since) > u64::MAX {
                Err(too_many_commits())
            } else {
                Ok(ActivityModel { commits: Some(commits_in(weeks, since) as u64), ..activity })
            },
        },
    }
}

/// What the statistics of contributors add, and which list is read next: that of commits where the
/// statistics are not there yet.
pub open spec fn contributors_noted(
    activity: ActivityModel,
    answer: Option<JsonModel>,
    since: TimestampModel,
) -> (ActivityModel, ActivityStage) {
    match answer {
        None => (activity, ActivityStage::Commits),
        Some(value) => match array_value(value) {
            None => (activity, ActivityStage::Issues),
            Some(contributors) => (
                ActivityModel {
                    active_contributors: Some(active_in(contributors, since) as u64),
                    ..activity
                },
                ActivityStage::Issues,
            ),
        },
    }
}

/// The collection after both statistics.
pub open spec fn run_begun(
    repository: Seq<char>,
    period_days: u16,
    since: TimestampModel,
    commits: Result<Option<JsonModel>, Seq<char>>,
    contributors: Result<Option<JsonModel>, Seq<char>>,
) -> Result<RunModel, Seq<char>> {
    match commits {
        Err(message) => Err(message),
        Ok(commits) => match commits_noted(
            no_activity(repository, period_days, since),
            commits,
            since,
        ) {
            Err(message) => Err(message),
            Ok(activity) => match contributors {
                Err(message) => Err(message),
                Ok(contributors) => {
                    let (activity, stage) = contributors_noted(activity, contributors, since);
                    Ok(RunModel { since, stage, activity })
                },
            },
        },
    }
}

/// The view of an answer.
pub open spec fn view_answer(answer: Result<Option<Json>, String>) -> Result<
    Option<JsonModel>,
    Seq<char>,
> {
    match answer {
        Ok(value) => Ok(view_option(value)),
        Err(message) => Err(message@),
    }
}

/// The elements of a list and whether it was cut off, or a message.
pub open spec fn view_pages(result: Result<(Vec<Json>, bool), String>) -> Result<
    (Seq<JsonModel>, bool),
    Seq<char>,
> {
    match result {
        Ok(pages) => Ok((views(pages.0@), pages.1)),
        Err(message) => Err(message@),
    }
}

/// What is noted of a list: that it was cut off, or that it could not be read.
pub open spec fn pages_noted(
    activity: ActivityModel,
    source: Seq<char>,
    failure: Seq<char>,
    result: Result<(Seq<JsonModel>, bool), Seq<char>>,
) -> ActivityModel {
    match result {
        Ok(pages) => if pages.1 {
            with_gap(
                ActivityModel { truncated: true, ..activity },
                source,
                source + " усечены ограничением пагинации"@,
            )
        } else {
            activity
        },
        Err(message) => with_gap(activity, source, failure + message),
    }
}

/// What the list of commits adds: the number of their authors.
pub open spec fn authors_noted(
    activity: ActivityModel,
    result: Result<(Seq<JsonModel>, bool), Seq<char>>,
) -> ActivityModel {
    match result {
        Ok(pages) => {
            let counted = warned(
                ActivityModel {
                    active_contributors: Some(authors_in(pages.0).to_set().len() as u64),
                    ..activity
                },
                "contributor statistics ещё формируется GitHub; active contributors рассчитаны по уникальным авторам коммитов"@,
            );
            if pages.1 {
                with_gap(
                    ActivityModel { truncated: true, ..counted },
                    "contributors"@,
                    "contributors усечены ограничением пагинации; значение является нижней оценкой"@,
                )
            } else {
                counted
            }
        },
        Err(message) => with_gap(
            activity,
            "contributors"@,
            "contributor statistics ещё формируется GitHub, fallback по авторам коммитов недоступен: "@
                + message,
        ),
    }
}

/// What the list of issues adds.
pub open spec fn issues_noted(
    activity: ActivityModel,
    result: Result<(Seq<JsonModel>, bool), Seq<char>>,
    since: TimestampModel,
) -> ActivityModel {
    let noted = pages_noted(activity, "issues"@, "issues недоступны: "@, result);
    match result {
        Ok(pages) => ActivityModel {
            issues_opened: Some(
                count_since(plain_issues(pages.0), "created_at"@, since) as u64,
            ),
            issues_closed: Some(count_since(plain_issues(pages.0), "closed_at"@, since) as u64),
            ..noted
        },
        Err(_) => noted,
    }
}

/// What the list of pull requests adds.
pub open spec fn pulls_noted(
    activity: ActivityModel,
    result: Result<(Seq<JsonModel>, bool), Seq<char>>,
    since: TimestampModel,
) -> ActivityModel {
    let noted = pages_noted(activity, "pull_requests"@, "pull requests недоступны: "@, result);
    match result {
        Ok(pages) => ActivityModel {
            pull_requests_opened: Some(count_since(pages.0, "created_at"@, since) as u64),
            pull_requests_merged: Some(merge_spans(pages.0, since).len() as u64),
            merge_times: merge_spans(pages.0, since),
            ..noted
        },
        Err(_) => noted,
    }
}

/// What the list of workflow runs adds.
pub open spec fn workflows_noted(
    activity: ActivityModel,
    result: Result<(Seq<JsonModel>, bool), Seq<char>>,
) -> ActivityModel {
    let noted = pages_noted(activity, "actions"@, "GitHub Actions недоступны: "@, result);
    match result {
        Ok(pages) => ActivityModel {
            workflow_runs: Some(pages.0.len() as u64),
            workflow_successes: Some(successes_in(pages.0) as u64),
            ..noted
        },
        Err(_) => noted,
    }
}

/// What the list of releases adds.
pub open spec fn releases_noted(
    activity: ActivityModel,
    result: Result<(Seq<JsonModel>, bool), Seq<char>>,
    since: TimestampModel,
) -> ActivityModel {
    let noted = pages_noted(activity, "releases"@, "releases недоступны: "@, result);
    match result {
        Ok(pages) => ActivityModel { release_times: Some(releases_in(pages.0, since)), ..noted },
        Err(_) => noted,
    }
}

/// The collection after the list that it reads.
pub open spec fn pages_taken(
    run: RunModel,
    result: Result<(Seq<JsonModel>, bool), Seq<char>>,
) -> RunModel {
    match run.stage {
        ActivityStage::Commits => RunModel {
            stage: ActivityStage::Issues,
            activity: authors_noted(run.activity, result),
            ..run
        },
        ActivityStage::Issues => RunModel {
            stage: ActivityStage::Pulls,
            activity: issues_noted(run.activity, result, run.since),
            ..run
        },
        ActivityStage::Pulls => RunModel {
            stage: ActivityStage::Workflows,
            activity: pulls_noted(run.activity, result, run.since),
            ..run
        },
        ActivityStage::Workflows => RunModel {
            stage: ActivityStage::Releases,
            activity: workflows_noted(run.activity, result),
            ..run
        },
        ActivityStage::Releases => RunModel {
            stage: ActivityStage::Finished,
            activity: releases_noted(run.activity, result, run.since),
            ..run
        },
        ActivityStage::Finished => run,
    }
}

/// The list that a collection reads.
pub open spec fn stage_fetch(run: RunModel) -> Option<FetchModel> {
    let repository = "/repos/"@ + run.activity.repository;
    match run.stage {
        ActivityStage::Commits => Some(
            fetch_of(
                repository + ("/commits?since="@ + run.since.utc_text + "&per_page=100"@),
                None,
                None,
            ),
        ),
        ActivityStage::Issues => Some(
            fetch_of(
                repository + ("/issues?state=all&since="@ + run.since.utc_text + "&per_page=100"@),
                None,
                None,
            ),
        ),
        ActivityStage::Pulls => Some(
            fetch_of(
                repository + "/pulls?state=all&sort=updated&direction=desc&per_page=100"@,
                None,
                Some(("updated_at"@, run.since)),
            ),
        ),
        ActivityStage::Workflows => Some(
            fetch_of(
                repository + ("/actions/runs?created=>="@ + run.since.date + "&per_page=100"@),
                Some("workflow_runs"@),
                None,
            ),
        ),
        ActivityStage::Releases => Some(
            fetch_of(
                repository + "/releases?per_page=100"@,
                None,
                Some(("published_at"@, run.since)),
            ),
        ),
        ActivityStage::Finished => None,
    }
}

fn copy_time(time: &Timestamp) -> (r: Timestamp)
    ensures
        r@ == time@,
{
    Timestamp {
        seconds: time.seconds,
        nanos: time.nanos,
        offset: time.offset,
        text: time.text.clone(),
        utc_text: time.utc_text.clone(),
        stamp: time.stamp.clone(),
        shown: time.shown.clone(),
        date: time.date.clone(),
    }
}

impl GithubProjectActivity {
    fn empty(repository: &str, period_days: u16, since: &Timestamp) -> (r: GithubProjectActivity)
        ensures
            r@ == no_activity(repository@, period_days, since@),
    {
        let activity = GithubProjectActivity {
            repository: repository.to_owned(),
            period_days,
            since: since.utc_text.clone(),
            commits: None,
            active_contributors: None,
            issues_opened: None,
            issues_closed: None,
            pull_requests_opened: None,
            pull_requests_merged: None,
            merge_times: Vec::new(),
            workflow_runs: None,
            workflow_successes: None,
            release_times: None,
            truncated: false,
            incomplete_sources: Vec::new(),
            warnings: Vec::new(),
        };
        proof {
            assert(views(activity.incomplete_sources@) =~= Seq::<Seq<char>>::empty());
            assert(views(activity.warnings@) =~= Seq::<Seq<char>>::empty());
        }
        activity
    }

    fn note_gap(&mut self, source: &str, warning: String)
        ensures
            final(self)@ == with_gap(old(self)@, source@, warning@),
    {
        self.incomplete_sources.push(source.to_owned());
        self.warnings.push(warning);
    }

    fn note_pages(&mut self, source: &str, failure: &str, result: &Result<(Vec<Json>, bool), String>)
        ensures
            final(self)@ == pages_noted(old(self)@, source@, failure@, view_pages(*result)),
    {
        match result {
            Ok(pages) => {
                if pages.1 {
                    self.truncated = true;
                    self.note_gap(
                        source,
                        source.to_owned().concat(" усечены ограничением пагинации"),
                    );
                }
            },
            Err(message) => {
                self.note_gap(source, failure.to_owned().concat(message.as_str()));
            },
        }
    }

    fn note_commits(&mut self, answer: Option<Json>, since: &Timestamp) -> (r: Result<(), String>)
        ensures
            match (r, commits_noted(old(self)@, view_option(answer), since@)) {
                (Ok(_), Ok(model)) => final(self)@ == model,
                (Err(message), Err(model)) => message@ == model,
                _ => false,
            },
    {
        match answer {
            None => {
                self.note_gap(
                    "commits",
                    "commit statistics ещё формируется GitHub; commits недоступны, повторите запрос позже".to_owned(),
                );
                Ok(())
            },
            Some(value) => match value.as_array() {
                None => Ok(()),
                Some(weeks) => match sum_commits(weeks, since) {
                    Some(total) => {
                        self.commits = Some(total);
                        Ok(())
                    },
                    None => Err("число коммитов GitHub вне допустимого диапазона".to_owned()),
                },
            },
        }
    }

    fn note_contributors(&mut self, answer: Option<Json>, since: &Timestamp) -> (r: ActivityStage)
        ensures
            (final(self)@, r) == contributors_noted(old(self)@, view_option(answer), since@),
    {
        match answer {
            None => ActivityStage::Commits,
            Some(value) => {
                if let Some(contributors) = value.as_array() {
                    self.active_contributors = Some(tally_active(contributors, since));
                }
                ActivityStage::Issues
            },
        }
    }

    fn note_authors(&mut self, result: &Result<(Vec<Json>, bool), String>)
        ensures
            final(self)@ == authors_noted(old(self)@, view_pages(*result)),
    {
        match result {
            Ok(pages) => {
                self.active_contributors = Some(count_authors(&pages.0));
                self.warnings.push(
                    "contributor statistics ещё формируется GitHub; active contributors рассчитаны по уникальным авторам коммитов".to_owned(),
                );
                if pages.1 {
                    self.truncated = true;
                    self.note_gap(
                        "contributors",
                        "contributors усечены ограничением пагинации; значение является нижней оценкой".to_owned(),
                    );
                }
            },
            Err(message) => {
                self.note_gap(
                    "contributors",
                    "contributor statistics ещё формируется GitHub, fallback по авторам коммитов недоступен: ".to_owned().concat(
                    message.as_str()),
                );
            },
        }
    }

    fn note_issues(&mut self, result: &Result<(Vec<Json>, bool), String>, since: &Timestamp)
        ensures
            final(self)@ == issues_noted(old(self)@, view_pages(*result), since@),
    {
        self.note_pages("issues", "issues недоступны: ", result);
        if let Ok(pages) = result {
            let issues = keep_issues(&pages.0);
            self.issues_opened = Some(tally_since(&issues, "created_at", since));
            self.issues_closed = Some(tally_since(&issues, "closed_at", since));
        }
    }

    fn note_pulls(&mut self, result: &Result<(Vec<Json>, bool), String>, since: &Timestamp)
        ensures
            final(self)@ == pulls_noted(old(self)@, view_pages(*result), since@),
    {
        self.note_pages("pull_requests", "pull requests недоступны: ", result);
        if let Ok(pages) = result {
            let spans = collect_spans(&pages.0, since);
            self.pull_requests_opened = Some(tally_since(&pages.0, "created_at", since));
            self.pull_requests_merged = Some(spans.len() as u64);
            self.merge_times = spans;
        }
    }

    fn note_workflows(&mut self, result: &Result<(Vec<Json>, bool), String>)
        ensures
            final(self)@ == workflows_noted(old(self)@, view_pages(*result)),
    {
        self.note_pages("actions", "GitHub Actions недоступны: ", result);
        if let Ok(pages) = result {
            self.workflow_runs = Some(pages.0.len() as u64);
            self.workflow_successes = Some(tally_successes(&pages.0));
        }
    }

    fn note_releases(&mut self, result: &Result<(Vec<Json>, bool), String>, since: &Timestamp)
        ensures
            final(self)@ == releases_noted(old(self)@, view_pages(*result), since@),
    {
        self.note_pages("releases", "releases недоступны: ", result);
        if let Ok(pages) = result {
            self.release_times = Some(collect_releases(&pages.0, since));
        }
    }
}

impl ActivityRun {
    /// Begins a collection with the statistics of commits and contributors.
    pub fn begin(
        repository: &str,
        period_days: u16,
        since: Timestamp,
        commits: Result<Option<Json>, String>,
        contributors: Result<Option<Json>, String>,
    ) -> (r: Result<ActivityRun, String>)
        ensures
            agrees(
                r,
                run_begun(
                    repository@,
                    period_days,
                    since@,
                    view_answer(commits),
                    view_answer(contributors),
                ),
            ),
    {
        let mut activity = GithubProjectActivity::empty(repository, period_days, &since);
        match commits {
            Err(message) => return Err(message),
            Ok(answer) => {
                if let Err(message) = activity.note_commits(answer, &since) {
                    return Err(message);
                }
            },
        }
        match contributors {
            Err(message) => Err(message),
            Ok(answer) => {
                let stage = activity.note_contributors(answer, &since);
                Ok(ActivityRun { since, stage, activity })
            },
        }
    }

    /// The list that the collection reads.
    pub fn fetch(&self) -> (r: Option<PageFetch>)
        ensures
            view_option(r) == stage_fetch(self@),
    {
        let repository = self.activity.repository.as_str();
        match self.stage {
            ActivityStage::Commits => {
                let rest = "/commits?since=".to_owned().concat(
                    self.since.utc_text.as_str(),
                ).concat("&per_page=100");
                Some(PageFetch::new(repository_path(repository, rest.as_str()), None, None))
            },
            ActivityStage::Issues => {
                let rest = "/issues?state=all&since=".to_owned().concat(
                    self.since.utc_text.as_str(),
                ).concat("&per_page=100");
                Some(PageFetch::new(repository_path(repository, rest.as_str()), None, None))
            },
            ActivityStage::Pulls => Some(
                PageFetch::new(
                    repository_path(
                        repository,
                        "/pulls?state=all&sort=updated&direction=desc&per_page=100",
                    ),
                    None,
                    Some(("updated_at".to_owned(), copy_time(&self.since))),
                ),
            ),
            ActivityStage::Workflows => {
                let rest = "/actions/runs?created=>=".to_owned().concat(
                    self.since.date.as_str(),
                ).concat("&per_page=100");
                Some(
                    PageFetch::new(
                        repository_path(repository, rest.as_str()),
                        Some("workflow_runs".to_owned()),
                        None,
                    ),
                )
            },
            ActivityStage::Releases => Some(
                PageFetch::new(
                    repository_path(repository, "/releases?per_page=100"),
                    None,
                    Some(("published_at".to_owned(), copy_time(&self.since))),
                ),
            ),
            ActivityStage::Finished => None,
        }
    }

    /// Takes the list that the collection reads.
    pub fn accept(&mut self, result: &Result<(Vec<Json>, bool), String>)
        ensures
            final(self)@ == pages_taken(old(self)@, view_pages(*result)),
    {
        match self.stage {
            ActivityStage::Commits => {
                self.activity.note_authors(result);
                self.stage = ActivityStage::Issues;
            },
            ActivityStage::Issues => {
                self.activity.note_issues(result, &self.since);
                self.stage = ActivityStage::Pulls;
            },
            ActivityStage::Pulls => {
                self.activity.note_pulls(result, &self.since);
                self.stage = ActivityStage::Workflows;
            },
            ActivityStage::Workflows => {
                self.activity.note_workflows(result);
                self.stage = ActivityStage::Releases;
            },
            ActivityStage::Releases => {
                self.activity.note_releases(result, &self.since);
                self.stage = ActivityStage::Finished;
            },
            ActivityStage::Finished => {},
        }
    }

    /// The activity that was collected; the incomplete sources stand in order, each once.
    pub fn finish(self) -> (r: GithubProjectActivity)
        ensures
            ascending(r@.incomplete_sources),
            same_texts(r@.incomplete_sources, self@.activity.incomplete_sources),
            r@ == (ActivityModel {
                incomplete_sources: r@.incomplete_sources,
                ..self@.activity
            }),
    {
        let mut activity = self.activity;
        activity.incomplete_sources = sorted_texts(&activity.incomplete_sources);
        activity
    }
}

/// Every list that could not be read or was cut off is named as incomplete, with one more warning.
pub proof fn law_gaps_are_reported(
    run: RunModel,
    result: Result<(Seq<JsonModel>, bool), Seq<char>>,
)
    requires
        run.stage != ActivityStage::Finished,
        result is Err || result->Ok_0.1,
    ensures
        pages_taken(run, result).activity.incomplete_sources.len()
            == run.activity.incomplete_sources.len() + 1,
        pages_taken(run, result).activity.warnings.len() > run.activity.warnings.len(),
{
}

/// A list that could not be read leaves its numbers unknown: none of them becomes zero.
pub proof fn law_unknown_is_not_zero(run: RunModel, message: Seq<char>)
    ensures
        ({
            let after = pages_taken(run, Err(message)).activity;
            &&& after.commits == run.activity.commits
            &&& after.active_contributors == run.activity.active_contributors
            &&& after.issues_opened == run.activity.issues_opened
            &&& after.issues_closed == run.activity.issues_closed
            &&& after.pull_requests_opened == run.activity.pull_requests_opened
            &&& after.pull_requests_merged == run.activity.pull_requests_merged
            &&& after.workflow_runs == run.activity.workflow_runs
            &&& after.workflow_successes == run.activity.workflow_successes
            &&& after.release_times == run.activity.release_times
        }),
{
}

// What a collection tells.

/// A page adds all of its elements behind those that were read before it. The list goes on exactly
/// where the page is full, reaches no element before the moment that bounds it, and is not the last
/// that may be read.
pub proof fn law_pages_are_read_one_after_another(
    fetch: FetchModel,
    value: JsonModel,
    items: Seq<JsonModel>,
)
    requires
        match fetch.array_field {
            Some(field) => array_at(value, field) == Some(items),
            None => array_value(value) == Some(items),
        },
    ensures
        page_taken(fetch, value) matches Ok(done) && {
            let (after, finished) = done;
            let reached = fetch.cutoff matches Some(cutoff) && exists|i: int|
                0 <= i < items.len() && is_before(#[trigger] items[i], cutoff.0, cutoff.1);
            &&& after.values == fetch.values + items
            &&& after.path == fetch.path
            &&& items.len() < 100 || reached ==> finished == Some(false)
            &&& items.len() >= 100 && !reached && fetch.page < 20 ==> finished is None
                && after.page == fetch.page + 1
            &&& items.len() >= 100 && !reached && fetch.page >= 20 ==> finished == Some(true)
        },
{
}

/// An element lies before a moment where the text of its field names an earlier one.
pub proof fn law_earlier_elements_end_a_list(
    value: JsonModel,
    field: Seq<char>,
    time: TimestampModel,
    moment: TimestampModel,
)
    requires
        text_at(value, field) matches Some(text) && rfc3339_read(text) == Ok::<
            TimestampModel,
            Seq<char>,
        >(time),
    ensures
        is_before(value, field, moment) <==> time.seconds < moment.seconds || time.seconds
            == moment.seconds && time.nanos < moment.nanos,
{
}

/// The requests for a collection are about the repository and, where the list can be bounded by a
/// moment, about the period.
pub proof fn law_requests_are_about_the_repository(run: RunModel)
    ensures
        stage_fetch(run) is None <==> run.stage == ActivityStage::Finished,
        stage_fetch(run) matches Some(fetch) ==> {
            &&& ("/repos/"@ + run.activity.repository).is_prefix_of(fetch.path)
            &&& fetch.page == 1
            &&& fetch.values.len() == 0
            &&& run.stage == ActivityStage::Commits || run.stage == ActivityStage::Issues
                ==> has_part(fetch.path, "since="@ + run.since.utc_text)
            &&& run.stage == ActivityStage::Workflows ==> has_part(
                fetch.path,
                "created=>="@ + run.since.date,
            ) && fetch.array_field == Some("workflow_runs"@)
            &&& run.stage == ActivityStage::Pulls ==> fetch.cutoff == Some(
                ("updated_at"@, run.since),
            )
            &&& run.stage == ActivityStage::Releases ==> fetch.cutoff == Some(
                ("published_at"@, run.since),
            )
        },
{
    let head = "/repos/"@ + run.activity.repository;
    if let Some(fetch) = stage_fetch(run) {
        assert(head =~= fetch.path.take(head.len() as int));
        reveal_strlit("/commits?since=");
        reveal_strlit("/commits?");
        reveal_strlit("since=");
        reveal_strlit("/issues?state=all&since=");
        reveal_strlit("/issues?state=all&");
        reveal_strlit("/actions/runs?created=>=");
        reveal_strlit("/actions/runs?");
        reveal_strlit("created=>=");
        let tail = "&per_page=100"@;
        match run.stage {
            ActivityStage::Commits => {
                assert("/commits?since="@ =~= "/commits?"@ + "since="@);
                let part = "since="@ + run.since.utc_text;
                lemma_middle_part(head + "/commits?"@, part, tail);
                assert(head + "/commits?"@ + part + tail =~= fetch.path);
            },
            ActivityStage::Issues => {
                assert("/issues?state=all&since="@ =~= "/issues?state=all&"@ + "since="@);
                let part = "since="@ + run.since.utc_text;
                lemma_middle_part(head + "/issues?state=all&"@, part, tail);
                assert(head + "/issues?state=all&"@ + part + tail =~= fetch.path);
            },
            ActivityStage::Workflows => {
                assert("/actions/runs?created=>="@ =~= "/actions/runs?"@ + "created=>="@);
                let part = "created=>="@ + run.since.date;
                lemma_middle_part(head + "/actions/runs?"@, part, tail);
                assert(head + "/actions/runs?"@ + part + tail =~= fetch.path);
            },
            _ => {},
        }
    }
}

/// A list that was read gives the numbers of the activity: each is the number of the elements that
/// count, as far as a number can hold them, and no number of another list changes.
pub proof fn law_lists_give_the_numbers(run: RunModel, items: Seq<JsonModel>, cut: bool)
    requires
        items.len() <= u64::MAX,
    ensures
        ({
            let after = pages_taken(run, Ok((items, cut))).activity;
            let a = run.activity;
            &&& run.stage == ActivityStage::Issues ==> {
                let issues = items.filter(
                    |item: JsonModel| member_of(item, "pull_request"@) is None,
                );
                &&& after.issues_opened == Some(
                    issues.filter(
                        |item: JsonModel| names_moment_since(item, "created_at"@, run.since),
                    ).len() as u64,
                )
                &&& after.issues_closed == Some(
                    issues.filter(
                        |item: JsonModel| names_moment_since(item, "closed_at"@, run.since),
                    ).len() as u64,
                )
            }
            &&& run.stage == ActivityStage::Pulls ==> {
                &&& after.pull_requests_opened == Some(
                    items.filter(
                        |item: JsonModel| names_moment_since(item, "created_at"@, run.since),
                    ).len() as u64,
                )
                &&& after.merge_times == merge_spans(items, run.since)
                &&& after.pull_requests_merged == Some(after.merge_times.len() as u64)
            }
            &&& run.stage == ActivityStage::Workflows ==> {
                &&& after.workflow_runs == Some(items.len() as u64)
                &&& after.workflow_successes == Some(
                    items.filter(
                        |item: JsonModel| text_at(item, "conclusion"@) == Some("success"@),
                    ).len() as u64,
                )
            }
            &&& run.stage == ActivityStage::Releases ==> after.release_times == Some(
                releases_in(items, run.since),
            )
            &&& run.stage == ActivityStage::Commits ==> after.active_contributors == Some(
                authors_in(items).to_set().len() as u64,
            )
            &&& run.stage != ActivityStage::Issues ==> after.issues_opened == a.issues_opened
                && after.issues_closed == a.issues_closed
            &&& run.stage != ActivityStage::Pulls ==> after.pull_requests_opened
                == a.pull_requests_opened && after.pull_requests_merged == a.pull_requests_merged
                && after.merge_times == a.merge_times
            &&& run.stage != ActivityStage::Workflows ==> after.workflow_runs == a.workflow_runs
                && after.workflow_successes == a.workflow_successes
            &&& run.stage != ActivityStage::Releases ==> after.release_times == a.release_times
            &&& run.stage != ActivityStage::Commits ==> after.active_contributors
                == a.active_contributors
            &&& after.commits == a.commits
            &&& after.repository == a.repository
            &&& after.period_days == a.period_days
            &&& after.since == a.since
        }),
{
    law_issues_are_no_pull_requests(items);
    law_counted_since_a_moment(plain_issues(items), "created_at"@, run.since);
    law_counted_since_a_moment(plain_issues(items), "closed_at"@, run.since);
    law_counted_since_a_moment(items, "created_at"@, run.since);
    law_successes_are_successful_runs(items);
}

/// The statistics give the number of commits of the weeks and of the active contributors, where GitHub
/// has them; the collection starts with them.
pub proof fn law_statistics_give_the_numbers(
    repository: Seq<char>,
    period_days: u16,
    since: TimestampModel,
    weeks: Seq<JsonModel>,
    contributors: Seq<JsonModel>,
)
    requires
        commits_in(weeks, since) <= u64::MAX,
        contributors.len() <= u64::MAX,
    ensures
        run_begun(
            repository,
            period_days,
            since,
            Ok(Some(JsonModel::Array(weeks))),
            Ok(Some(JsonModel::Array(contributors))),
        ) matches Ok(run) && {
            &&& run.activity.repository == repository
            &&& run.activity.period_days == period_days
            &&& run.activity.since == since.utc_text
            &&& run.since == since
            &&& run.activity.commits == Some(commits_in(weeks, since) as u64)
            &&& run.activity.active_contributors == Some(
                contributors.filter(|c: JsonModel| is_active(c, since)).len() as u64,
            )
            &&& run.stage == ActivityStage::Issues
        },
        run_begun(repository, period_days, since, Ok(None), Ok(None)) matches Ok(run)
            && run.activity.commits is None && run.stage == ActivityStage::Commits
            && run.activity.incomplete_sources.contains("commits"@),
{
    law_active_contributors_have_commits(contributors, since);
    let run = run_begun(repository, period_days, since, Ok(None), Ok(None))->Ok_0;
    assert(run.activity.incomplete_sources[0] == "commits"@);
}

/// The address of a page names the page behind the address of the list, which stays whole.
pub proof fn law_page_is_named_in_its_address(path: Seq<char>, page: nat)
    ensures
        path.is_prefix_of(page_path(path, page)),
        has_part(path, "?"@) ==> page_path(path, page) == path + "&page="@ + decimal(page),
        !has_part(path, "?"@) ==> page_path(path, page) == path + "?page="@ + decimal(page),
{
    reveal_strlit("&");
    reveal_strlit("?");
    reveal_strlit("page=");
    reveal_strlit("&page=");
    reveal_strlit("?page=");
    assert("&page="@ =~= "&"@ + "page="@);
    assert("?page="@ =~= "?"@ + "page="@);
    assert(page_path(path, page).subrange(0, path.len() as int) =~= path);
    assert(path + ("&"@ + "page="@) + decimal(page) =~= path + "&"@ + "page="@ + decimal(page));
    assert(path + ("?"@ + "page="@) + decimal(page) =~= path + "?"@ + "page="@ + decimal(page));
}

/// A period begins as many days before now as it has, and has from one day to a year.
pub proof fn law_period_has_its_days(
    repository: Seq<char>,
    period_days: u16,
    now: TimestampModel,
)
    ensures
        now.seconds - period_start(now, period_days) == period_days * 86_400,
        period_error(repository, period_days) is None ==> 1 <= period_days <= 365 && is_repository(
            repository,
        ),
        1 <= period_days <= 365 && is_repository(repository) ==> period_error(
            repository,
            period_days,
        ) is None,
{
}

} // verus!
