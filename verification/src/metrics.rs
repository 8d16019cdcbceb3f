//! The metrics of a repository, as exact amounts.

use vstd::prelude::*;
use vstd::relations::{sorted_by, total_ordering};
use vstd::seq_lib::lemma_sorted_unique;

use crate::activity::{view_texts, ActivityModel, GithubProjectActivity};

use crate::text::{agrees, copy_texts, lemma_views_push, same, views};
use crate::time::{
    after, in_years, is_after, law_whole_seconds_are_the_difference, moment_in, read_moment,
    seconds_between, whole_seconds, Timestamp, TimestampModel,
};

verus! {

broadcast use lemma_views_push;

/// Where a metric comes from.
#[derive(Debug, Clone, Copy, PartialEq, Eq, Structural)]
pub enum MetricKind {
    Source,
    Derived,
    Unavailable,
}

/// An exact amount.
#[derive(Debug, PartialEq, Eq)]
pub enum Amount {
    /// A number.
    Count(u64),
    /// A part of a whole, in percent.
    Percent(u64, u64),
    /// The middle of some times: the mean of the two in the middle, which are one where there is
    /// just one in the middle.
    Middle(i64, i64),
    /// The mean of some spans of seconds, in days.
    MeanDays(Vec<u64>),
}

/// An exact amount, mathematically.
pub ghost enum AmountModel {
    Count(u64),
    Percent(u64, u64),
    Middle(i64, i64),
    MeanDays(Seq<u64>),
}

impl View for Amount {
    type V = AmountModel;

    open spec fn view(&self) -> AmountModel {
        match self {
            Amount::Count(n) => AmountModel::Count(*n),
            Amount::Percent(part, whole) => AmountModel::Percent(*part, *whole),
            Amount::Middle(a, b) => AmountModel::Middle(*a, *b),
            Amount::MeanDays(spans) => AmountModel::MeanDays(spans@),
        }
    }
}

/// A metric.
#[derive(Debug, PartialEq, Eq)]
pub struct MetricValue {
    pub value: Option<Amount>,
    pub unit: String,
    pub kind: MetricKind,
}

/// A metric, mathematically.
pub ghost struct MetricModel {
    pub value: Option<AmountModel>,
    pub unit: Seq<char>,
    pub kind: MetricKind,
}

impl View for MetricValue {
    type V = MetricModel;

    open spec fn view(&self) -> MetricModel {
        MetricModel {
            value: match self.value {
                Some(amount) => Some(amount@),
                None => None,
            },
            unit: self.unit@,
            kind: self.kind,
        }
    }
}

/// The metrics of a repository.
#[derive(Debug, PartialEq, Eq)]
pub struct GithubMetrics {
    pub repository: String,
    pub period_days: u16,
    pub commits: MetricValue,
    pub active_contributors: MetricValue,
    pub issue_closure_rate: MetricValue,
    pub pull_request_merge_rate: MetricValue,
    pub median_merge_hours: MetricValue,
    pub ci_success_rate: MetricValue,
    pub release_cadence_days: MetricValue,
    pub warnings: Vec<String>,
}

/// The metrics of a repository, mathematically.
pub ghost struct MetricsModel {
    pub repository: Seq<char>,
    pub period_days: u16,
    pub commits: MetricModel,
    pub active_contributors: MetricModel,
    pub issue_closure_rate: MetricModel,
    pub pull_request_merge_rate: MetricModel,
    pub median_merge_hours: MetricModel,
    pub ci_success_rate: MetricModel,
    pub release_cadence_days: MetricModel,
    pub warnings: Seq<Seq<char>>,
}

impl View for GithubMetrics {
    type V = MetricsModel;

    open spec fn view(&self) -> MetricsModel {
        MetricsModel {
            repository: self.repository@,
            period_days: self.period_days,
            commits: self.commits@,
            active_contributors: self.active_contributors@,
            issue_closure_rate: self.issue_closure_rate@,
            pull_request_merge_rate: self.pull_request_merge_rate@,
            median_merge_hours: self.median_merge_hours@,
            ci_success_rate: self.ci_success_rate@,
            release_cadence_days: self.release_cadence_days@,
            warnings: views(self.warnings@),
        }
    }
}

/// A metric of an amount; without one it is unavailable.
pub open spec fn metric_of(value: Option<AmountModel>, unit: Seq<char>, kind: MetricKind) -> MetricModel {
    MetricModel {
        value,
        unit,
        kind: if value is Some {
            kind
        } else {
            MetricKind::Unavailable
        },
    }
}

/// The warnings, with one more where an amount is not there.
pub open spec fn warned(
    warnings: Seq<Seq<char>>,
    value: Option<AmountModel>,
    label: Seq<char>,
) -> Seq<Seq<char>> {
    if value is Some {
        warnings
    } else {
        warnings.push("метрика "@ + label + " недоступна"@)
    }
}

fn make_metric(
    value: Option<Amount>,
    unit: &str,
    kind: MetricKind,
    label: &str,
    warnings: &mut Vec<String>,
) -> (r: MetricValue)
    ensures
        r@ == metric_of(
            match value {
                Some(amount) => Some(amount@),
                None => None,
            },
            unit@,
            kind,
        ),
        views(final(warnings)@) == warned(
            views(old(warnings)@),
            match value {
                Some(amount) => Some(amount@),
                None => None,
            },
            label@,
        ),
{
    match value {
        Some(amount) => MetricValue { value: Some(amount), unit: unit.to_owned(), kind },
        None => {
            warnings.push("метрика ".to_owned().concat(label).concat(" недоступна"));
            MetricValue { value: None, unit: unit.to_owned(), kind: MetricKind::Unavailable }
        },
    }
}

// Amounts.

/// A number that is known.
pub open spec fn count_amount(value: Option<u64>) -> Option<AmountModel> {
    match value {
        Some(n) => Some(AmountModel::Count(n)),
        None => None,
    }
}

/// A part of a whole, where both are known and the whole is something.
pub open spec fn share_amount(part: Option<u64>, whole: Option<u64>) -> Option<AmountModel> {
    match (part, whole) {
        (Some(part), Some(whole)) => if whole == 0 {
            None
        } else {
            Some(AmountModel::Percent(part, whole))
        },
        _ => None,
    }
}

fn count_of(value: Option<u64>) -> (r: Option<Amount>)
    ensures
        match r {
            Some(amount) => count_amount(value) == Some(amount@),
            None => count_amount(value) is None,
        },
{
    match value {
        Some(n) => Some(Amount::Count(n)),
        None => None,
    }
}

fn share_of(part: Option<u64>, whole: Option<u64>) -> (r: Option<Amount>)
    ensures
        match r {
            Some(amount) => share_amount(part, whole) == Some(amount@),
            None => share_amount(part, whole) is None,
        },
{
    match (part, whole) {
        (Some(part), Some(whole)) => if whole == 0 {
            None
        } else {
            Some(Amount::Percent(part, whole))
        },
        _ => None,
    }
}

/// Numbers from the least to the greatest.
pub open spec fn in_order(values: Seq<i64>) -> Seq<i64> {
    values.sort_by(|a: i64, b: i64| a <= b)
}

/// The middle of some times, where there are any.
pub open spec fn middle_amount(values: Seq<i64>) -> Option<AmountModel> {
    if values.len() == 0 {
        None
    } else {
        let sorted = in_order(values);
        let middle = sorted.len() as int / 2;
        if sorted.len() % 2 == 0 {
            Some(AmountModel::Middle(sorted[middle - 1], sorted[middle]))
        } else {
            Some(AmountModel::Middle(sorted[middle], sorted[middle]))
        }
    }
}

fn sort_times(values: &Vec<i64>) -> (r: Vec<i64>)
    ensures
        r@ == in_order(values@),
        r@.len() == values@.len(),
{
    let mut out: Vec<i64> = Vec::new();
    let mut i: usize = 0;
    proof {
        assert(values@.take(0) =~= Seq::<i64>::empty());
    }
    while i < values.len()
        invariant
            i <= values@.len(),
            out@.len() == i,
            out@.to_multiset() == values@.take(i as int).to_multiset(),
            sorted_by(out@, |a: i64, b: i64| a <= b),
        decreases values.len() - i,
    {
        let value = values[i];
        let ghost earlier = out@;
        let mut at: usize = out.len();
        while at > 0 && out[at - 1] > value
            invariant
                at <= out@.len(),
                out@ == earlier,
                forall|k: int| at <= k < out@.len() ==> #[trigger] out@[k] > value,
            decreases at,
        {
            at -= 1;
        }
        out.insert(at, value);
        proof {
            broadcast use vstd::seq_lib::group_to_multiset_ensures;

            let leq = |a: i64, b: i64| a <= b;
            vstd::seq_lib::to_multiset_insert(earlier, at as int, value);
            assert(values@.take(i + 1) =~= values@.take(i as int).push(value));
            assert forall|x: int, y: int| 0 <= x < y < out@.len() implies #[trigger] leq(
                out@[x],
                out@[y],
            ) by {
                if y < at {
                    assert(leq(earlier[x], earlier[y]));
                } else if y == at {
                    if at > 0 {
                        if x < at - 1 {
                            assert(leq(earlier[x], earlier[at - 1]));
                        }
                    }
                } else if x > at {
                    assert(leq(earlier[x - 1], earlier[y - 1]));
                } else if x == at {
                    assert(earlier[y - 1] > value);
                } else {
                    assert(leq(earlier[x], earlier[y - 1]));
                }
            }
        }
        i += 1;
    }
    proof {
        let leq = |a: i64, b: i64| a <= b;
        assert(values@.take(i as int) =~= values@);
        assert(total_ordering(leq));
        values@.lemma_sort_by_ensures(leq);
        lemma_sorted_unique(out@, values@.sort_by(leq), leq);
    }
    out
}

fn middle_of(values: &Vec<i64>) -> (r: Option<Amount>)
    ensures
        match r {
            Some(amount) => middle_amount(values@) == Some(amount@),
            None => middle_amount(values@) is None,
        },
{
    if values.len() == 0 {
        return None;
    }
    let sorted = sort_times(values);
    let total: usize = sorted.len();
    let middle = total / 2;
    if total % 2 == 0 {
        Some(Amount::Middle(sorted[middle - 1], sorted[middle]))
    } else {
        Some(Amount::Middle(sorted[middle], sorted[middle]))
    }
}

// Releases.

/// The moments in order; a moment stands behind those that do not come after it.
pub open spec fn moment_inserted(moments: Seq<TimestampModel>, moment: TimestampModel) -> Seq<
    TimestampModel,
>
    decreases moments.len(),
{
    if moments.len() > 0 && after(moments.last(), moment) {
        moment_inserted(moments.drop_last(), moment).push(moments.last())
    } else {
        moments.push(moment)
    }
}

/// The moments that texts name, in order; a text that names none is passed over.
pub open spec fn moments_of(texts: Seq<Seq<char>>) -> Seq<TimestampModel>
    decreases texts.len(),
{
    if texts.len() == 0 {
        Seq::empty()
    } else {
        match moment_in(texts.last()) {
            Some(moment) => moment_inserted(moments_of(texts.drop_last()), moment),
            None => moments_of(texts.drop_last()),
        }
    }
}

/// The seconds between two moments, whichever comes first.
pub open spec fn distance(a: TimestampModel, b: TimestampModel) -> u64 {
    let seconds = whole_seconds(a, b);
    if seconds < 0 {
        (-seconds) as u64
    } else {
        seconds as u64
    }
}

/// The seconds between each moment and the next.
pub open spec fn gaps(moments: Seq<TimestampModel>) -> Seq<u64> {
    Seq::new(
        if moments.len() > 0 {
            (moments.len() - 1) as nat
        } else {
            0
        },
        |i: int| distance(moments[i], moments[i + 1]),
    )
}

/// The mean time between releases, where there are at least two.
pub open spec fn cadence_amount(times: Option<Seq<Seq<char>>>) -> Option<AmountModel> {
    match times {
        Some(times) => if times.len() >= 2 {
            Some(AmountModel::MeanDays(gaps(moments_of(times))))
        } else {
            None
        },
        None => None,
    }
}

spec fn all_in_years(moments: Seq<TimestampModel>) -> bool {
    forall|i: int| 0 <= i < moments.len() ==> in_years(#[trigger] moments[i])
}

fn insert_moment(moments: &mut Vec<Timestamp>, moment: Timestamp)
    requires
        all_in_years(views(old(moments)@)),
        in_years(moment@),
    ensures
        all_in_years(views(final(moments)@)),
        views(final(moments)@) == moment_inserted(views(old(moments)@), moment@),
{
    let ghost start = views(moments@);
    let ghost view = moment@;
    let mut at: usize = moments.len();
    proof {
        assert(start.take(at as int) =~= start);
        assert(moment_inserted(start, view) =~= moment_inserted(start.take(at as int), view)
            + start.skip(at as int));
    }
    while at > 0 && is_after(&moments[at - 1], &moment)
        invariant
            at <= moments@.len(),
            start == views(moments@),
            start == views(old(moments)@),
            view == moment@,
            moment_inserted(start, view) == moment_inserted(start.take(at as int), view)
                + start.skip(at as int),
        decreases at,
    {
        proof {
            let head = start.take(at as int);
            assert(head.drop_last() =~= start.take(at - 1));
            assert(head.last() == moments@[at - 1]@);
            assert(moment_inserted(head.drop_last(), view).push(head.last()) + start.skip(
                at as int,
            ) =~= moment_inserted(start.take(at - 1), view) + start.skip(at - 1));
        }
        at -= 1;
    }
    proof {
        let head = start.take(at as int);
        if at > 0 {
            assert(head.last() == moments@[at - 1]@);
        }
        assert(moment_inserted(head, view) == head.push(view));
        assert(head.push(view) + start.skip(at as int) =~= start.insert(at as int, view));
    }
    moments.insert(at, moment);
    proof {
        assert(views(moments@) =~= start.insert(at as int, view));
    }
}

fn read_moments(texts: &Vec<String>) -> (r: Vec<Timestamp>)
    ensures
        all_in_years(views(r@)),
        views(r@) == moments_of(views(texts@)),
{
    let ghost model = views(texts@);
    let mut out: Vec<Timestamp> = Vec::new();
    let mut i: usize = 0;
    proof {
        assert(model.take(0).len() == 0);
        assert(views(out@) =~= Seq::<TimestampModel>::empty());
    }
    while i < texts.len()
        invariant
            i <= texts@.len(),
            model == views(texts@),
            views(out@) == moments_of(model.take(i as int)),
            all_in_years(views(out@)),
        decreases texts.len() - i,
    {
        proof {
            assert(model.take(i + 1).drop_last() =~= model.take(i as int));
            assert(model.take(i + 1).last() == texts@[i as int]@);
        }
        if let Some(moment) = read_moment(texts[i].as_str()) {
            insert_moment(&mut out, moment);
        }
        i += 1;
    }
    proof {
        assert(model.take(i as int) =~= model);
    }
    out
}

fn distance_of(a: &Timestamp, b: &Timestamp) -> (r: u64)
    requires
        in_years(a@),
        in_years(b@),
    ensures
        r == distance(a@, b@),
{
    let seconds = seconds_between(a, b);
    if seconds < 0 {
        (-seconds) as u64
    } else {
        seconds as u64
    }
}

fn gaps_of(moments: &Vec<Timestamp>) -> (r: Vec<u64>)
    requires
        all_in_years(views(moments@)),
    ensures
        r@ == gaps(views(moments@)),
{
    let ghost model = views(moments@);
    let mut out: Vec<u64> = Vec::new();
    let mut i: usize = 1;
    proof {
        assert(out@ =~= Seq::<u64>::empty());
    }
    while i < moments.len()
        invariant
            1 <= i,
            i <= moments@.len() || moments@.len() == 0 && i == 1,
            model == views(moments@),
            all_in_years(model),
            out@.len() == i - 1,
            forall|k: int| 0 <= k < i - 1 ==> #[trigger] out@[k] == distance(
                model[k],
                model[k + 1],
            ),
        decreases moments.len() - i,
    {
        proof {
            assert(in_years(model[i - 1]) && in_years(model[i as int]));
        }
        out.push(distance_of(&moments[i - 1], &moments[i]));
        i += 1;
    }
    proof {
        assert(out@ =~= gaps(model));
    }
    out
}

fn cadence_of(times: &Option<Vec<String>>) -> (r: Option<Amount>)
    ensures
        match r {
            Some(amount) => cadence_amount(view_texts(*times)) == Some(amount@),
            None => cadence_amount(view_texts(*times)) is None,
        },
{
    match times {
        Some(times) => if times.len() >= 2 {
            Some(Amount::MeanDays(gaps_of(&read_moments(times))))
        } else {
            None
        },
        None => None,
    }
}

// All metrics.

/// The warnings of the metrics, in the order in which they are found.
pub open spec fn metric_warnings(activity: ActivityModel) -> Seq<Seq<char>> {
    let issues = warned(
        activity.warnings,
        share_amount(activity.issues_closed, activity.issues_opened),
        "issue closure rate"@,
    );
    let pulls = warned(
        issues,
        share_amount(activity.pull_requests_merged, activity.pull_requests_opened),
        "pull request merge rate"@,
    );
    let merges = warned(pulls, middle_amount(activity.merge_times), "median merge time"@);
    let runs = warned(
        merges,
        share_amount(activity.workflow_successes, activity.workflow_runs),
        "CI success rate"@,
    );
    let releases = warned(runs, cadence_amount(activity.release_times), "release cadence"@);
    let commits = warned(releases, count_amount(activity.commits), "commit count"@);
    warned(commits, count_amount(activity.active_contributors), "active contributors"@)
}

/// The metrics of a repository.
pub open spec fn metrics_of(repository: Seq<char>, activity: ActivityModel) -> Result<
    MetricsModel,
    Seq<char>,
> {
    if repository != activity.repository {
        Err("metadata и activity относятся к разным GitHub-репозиториям"@)
    } else {
        Ok(
            MetricsModel {
                repository,
                period_days: activity.period_days,
                commits: metric_of(count_amount(activity.commits), "commits"@, MetricKind::Source),
                active_contributors: metric_of(
                    count_amount(activity.active_contributors),
                    "contributors"@,
                    MetricKind::Source,
                ),
                issue_closure_rate: metric_of(
                    share_amount(activity.issues_closed, activity.issues_opened),
                    "percent"@,
                    MetricKind::Derived,
                ),
                pull_request_merge_rate: metric_of(
                    share_amount(activity.pull_requests_merged, activity.pull_requests_opened),
                    "percent"@,
                    MetricKind::Derived,
                ),
                median_merge_hours: metric_of(
                    middle_amount(activity.merge_times),
                    "hours"@,
                    MetricKind::Derived,
                ),
                ci_success_rate: metric_of(
                    share_amount(activity.workflow_successes, activity.workflow_runs),
                    "percent"@,
                    MetricKind::Derived,
                ),
                release_cadence_days: metric_of(
                    cadence_amount(activity.release_times),
                    "days"@,
                    MetricKind::Derived,
                ),
                warnings: metric_warnings(activity),
            },
        )
    }
}

/// Calculates the metrics of a repository.
pub fn calculate_github_metrics(repository: &str, activity: &GithubProjectActivity) -> (r: Result<
    GithubMetrics,
    String,
>)
    ensures
        agrees(r, metrics_of(repository@, activity@)),
{
    if !same(repository, activity.repository.as_str()) {
        return Err("metadata и activity относятся к разным GitHub-репозиториям".to_owned());
    }
    let mut warnings = copy_texts(activity.warnings.as_slice());
    let issue_closure_rate = make_metric(
        share_of(activity.issues_closed, activity.issues_opened),
        "percent",
        MetricKind::Derived,
        "issue closure rate",
        &mut warnings,
    );
    let pull_request_merge_rate = make_metric(
        share_of(activity.pull_requests_merged, activity.pull_requests_opened),
        "percent",
        MetricKind::Derived,
        "pull request merge rate",
        &mut warnings,
    );
    let median_merge_hours = make_metric(
        middle_of(&activity.merge_times),
        "hours",
        MetricKind::Derived,
        "median merge time",
        &mut warnings,
    );
    let ci_success_rate = make_metric(
        share_of(activity.workflow_successes, activity.workflow_runs),
        "percent",
        MetricKind::Derived,
        "CI success rate",
        &mut warnings,
    );
    let release_cadence_days = make_metric(
        cadence_of(&activity.release_times),
        "days",
        MetricKind::Derived,
        "release cadence",
        &mut warnings,
    );
    let commits = make_metric(
        count_of(activity.commits),
        "commits",
        MetricKind::Source,
        "commit count",
        &mut warnings,
    );
    let active_contributors = make_metric(
        count_of(activity.active_contributors),
        "contributors",
        MetricKind::Source,
        "active contributors",
        &mut warnings,
    );
    Ok(
        GithubMetrics {
            repository: repository.to_owned(),
            period_days: activity.period_days,
            commits,
            active_contributors,
            issue_closure_rate,
            pull_request_merge_rate,
            median_merge_hours,
            ci_success_rate,
            release_cadence_days,
            warnings,
        },
    )
}

/// A metric that cannot be found is unavailable, and never zero; and each one that is unavailable adds
/// a warning, while those of the activity are kept.
pub proof fn law_missing_metrics_are_unavailable(repository: Seq<char>, activity: ActivityModel)
    requires
        metrics_of(repository, activity) is Ok,
    ensures
        ({
            let metrics = metrics_of(repository, activity)->Ok_0;
            &&& metrics.commits.value is None <==> metrics.commits.kind == MetricKind::Unavailable
            &&& metrics.ci_success_rate.value is None <==> metrics.ci_success_rate.kind
                == MetricKind::Unavailable
            &&& activity.workflow_runs is None || activity.workflow_runs == Some(0u64)
                ==> metrics.ci_success_rate.value is None
            &&& activity.issues_opened == Some(0u64) ==> metrics.issue_closure_rate.value is None
            &&& activity.commits is None ==> metrics.commits.value is None
            &&& activity.commits == Some(0u64) ==> metrics.commits.value == Some(
                AmountModel::Count(0),
            )
            &&& activity.warnings.is_prefix_of(metrics.warnings)
        }),
{
    let a = activity.warnings;
    let all = metric_warnings(activity);
    assert(all.subrange(0, a.len() as int) =~= a);
}

/// Standing in a row from the shortest to the longest, the times of the median are those in the
/// middle: the one there, or the two where their number is even.
pub proof fn law_median_stands_in_the_middle(values: Seq<i64>, row: Seq<i64>)
    requires
        values.len() > 0,
        row.to_multiset() == values.to_multiset(),
        forall|i: int, j: int| 0 <= i < j < row.len() ==> row[i] <= row[j],
    ensures
        row.len() == values.len(),
        middle_amount(values) == Some(
            AmountModel::Middle(row[(row.len() - 1) / 2], row[row.len() as int / 2]),
        ),
{
    broadcast use vstd::seq_lib::group_to_multiset_ensures;

    let leq = |a: i64, b: i64| a <= b;
    values.lemma_sort_by_ensures(leq);
    lemma_sorted_unique(row, values.sort_by(leq), leq);
    assert(row.len() == row.to_multiset().len());
    assert(values.len() == values.to_multiset().len());
}

/// Every metric is made from the numbers of its name: counts are told as they are, and a rate is a
/// part of its whole.
pub proof fn law_metrics_are_made_from_their_numbers(
    repository: Seq<char>,
    activity: ActivityModel,
    part: u64,
    whole: u64,
)
    requires
        repository == activity.repository,
        whole > 0,
    ensures
        metrics_of(repository, activity) is Ok,
        ({
            let metrics = metrics_of(repository, activity)->Ok_0;
            &&& metrics.repository == activity.repository
            &&& metrics.period_days == activity.period_days
            &&& activity.commits == Some(part) ==> metrics.commits.value == Some(
                AmountModel::Count(part),
            )
            &&& activity.active_contributors == Some(part) ==> metrics.active_contributors.value
                == Some(AmountModel::Count(part))
            &&& activity.issues_closed == Some(part) && activity.issues_opened == Some(whole)
                ==> metrics.issue_closure_rate.value == Some(AmountModel::Percent(part, whole))
            &&& activity.pull_requests_merged == Some(part) && activity.pull_requests_opened
                == Some(whole) ==> metrics.pull_request_merge_rate.value == Some(
                AmountModel::Percent(part, whole),
            )
            &&& activity.workflow_successes == Some(part) && activity.workflow_runs == Some(whole)
                ==> metrics.ci_success_rate.value == Some(AmountModel::Percent(part, whole))
            &&& activity.merge_times.len() > 0 ==> metrics.median_merge_hours.value
                == middle_amount(activity.merge_times)
            &&& metrics.median_merge_hours.unit == "hours"@
            &&& metrics.ci_success_rate.unit == "percent"@
            &&& metrics.release_cadence_days.unit == "days"@
        }),
{
}

/// What cannot be told is warned of by its name.
pub proof fn law_missing_metrics_are_warned_of(repository: Seq<char>, activity: ActivityModel)
    requires
        repository == activity.repository,
    ensures
        ({
            let metrics = metrics_of(repository, activity)->Ok_0;
            let warnings = metrics.warnings;
            &&& metrics.issue_closure_rate.value is None ==> warnings.contains(
                "метрика "@ + "issue closure rate"@ + " недоступна"@,
            )
            &&& metrics.pull_request_merge_rate.value is None ==> warnings.contains(
                "метрика "@ + "pull request merge rate"@ + " недоступна"@,
            )
            &&& metrics.median_merge_hours.value is None ==> warnings.contains(
                "метрика "@ + "median merge time"@ + " недоступна"@,
            )
            &&& metrics.ci_success_rate.value is None ==> warnings.contains(
                "метрика "@ + "CI success rate"@ + " недоступна"@,
            )
            &&& metrics.release_cadence_days.value is None ==> warnings.contains(
                "метрика "@ + "release cadence"@ + " недоступна"@,
            )
            &&& metrics.commits.value is None ==> warnings.contains(
                "метрика "@ + "commit count"@ + " недоступна"@,
            )
            &&& metrics.active_contributors.value is None ==> warnings.contains(
                "метрика "@ + "active contributors"@ + " недоступна"@,
            )
        }),
{
    let w1 = lemma_warned(
        activity.warnings,
        share_amount(activity.issues_closed, activity.issues_opened),
        "issue closure rate"@,
    );
    let w2 = lemma_warned(
        w1,
        share_amount(activity.pull_requests_merged, activity.pull_requests_opened),
        "pull request merge rate"@,
    );
    let w3 = lemma_warned(w2, middle_amount(activity.merge_times), "median merge time"@);
    let w4 = lemma_warned(
        w3,
        share_amount(activity.workflow_successes, activity.workflow_runs),
        "CI success rate"@,
    );
    let w5 = lemma_warned(w4, cadence_amount(activity.release_times), "release cadence"@);
    let w6 = lemma_warned(w5, count_amount(activity.commits), "commit count"@);
    let w7 = lemma_warned(w6, count_amount(activity.active_contributors), "active contributors"@);
    assert(w7 == metric_warnings(activity));
}

/// A warning is added for what is missing, and none is taken away.
proof fn lemma_warned(
    warnings: Seq<Seq<char>>,
    value: Option<AmountModel>,
    label: Seq<char>,
) -> (more: Seq<Seq<char>>)
    ensures
        more == warned(warnings, value, label),
        value is None ==> more.contains("метрика "@ + label + " недоступна"@),
        forall|text: Seq<char>| #[trigger] warnings.contains(text) ==> more.contains(text),
{
    let more = warned(warnings, value, label);
    if value is None {
        assert(more.last() == "метрика "@ + label + " недоступна"@);
        assert(more[more.len() - 1] == more.last());
    }
    assert forall|text: Seq<char>| #[trigger] warnings.contains(text) implies more.contains(
        text,
    ) by {
        let at = choose|at: int| 0 <= at < warnings.len() && warnings[at] == text;
        assert(more[at] == text);
    }
    more
}

/// The moments of the releases are those of their readable times, from the first to the last.
pub proof fn law_releases_are_put_in_order(texts: Seq<Seq<char>>)
    ensures
        forall|i: int, j: int|
            0 <= i < j < moments_of(texts).len() ==> !after(
                #[trigger] moments_of(texts)[i],
                #[trigger] moments_of(texts)[j],
            ),
        moments_of(texts).to_multiset() == texts.filter_map(
            |text: Seq<char>| moment_in(text),
        ).to_multiset(),
    decreases texts.len(),
{
    reveal(Seq::filter_map);
    broadcast use vstd::seq_lib::group_to_multiset_ensures;

    if texts.len() > 0 {
        let head = texts.drop_last();
        law_releases_are_put_in_order(head);
        let reads = |text: Seq<char>| moment_in(text);
        if let Some(moment) = moment_in(texts.last()) {
            lemma_moment_inserted(moments_of(head), moment);
            assert(texts.filter_map(reads) =~= head.filter_map(reads).push(moment));
        } else {
            assert(texts.filter_map(reads) =~= head.filter_map(reads));
        }
    }
}

/// A moment is put in its place.
proof fn lemma_moment_inserted(moments: Seq<TimestampModel>, moment: TimestampModel)
    requires
        forall|i: int, j: int|
            0 <= i < j < moments.len() ==> !after(#[trigger] moments[i], #[trigger] moments[j]),
    ensures
        moment_inserted(moments, moment).to_multiset() == moments.to_multiset().insert(moment),
        forall|i: int, j: int|
            0 <= i < j < moment_inserted(moments, moment).len() ==> !after(
                #[trigger] moment_inserted(moments, moment)[i],
                #[trigger] moment_inserted(moments, moment)[j],
            ),
        forall|i: int|
            0 <= i < moment_inserted(moments, moment).len() ==> {
                ||| !after(#[trigger] moment_inserted(moments, moment)[i], moment)
                ||| moments.len() > 0 && !after(
                    moment_inserted(moments, moment)[i],
                    moments.last(),
                )
            },
    decreases moments.len(),
{
    broadcast use vstd::seq_lib::group_to_multiset_ensures;

    if moments.len() > 0 && after(moments.last(), moment) {
        lemma_moment_inserted(moments.drop_last(), moment);
        assert(moments =~= moments.drop_last().push(moments.last()));
        assert(moment_inserted(moments, moment).to_multiset() =~= moments.to_multiset().insert(
            moment,
        ));
    }
}

/// Between releases at full seconds lie the seconds from each to the next.
pub proof fn law_cadence_is_made_of_the_gaps(times: Seq<Seq<char>>, i: int)
    requires
        times.len() >= 2,
        0 <= i < moments_of(times).len() - 1,
        moments_of(times)[i].nanos == 0,
        moments_of(times)[i + 1].nanos == 0,
        in_years(moments_of(times)[i]),
        in_years(moments_of(times)[i + 1]),
    ensures
        cadence_amount(Some(times)) matches Some(AmountModel::MeanDays(spans)) && spans.len()
            == moments_of(times).len() - 1 && spans[i] == moments_of(times)[i + 1].seconds
            - moments_of(times)[i].seconds,
{
    let a = moments_of(times)[i];
    let b = moments_of(times)[i + 1];
    law_releases_are_put_in_order(times);
    law_whole_seconds_are_the_difference(a, b);
    assert(!after(a, b));
}

} // verus!
