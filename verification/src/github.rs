//! What GitHub tells of a repository: its metadata, and its activity in a period.

use vstd::prelude::*;

use crate::json::{
    array_at, i64_value, lemma_object_view, member_of, text_at, text_value, u64_at, u64_value, Json,
    JsonModel, MemberModel,
};
use crate::numbers::{decimal, decimal_text};
use crate::order::{
    ascending, before, lemma_before_total, same_texts, sorted_texts, text_before,
};
use crate::providers::{ascii_lowercase, to_ascii_lowercase};
use crate::text::{
    agrees, chars_of, is_blank, lemma_index_of_char, lemma_index_unique, lemma_views_push, same,
    split_chars, split_on, trim, trim_end_char, trimmed, trimmed_end_char, view_option, views,
};
use crate::time::{
    after, is_after, moment_at, moment_in, read_moment, rfc3339_read, seconds_between, timestamp_at,
    whole_seconds, Timestamp, TimestampModel,
};

verus! {

broadcast use lemma_views_push;

/// The address of GitHub.
pub const GITHUB_API_URL: &'static str = "https://api.github.com";

/// How many requests a collection may make without a token.
pub const MAX_REQUESTS_UNAUTHENTICATED: usize = 48;

/// How many requests a collection may make with a token.
pub const MAX_REQUESTS_AUTHENTICATED: usize = 120;

/// How many pages of a list are read.
pub const MAX_PAGES: usize = 20;

/// How many elements a page has.
pub const PAGE_SIZE: usize = 100;

// Names of repositories.

/// A character that a name may hold.
pub open spec fn is_repository_char(c: char) -> bool {
    'a' <= c <= 'z' || 'A' <= c <= 'Z' || '0' <= c <= '9' || c == '-' || c == '_' || c == '.'
}

/// Whether a name may hold a character.
pub fn valid_repository_char(character: char) -> (r: bool)
    ensures
        r == is_repository_char(character),
{
    ('a' <= character && character <= 'z') || ('A' <= character && character <= 'Z') || ('0'
        <= character && character <= '9') || character == '-' || character == '_' || character == '.'
}

/// The name of an owner or of a project.
pub open spec fn is_safe_name(name: Seq<char>) -> bool {
    name.len() > 0 && forall|i: int| 0 <= i < name.len() ==> is_repository_char(#[trigger] name[i])
}

/// The name of a repository: an owner and a project.
pub open spec fn is_repository(repository: Seq<char>) -> bool {
    let parts = split_on(repository, '/');
    parts.len() == 2 && is_safe_name(parts[0]) && is_safe_name(parts[1])
}

fn check_name(name: &str) -> (r: bool)
    ensures
        r == is_safe_name(name@),
{
    let chars = chars_of(name);
    if chars.len() == 0 {
        return false;
    }
    let mut i: usize = 0;
    while i < chars.len()
        invariant
            i <= chars@.len(),
            chars@ == name@,
            forall|k: int| 0 <= k < i ==> is_repository_char(#[trigger] name@[k]),
        decreases chars.len() - i,
    {
        if !valid_repository_char(chars[i]) {
            proof {
                assert(!is_repository_char(name@[i as int]));
            }
            return false;
        }
        i += 1;
    }
    true
}

/// Checks the name of a repository.
pub fn validate_repository(repository: &str) -> (r: Result<(), String>)
    ensures
        r is Ok <==> is_repository(repository@),
        r is Err ==> r->Err_0@ == "репозиторий должен иметь безопасный формат owner/name"@,
{
    let parts = split_chars(repository, '/');
    let mut valid = false;
    if parts.len() == 2 {
        proof {
            assert(views(parts@)[0] == parts@[0]@);
            assert(views(parts@)[1] == parts@[1]@);
        }
        valid = check_name(parts[0].as_str()) && check_name(parts[1].as_str());
    }
    if valid {
        Ok(())
    } else {
        Err("репозиторий должен иметь безопасный формат owner/name".to_owned())
    }
}

// Requests and answers.

/// The token that is sent, if one is set.
pub fn usable_token(value: Option<String>) -> (r: Option<String>)
    ensures
        view_option(r) == match value {
            Some(text) => if trim(text@).len() > 0 {
                Some(trim(text@))
            } else {
                None
            },
            None => None,
        },
{
    match value {
        Some(text) => if is_blank(text.as_str()) {
            None
        } else {
            Some(trimmed(text.as_str()))
        },
        None => None,
    }
}

/// How many requests a collection may make.
pub fn request_limit(authenticated: bool) -> (r: usize)
    ensures
        r == if authenticated {
            MAX_REQUESTS_AUTHENTICATED
        } else {
            MAX_REQUESTS_UNAUTHENTICATED
        },
{
    if authenticated {
        MAX_REQUESTS_AUTHENTICATED
    } else {
        MAX_REQUESTS_UNAUTHENTICATED
    }
}

/// The full address of a path.
pub fn request_address(base: &str, path: &str) -> (r: String)
    ensures
        r@ == trim_end_char(base@, '/') + path@,
{
    trimmed_end_char(base, '/').concat(path)
}

/// How many requests were made, and how many may be made.
#[derive(Debug, PartialEq, Eq)]
pub struct RequestBudget {
    pub used: usize,
    pub limit: usize,
}

impl RequestBudget {
    /// No more requests were made than may be made.
    pub open spec fn wf(&self) -> bool {
        self.used <= self.limit
    }

    /// A budget of which nothing was used.
    pub fn new(limit: usize) -> (r: RequestBudget)
        ensures
            r.wf(),
            r.used == 0,
            r.limit == limit,
    {
        RequestBudget { used: 0, limit }
    }

    /// Takes one request from the budget, or refuses.
    pub fn take(&mut self) -> (r: Result<(), String>)
        requires
            old(self).wf(),
        ensures
            final(self).wf(),
            final(self).limit == old(self).limit,
            r is Ok <==> old(self).used < old(self).limit,
            r is Ok ==> final(self).used == old(self).used + 1,
            r is Err ==> final(self).used == old(self).used,
            r is Err ==> r->Err_0@ == "превышен внутренний лимит запросов к GitHub"@,
    {
        if self.used < self.limit {
            self.used += 1;
            Ok(())
        } else {
            Err("превышен внутренний лимит запросов к GitHub".to_owned())
        }
    }
}

/// What an answer gives: a value, nothing yet, or a message that tells nothing of its body.
pub open spec fn answer_value(status: u16, body: Option<JsonModel>) -> Result<
    Option<JsonModel>,
    Seq<char>,
> {
    if status == 202 {
        Ok(None)
    } else if status == 404 {
        Err("публичный GitHub-репозиторий не найден"@)
    } else if status == 403 || status == 429 {
        Err("GitHub API отклонил запрос или исчерпан rate limit"@)
    } else if !(200 <= status <= 299) {
        Err("GitHub API вернул ошибку HTTP "@ + decimal(status as nat))
    } else {
        match body {
            Some(value) => Ok(Some(value)),
            None => Err("GitHub вернул некорректный JSON"@),
        }
    }
}

/// An optional value agrees with a mathematical one, or a message with a message.
pub open spec fn agrees_optional<T: View>(
    r: Result<Option<T>, String>,
    s: Result<Option<T::V>, Seq<char>>,
) -> bool {
    match (r, s) {
        (Ok(value), Ok(model)) => view_option(value) == model,
        (Err(message), Err(model)) => message@ == model,
        _ => false,
    }
}

/// Reads an answer; `body` is its value, where it is JSON.
pub fn read_answer(status: u16, body: Option<Json>) -> (r: Result<Option<Json>, String>)
    ensures
        agrees_optional(r, answer_value(status, view_option(body))),
{
    if status == 202 {
        Ok(None)
    } else if status == 404 {
        Err("публичный GitHub-репозиторий не найден".to_owned())
    } else if status == 403 || status == 429 {
        Err("GitHub API отклонил запрос или исчерпан rate limit".to_owned())
    } else if !(200 <= status && status <= 299) {
        Err(
            "GitHub API вернул ошибку HTTP ".to_owned().concat(
                decimal_text(status as u64).as_str(),
            ),
        )
    } else {
        match body {
            Some(value) => Ok(Some(value)),
            None => Err("GitHub вернул некорректный JSON".to_owned()),
        }
    }
}

/// The value of an answer that must not be pending.
pub fn require_value(answer: Option<Json>) -> (r: Result<Json, String>)
    ensures
        agrees(
            r,
            match view_option(answer) {
                Some(value) => Ok(value),
                None => Err("GitHub ещё формирует данные; повторите запрос позже"@),
            },
        ),
{
    match answer {
        Some(value) => Ok(value),
        None => Err("GitHub ещё формирует данные; повторите запрос позже".to_owned()),
    }
}

/// What follows an attempt to read statistics.
#[derive(Debug, PartialEq, Eq)]
pub enum StatsStep {
    Ready(Json),
    Wait(u64),
    GiveUp,
}

/// What follows an attempt to read statistics, mathematically.
pub ghost enum StatsModel {
    Ready(JsonModel),
    Wait(u64),
    GiveUp,
}

impl View for StatsStep {
    type V = StatsModel;

    open spec fn view(&self) -> StatsModel {
        match self {
            StatsStep::Ready(value) => StatsModel::Ready(value@),
            StatsStep::Wait(seconds) => StatsModel::Wait(*seconds),
            StatsStep::GiveUp => StatsModel::GiveUp,
        }
    }
}

/// How long the pauses between attempts to read statistics are, in seconds.
pub open spec fn stats_pauses() -> Seq<u64> {
    seq![1, 2, 4]
}

/// What follows an attempt to read statistics, counted from nothing: a pause and another attempt, or
/// after the last one nothing.
pub fn after_stats_attempt(attempt: usize, answer: Option<Json>) -> (r: StatsStep)
    ensures
        r@ == match view_option(answer) {
            Some(value) => StatsModel::Ready(value),
            None => if attempt < stats_pauses().len() {
                StatsModel::Wait(stats_pauses()[attempt as int])
            } else {
                StatsModel::GiveUp
            },
        },
{
    match answer {
        Some(value) => StatsStep::Ready(value),
        None => if attempt == 0 {
            StatsStep::Wait(1)
        } else if attempt == 1 {
            StatsStep::Wait(2)
        } else if attempt == 2 {
            StatsStep::Wait(4)
        } else {
            StatsStep::GiveUp
        },
    }
}

// Metadata.

/// How many bytes a project has in a language.
#[derive(Debug, PartialEq, Eq)]
pub struct LanguageBytes {
    pub name: String,
    pub bytes: u64,
}

/// How many bytes a project has in a language, mathematically.
pub ghost struct LanguageModel {
    pub name: Seq<char>,
    pub bytes: nat,
}

impl View for LanguageBytes {
    type V = LanguageModel;

    open spec fn view(&self) -> LanguageModel {
        LanguageModel { name: self.name@, bytes: self.bytes as nat }
    }
}

/// The position of a language among others: how many have a name before it.
pub open spec fn language_place(languages: Seq<LanguageModel>, name: Seq<char>) -> nat
    decreases languages.len(),
{
    if languages.len() == 0 || !before(languages[0].name, name) {
        0
    } else {
        1 + language_place(languages.skip(1), name)
    }
}

/// The languages with one more, in the order of their names; a name that is there already gets the
/// new number.
pub open spec fn language_set(languages: Seq<LanguageModel>, language: LanguageModel) -> Seq<
    LanguageModel,
> {
    let at = language_place(languages, language.name) as int;
    if at < languages.len() && languages[at].name == language.name {
        languages.update(at, language)
    } else {
        languages.insert(at, language)
    }
}

/// The languages that the members of a value name, in the order of their names.
pub open spec fn languages_of(members: Seq<MemberModel>) -> Option<Seq<LanguageModel>>
    decreases members.len(),
{
    if members.len() == 0 {
        Some(Seq::empty())
    } else {
        match (languages_of(members.drop_last()), u64_value(members.last().value)) {
            (Some(earlier), Some(bytes)) => Some(
                language_set(earlier, LanguageModel { name: members.last().key, bytes }),
            ),
            _ => None,
        }
    }
}

/// The languages that a value names.
pub open spec fn languages_in(value: JsonModel) -> Result<Seq<LanguageModel>, Seq<char>> {
    match value {
        JsonModel::Object(members) => match languages_of(members) {
            Some(languages) => Ok(languages),
            None => Err("GitHub вернул некорректное распределение языков"@),
        },
        _ => Err("GitHub вернул некорректное распределение языков"@),
    }
}

proof fn lemma_languages_none(members: Seq<MemberModel>, n: int)
    requires
        0 <= n <= members.len(),
        languages_of(members.take(n)) is None,
    ensures
        languages_of(members) is None,
    decreases members.len(),
{
    if n == members.len() {
        assert(members.take(n) =~= members);
    } else {
        assert(members.drop_last().take(n) =~= members.take(n));
        lemma_languages_none(members.drop_last(), n);
    }
}

proof fn lemma_language_place(languages: Seq<LanguageModel>, name: Seq<char>)
    ensures
        language_place(languages, name) <= languages.len(),
    decreases languages.len(),
{
    if languages.len() > 0 && before(languages[0].name, name) {
        lemma_language_place(languages.skip(1), name);
    }
}

fn put_language(languages: &mut Vec<LanguageBytes>, language: LanguageBytes)
    ensures
        views(final(languages)@) == language_set(views(old(languages)@), language@),
{
    let ghost model = views(languages@);
    let ghost view = language@;
    let total: usize = languages.len();
    let mut i: usize = 0;
    proof {
        assert(model.skip(0) =~= model);
        lemma_language_place(model, view.name);
    }
    while i < total && text_before(languages[i].name.as_str(), language.name.as_str())
        invariant
            i <= total,
            total == languages@.len(),
            model == views(languages@),
            view == language@,
            language_place(model, view.name) == i + language_place(
                model.skip(i as int),
                view.name,
            ),
        decreases total - i,
    {
        proof {
            assert(model.skip(i as int).skip(1) =~= model.skip(i + 1));
            assert(model.skip(i as int)[0] == languages@[i as int]@);
        }
        i += 1;
    }
    proof {
        if i < total {
            assert(model.skip(i as int)[0] == languages@[i as int]@);
        }
        assert(language_place(model, view.name) == i);
    }
    if i < total && same(languages[i].name.as_str(), language.name.as_str()) {
        languages.set(i, language);
        proof {
            assert(views(languages@) =~= model.update(i as int, view));
        }
    } else {
        languages.insert(i, language);
        proof {
            assert(views(languages@) =~= model.insert(i as int, view));
        }
    }
}

/// A list agrees with a mathematical one, or a message with a message.
pub open spec fn agrees_languages(
    r: Result<Vec<LanguageBytes>, String>,
    s: Result<Seq<LanguageModel>, Seq<char>>,
) -> bool {
    match (r, s) {
        (Ok(languages), Ok(model)) => views(languages@) == model,
        (Err(message), Err(model)) => message@ == model,
        _ => false,
    }
}

/// Reads the languages that a value names.
pub fn read_languages(value: &Json) -> (r: Result<Vec<LanguageBytes>, String>)
    ensures
        agrees_languages(r, languages_in(value@)),
{
    match value {
        Json::Object(members) => {
            proof {
                lemma_object_view(*members);
            }
            let ghost model = views(members@);
            let mut out: Vec<LanguageBytes> = Vec::new();
            let mut i: usize = 0;
            proof {
                assert(model.take(0).len() == 0);
                assert(views(out@) =~= Seq::<LanguageModel>::empty());
            }
            while i < members.len()
                invariant
                    i <= members@.len(),
                    model == views(members@),
                    value@ == JsonModel::Object(model),
                    languages_of(model.take(i as int)) == Some(views(out@)),
                decreases members.len() - i,
            {
                proof {
                    assert(model.take(i + 1).drop_last() =~= model.take(i as int));
                    assert(model.take(i + 1).last() == members@[i as int]@);
                }
                match members[i].value.as_u64() {
                    Some(bytes) => {
                        let name = members[i].key.clone();
                        put_language(&mut out, LanguageBytes { name, bytes });
                    },
                    None => {
                        proof {
                            lemma_languages_none(model, i + 1);
                        }
                        return Err("GitHub вернул некорректное распределение языков".to_owned());
                    },
                }
                i += 1;
            }
            proof {
                assert(model.take(i as int) =~= model);
            }
            Ok(out)
        },
        _ => Err("GitHub вернул некорректное распределение языков".to_owned()),
    }
}

/// What GitHub tells of a repository.
#[derive(Debug, PartialEq, Eq)]
pub struct GithubRepositoryMetadata {
    pub repository: String,
    pub description: Option<String>,
    pub stars: u64,
    pub forks: u64,
    pub subscribers: u64,
    pub open_issues_and_pulls: u64,
    pub default_branch: String,
    pub created_at: String,
    pub pushed_at: Option<String>,
    pub languages: Vec<LanguageBytes>,
}

/// What GitHub tells of a repository, mathematically.
pub ghost struct MetadataModel {
    pub repository: Seq<char>,
    pub description: Option<Seq<char>>,
    pub stars: nat,
    pub forks: nat,
    pub subscribers: nat,
    pub open_issues_and_pulls: nat,
    pub default_branch: Seq<char>,
    pub created_at: Seq<char>,
    pub pushed_at: Option<Seq<char>>,
    pub languages: Seq<LanguageModel>,
}

impl View for GithubRepositoryMetadata {
    type V = MetadataModel;

    open spec fn view(&self) -> MetadataModel {
        MetadataModel {
            repository: self.repository@,
            description: view_option(self.description),
            stars: self.stars as nat,
            forks: self.forks as nat,
            subscribers: self.subscribers as nat,
            open_issues_and_pulls: self.open_issues_and_pulls as nat,
            default_branch: self.default_branch@,
            created_at: self.created_at@,
            pushed_at: view_option(self.pushed_at),
            languages: views(self.languages@),
        }
    }
}

/// The message where an answer lacks a field.
pub open spec fn missing_field(name: Seq<char>) -> Seq<char> {
    "GitHub не вернул поле "@ + name
}

/// A number that an answer must have.
pub fn required_u64(value: &Json, field: &str) -> (r: Result<u64, String>)
    ensures
        match (r, u64_at(value@, field@)) {
            (Ok(n), Some(model)) => n == model,
            (Err(message), None) => message@ == missing_field(field@),
            _ => false,
        },
{
    match value.get_u64(field) {
        Some(n) => Ok(n),
        None => Err("GitHub не вернул поле ".to_owned().concat(field)),
    }
}

/// A text that an answer must have.
pub fn required_str(value: &Json, field: &str) -> (r: Result<String, String>)
    ensures
        match (r, text_at(value@, field@)) {
            (Ok(s), Some(model)) => s@ == model,
            (Err(message), None) => message@ == missing_field(field@),
            _ => false,
        },
{
    match value.get_text(field) {
        Some(s) => Ok(s.clone()),
        None => Err("GitHub не вернул поле ".to_owned().concat(field)),
    }
}

/// The first field that an answer on a repository lacks.
pub open spec fn first_missing(repo: JsonModel) -> Option<Seq<char>> {
    if u64_at(repo, "stargazers_count"@) is None {
        Some("stargazers_count"@)
    } else if u64_at(repo, "forks_count"@) is None {
        Some("forks_count"@)
    } else if u64_at(repo, "subscribers_count"@) is None {
        Some("subscribers_count"@)
    } else if u64_at(repo, "open_issues_count"@) is None {
        Some("open_issues_count"@)
    } else if text_at(repo, "default_branch"@) is None {
        Some("default_branch"@)
    } else if text_at(repo, "created_at"@) is None {
        Some("created_at"@)
    } else {
        None
    }
}

/// What two answers tell of a repository.
pub open spec fn metadata_in(
    repository: Seq<char>,
    repo: JsonModel,
    languages: JsonModel,
) -> Result<MetadataModel, Seq<char>> {
    match first_missing(repo) {
        Some(name) => Err(missing_field(name)),
        None => match languages_in(languages) {
            Err(message) => Err(message),
            Ok(languages) => Ok(
                MetadataModel {
                    repository,
                    description: text_at(repo, "description"@),
                    stars: u64_at(repo, "stargazers_count"@)->Some_0,
                    forks: u64_at(repo, "forks_count"@)->Some_0,
                    subscribers: u64_at(repo, "subscribers_count"@)->Some_0,
                    open_issues_and_pulls: u64_at(repo, "open_issues_count"@)->Some_0,
                    default_branch: text_at(repo, "default_branch"@)->Some_0,
                    created_at: text_at(repo, "created_at"@)->Some_0,
                    pushed_at: text_at(repo, "pushed_at"@),
                    languages,
                },
            ),
        },
    }
}

fn optional_text(value: &Json, field: &str) -> (r: Option<String>)
    ensures
        view_option(r) == text_at(value@, field@),
{
    match value.get_text(field) {
        Some(s) => Some(s.clone()),
        None => None,
    }
}

/// Reads what two answers tell of a repository.
pub fn repository_metadata(repository: &str, repo: &Json, languages: &Json) -> (r: Result<
    GithubRepositoryMetadata,
    String,
>)
    ensures
        agrees(r, metadata_in(repository@, repo@, languages@)),
{
    let description = optional_text(repo, "description");
    let stars = match required_u64(repo, "stargazers_count") {
        Ok(n) => n,
        Err(message) => return Err(message),
    };
    let forks = match required_u64(repo, "forks_count") {
        Ok(n) => n,
        Err(message) => return Err(message),
    };
    let subscribers = match required_u64(repo, "subscribers_count") {
        Ok(n) => n,
        Err(message) => return Err(message),
    };
    let open_issues_and_pulls = match required_u64(repo, "open_issues_count") {
        Ok(n) => n,
        Err(message) => return Err(message),
    };
    let default_branch = match required_str(repo, "default_branch") {
        Ok(s) => s,
        Err(message) => return Err(message),
    };
    let created_at = match required_str(repo, "created_at") {
        Ok(s) => s,
        Err(message) => return Err(message),
    };
    let pushed_at = optional_text(repo, "pushed_at");
    let languages = match read_languages(languages) {
        Ok(languages) => languages,
        Err(message) => return Err(message),
    };
    Ok(
        GithubRepositoryMetadata {
            repository: repository.to_owned(),
            description,
            stars,
            forks,
            subscribers,
            open_issues_and_pulls,
            default_branch,
            created_at,
            pushed_at,
            languages,
        },
    )
}

/// The path of a repository.
pub fn repository_path(repository: &str, rest: &str) -> (r: String)
    ensures
        r@ == "/repos/"@ + repository@ + rest@,
{
    "/repos/".to_owned().concat(repository).concat(rest)
}

// Counting.

/// The moment that a field of a value names.
pub open spec fn time_in(value: JsonModel, field: Seq<char>) -> Option<TimestampModel> {
    match text_at(value, field) {
        Some(text) => moment_in(text),
        None => None,
    }
}

fn time_at(value: &Json, field: &str) -> (r: Option<Timestamp>)
    ensures
        view_option(r) == time_in(value@, field@),
{
    match value.get_text(field) {
        Some(text) => read_moment(text.as_str()),
        None => None,
    }
}

/// A field of a value names a moment that is not before another.
pub open spec fn is_since(value: JsonModel, field: Seq<char>, since: TimestampModel) -> bool {
    match time_in(value, field) {
        Some(time) => !after(since, time),
        None => false,
    }
}

pub(crate) fn names_since(value: &Json, field: &str, since: &Timestamp) -> (r: bool)
    ensures
        r == is_since(value@, field@, since@),
{
    match time_at(value, field) {
        Some(time) => !is_after(since, &time),
        None => false,
    }
}

/// How many values name a moment in a field that is not before another.
pub open spec fn count_since(items: Seq<JsonModel>, field: Seq<char>, since: TimestampModel) -> nat
    decreases items.len(),
{
    if items.len() == 0 {
        0
    } else {
        count_since(items.drop_last(), field, since) + if is_since(items.last(), field, since) {
            1nat
        } else {
            0nat
        }
    }
}

pub(crate) fn tally_since(items: &Vec<Json>, field: &str, since: &Timestamp) -> (r: u64)
    ensures
        r == count_since(views(items@), field@, since@),
{
    let ghost model = views(items@);
    let total: usize = items.len();
    let mut count: u64 = 0;
    let mut i: usize = 0;
    proof {
        assert(model.take(0).len() == 0);
    }
    while i < total
        invariant
            i <= total,
            total == items@.len(),
            model == views(items@),
            count <= i,
            count == count_since(model.take(i as int), field@, since@),
        decreases total - i,
    {
        proof {
            assert(model.take(i + 1).drop_last() =~= model.take(i as int));
            assert(model.take(i + 1).last() == items@[i as int]@);
        }
        if names_since(&items[i], field, since) {
            count += 1;
        }
        i += 1;
    }
    proof {
        assert(model.take(i as int) =~= model);
    }
    count
}

/// A week, named by its first second, does not begin before a moment.
pub open spec fn is_recent_week(
    week: JsonModel,
    field: Seq<char>,
    since: TimestampModel,
) -> bool {
    match member_of(week, field) {
        Some(value) => match i64_value(value) {
            Some(second) => match moment_at(second as i64, 0, 0) {
                Some(time) => !after(since, time),
                None => false,
            },
            None => false,
        },
        None => false,
    }
}

fn recent_week(week: &Json, field: &str, since: &Timestamp) -> (r: bool)
    ensures
        r == is_recent_week(week@, field@, since@),
{
    match week.get(field) {
        Some(value) => match value.as_i64() {
            Some(second) => match timestamp_at(second, 0, 0) {
                Some(time) => !is_after(since, &time),
                None => false,
            },
            None => false,
        },
        None => false,
    }
}

/// How many commits the recent weeks have.
pub open spec fn commits_in(weeks: Seq<JsonModel>, since: TimestampModel) -> nat
    decreases weeks.len(),
{
    if weeks.len() == 0 {
        0
    } else {
        let earlier = commits_in(weeks.drop_last(), since);
        match u64_at(weeks.last(), "total"@) {
            Some(total) if is_recent_week(weeks.last(), "week"@, since) => earlier + total,
            _ => earlier,
        }
    }
}

/// How many commits the recent weeks have; nothing where a number cannot hold them.
pub(crate) fn sum_commits(weeks: &Vec<Json>, since: &Timestamp) -> (r: Option<u64>)
    ensures
        match r {
            Some(n) => n == commits_in(views(weeks@), since@),
            None => commits_in(views(weeks@), since@) > u64::MAX,
        },
{
    let ghost model = views(weeks@);
    let mut sum: u128 = 0;
    let mut i: usize = 0;
    proof {
        assert(model.take(0).len() == 0);
    }
    while i < weeks.len()
        invariant
            i <= weeks@.len(),
            model == views(weeks@),
            sum == commits_in(model.take(i as int), since@),
            sum <= i * 0xffff_ffff_ffff_ffff,
        decreases weeks.len() - i,
    {
        proof {
            assert(model.take(i + 1).drop_last() =~= model.take(i as int));
            assert(model.take(i + 1).last() == weeks@[i as int]@);
            assert(i * 0xffff_ffff_ffff_ffff + 0xffff_ffff_ffff_ffff == (i + 1)
                * 0xffff_ffff_ffff_ffff);
        }
        if recent_week(&weeks[i], "week", since) {
            if let Some(total) = weeks[i].get_u64("total") {
                sum += total as u128;
            }
        }
        i += 1;
    }
    proof {
        assert(model.take(i as int) =~= model);
    }
    if sum <= u64::MAX as u128 {
        Some(sum as u64)
    } else {
        None
    }
}

/// A week has commits and does not begin before a moment.
pub open spec fn is_busy_week(week: JsonModel, since: TimestampModel) -> bool {
    is_recent_week(week, "w"@, since) && match u64_at(week, "c"@) {
        Some(n) => n > 0,
        None => false,
    }
}

/// Some week has commits and does not begin before a moment.
pub open spec fn has_busy_week(weeks: Seq<JsonModel>, since: TimestampModel) -> bool {
    exists|i: int| 0 <= i < weeks.len() && is_busy_week(#[trigger] weeks[i], since)
}

/// Some week of a contributor has commits and does not begin before a moment.
pub open spec fn is_active(contributor: JsonModel, since: TimestampModel) -> bool {
    match array_at(contributor, "weeks"@) {
        Some(weeks) => has_busy_week(weeks, since),
        None => false,
    }
}

fn active_contributor(contributor: &Json, since: &Timestamp) -> (r: bool)
    ensures
        r == is_active(contributor@, since@),
{
    match contributor.get_array("weeks") {
        Some(weeks) => {
            let ghost model = views(weeks@);
            let mut i: usize = 0;
            while i < weeks.len()
                invariant
                    i <= weeks@.len(),
                    model == views(weeks@),
                    array_at(contributor@, "weeks"@) == Some(model),
                    forall|k: int| 0 <= k < i ==> !is_busy_week(#[trigger] model[k], since@),
                decreases weeks.len() - i,
            {
                let busy = match weeks[i].get_u64("c") {
                    Some(n) => n > 0,
                    None => false,
                };
                proof {
                    assert(model[i as int] == weeks@[i as int]@);
                }
                if busy && recent_week(&weeks[i], "w", since) {
                    proof {
                        assert(is_busy_week(model[i as int], since@));
                        assert(has_busy_week(model, since@));
                    }
                    return true;
                }
                i += 1;
            }
            false
        },
        None => false,
    }
}

/// How many contributors are active.
pub open spec fn active_in(contributors: Seq<JsonModel>, since: TimestampModel) -> nat
    decreases contributors.len(),
{
    if contributors.len() == 0 {
        0
    } else {
        active_in(contributors.drop_last(), since) + if is_active(contributors.last(), since) {
            1nat
        } else {
            0nat
        }
    }
}

pub(crate) fn tally_active(contributors: &Vec<Json>, since: &Timestamp) -> (r: u64)
    ensures
        r == active_in(views(contributors@), since@),
{
    let ghost model = views(contributors@);
    let total: usize = contributors.len();
    let mut count: u64 = 0;
    let mut i: usize = 0;
    proof {
        assert(model.take(0).len() == 0);
    }
    while i < total
        invariant
            i <= total,
            total == contributors@.len(),
            model == views(contributors@),
            count <= i,
            count == active_in(model.take(i as int), since@),
        decreases total - i,
    {
        proof {
            assert(model.take(i + 1).drop_last() =~= model.take(i as int));
            assert(model.take(i + 1).last() == contributors@[i as int]@);
        }
        if active_contributor(&contributors[i], since) {
            count += 1;
        }
        i += 1;
    }
    proof {
        assert(model.take(i as int) =~= model);
    }
    count
}

/// The value at the end of two names.
pub open spec fn inner_of(value: JsonModel, first: Seq<char>, second: Seq<char>) -> Option<JsonModel> {
    match member_of(value, first) {
        Some(inner) => member_of(inner, second),
        None => None,
    }
}

/// The text at the end of a path of names.
pub open spec fn text_of_option(value: Option<JsonModel>) -> Option<Seq<char>> {
    match value {
        Some(inner) => text_value(inner),
        None => None,
    }
}

/// Who made a commit: the account, or else the address, or else the name. A text that is empty names
/// nobody.
pub open spec fn author_of(commit: JsonModel) -> Option<Seq<char>> {
    let login = text_of_option(inner_of(commit, "author"@, "login"@));
    let author = inner_of(commit, "commit"@, "author"@);
    let email = match author {
        Some(author) => text_at(author, "email"@),
        None => None,
    };
    let name = match author {
        Some(author) => text_at(author, "name"@),
        None => None,
    };
    let chosen = if login is Some {
        login
    } else if email is Some {
        email
    } else {
        name
    };
    match chosen {
        Some(text) => if text.len() > 0 {
            Some(ascii_lowercase(text))
        } else {
            None
        },
        None => None,
    }
}

fn inner_text(value: Option<&Json>, field: &str) -> (r: Option<String>)
    ensures
        view_option(r) == match value {
            Some(inner) => text_at(inner@, field@),
            None => None,
        },
{
    match value {
        Some(inner) => optional_text(inner, field),
        None => None,
    }
}

/// Who made a commit.
pub fn commit_author_identity(commit: &Json) -> (r: Option<String>)
    ensures
        view_option(r) == author_of(commit@),
{
    let login = inner_text(commit.get("author"), "login");
    let author = match commit.get("commit") {
        Some(inner) => inner.get("author"),
        None => None,
    };
    let chosen = if login.is_some() {
        login
    } else {
        let email = inner_text(author, "email");
        if email.is_some() {
            email
        } else {
            inner_text(author, "name")
        }
    };
    match chosen {
        Some(text) => if text.as_str().unicode_len() > 0 {
            Some(to_ascii_lowercase(text.as_str()))
        } else {
            None
        },
        None => None,
    }
}

/// Who made some commits.
pub open spec fn authors_in(commits: Seq<JsonModel>) -> Seq<Seq<char>>
    decreases commits.len(),
{
    if commits.len() == 0 {
        Seq::empty()
    } else {
        match author_of(commits.last()) {
            Some(author) => authors_in(commits.drop_last()).push(author),
            None => authors_in(commits.drop_last()),
        }
    }
}

proof fn lemma_sorted_count(sorted: Seq<Seq<char>>, names: Seq<Seq<char>>)
    requires
        ascending(sorted),
        same_texts(sorted, names),
    ensures
        sorted.len() == names.to_set().len(),
{
    assert(sorted.no_duplicates()) by {
        assert forall|i: int, j: int| 0 <= i < sorted.len() && 0 <= j < sorted.len() && i != j implies sorted[i]
            != sorted[j] by {
            lemma_before_total(sorted[i], sorted[j]);
            lemma_before_total(sorted[i], sorted[i]);
            if i < j {
                assert(before(sorted[i], sorted[j]));
            } else {
                assert(before(sorted[j], sorted[i]));
            }
        }
    }
    sorted.unique_seq_to_set();
    assert(sorted.to_set() =~= names.to_set()) by {
        assert forall|x: Seq<char>| sorted.to_set().contains(x) <==> names.to_set().contains(x) by {
            assert(sorted.contains(x) <==> names.contains(x));
        }
    }
}

pub(crate) fn count_authors(commits: &Vec<Json>) -> (r: u64)
    ensures
        r == authors_in(views(commits@)).to_set().len(),
{
    let ghost model = views(commits@);
    let mut names: Vec<String> = Vec::new();
    let mut i: usize = 0;
    proof {
        assert(model.take(0).len() == 0);
        assert(views(names@) =~= Seq::<Seq<char>>::empty());
    }
    while i < commits.len()
        invariant
            i <= commits@.len(),
            model == views(commits@),
            views(names@) == authors_in(model.take(i as int)),
        decreases commits.len() - i,
    {
        proof {
            assert(model.take(i + 1).drop_last() =~= model.take(i as int));
            assert(model.take(i + 1).last() == commits@[i as int]@);
        }
        if let Some(author) = commit_author_identity(&commits[i]) {
            names.push(author);
        }
        i += 1;
    }
    proof {
        assert(model.take(i as int) =~= model);
    }
    let sorted = sorted_texts(&names);
    proof {
        lemma_sorted_count(views(sorted@), views(names@));
    }
    sorted.len() as u64
}

/// The values that are not pull requests.
pub open spec fn plain_issues(items: Seq<JsonModel>) -> Seq<JsonModel>
    decreases items.len(),
{
    if items.len() == 0 {
        Seq::empty()
    } else if member_of(items.last(), "pull_request"@) is None {
        plain_issues(items.drop_last()).push(items.last())
    } else {
        plain_issues(items.drop_last())
    }
}

pub(crate) fn keep_issues(items: &Vec<Json>) -> (r: Vec<Json>)
    ensures
        views(r@) == plain_issues(views(items@)),
{
    let ghost model = views(items@);
    let mut out: Vec<Json> = Vec::new();
    let mut i: usize = 0;
    proof {
        assert(model.take(0).len() == 0);
        assert(views(out@) =~= Seq::<JsonModel>::empty());
    }
    while i < items.len()
        invariant
            i <= items@.len(),
            model == views(items@),
            views(out@) == plain_issues(model.take(i as int)),
        decreases items.len() - i,
    {
        proof {
            assert(model.take(i + 1).drop_last() =~= model.take(i as int));
            assert(model.take(i + 1).last() == items@[i as int]@);
        }
        if items[i].get("pull_request").is_none() {
            out.push(items[i].copy());
        }
        i += 1;
    }
    proof {
        assert(model.take(i as int) =~= model);
    }
    out
}

/// The seconds from the creation of a pull request to its merge, where it was merged in the period.
pub open spec fn merge_span(pull: JsonModel, since: TimestampModel) -> Option<i64> {
    match (text_at(pull, "created_at"@), text_at(pull, "merged_at"@)) {
        (Some(created), Some(merged)) => match (moment_in(created), moment_in(merged)) {
            (Some(created), Some(merged)) => if is_since(pull, "merged_at"@, since) {
                Some(whole_seconds(created, merged) as i64)
            } else {
                None
            },
            _ => None,
        },
        _ => None,
    }
}

fn span_of(pull: &Json, since: &Timestamp) -> (r: Option<i64>)
    ensures
        r == merge_span(pull@, since@),
{
    match (pull.get_text("created_at"), pull.get_text("merged_at")) {
        (Some(created), Some(merged)) => match (
            read_moment(created.as_str()),
            read_moment(merged.as_str()),
        ) {
            (Some(created), Some(merged)) => if names_since(pull, "merged_at", since) {
                Some(seconds_between(&created, &merged))
            } else {
                None
            },
            _ => None,
        },
        _ => None,
    }
}

/// The seconds to merge of the pull requests that were merged in the period.
pub open spec fn merge_spans(pulls: Seq<JsonModel>, since: TimestampModel) -> Seq<i64>
    decreases pulls.len(),
{
    if pulls.len() == 0 {
        Seq::empty()
    } else {
        match merge_span(pulls.last(), since) {
            Some(seconds) => merge_spans(pulls.drop_last(), since).push(seconds),
            None => merge_spans(pulls.drop_last(), since),
        }
    }
}

pub(crate) fn collect_spans(pulls: &Vec<Json>, since: &Timestamp) -> (r: Vec<i64>)
    ensures
        r@ == merge_spans(views(pulls@), since@),
{
    let ghost model = views(pulls@);
    let mut out: Vec<i64> = Vec::new();
    let mut i: usize = 0;
    proof {
        assert(model.take(0).len() == 0);
    }
    while i < pulls.len()
        invariant
            i <= pulls@.len(),
            model == views(pulls@),
            out@ == merge_spans(model.take(i as int), since@),
        decreases pulls.len() - i,
    {
        proof {
            assert(model.take(i + 1).drop_last() =~= model.take(i as int));
            assert(model.take(i + 1).last() == pulls@[i as int]@);
        }
        if let Some(seconds) = span_of(&pulls[i], since) {
            out.push(seconds);
        }
        i += 1;
    }
    proof {
        assert(model.take(i as int) =~= model);
    }
    out
}

/// How many runs succeeded.
pub open spec fn successes_in(runs: Seq<JsonModel>) -> nat
    decreases runs.len(),
{
    if runs.len() == 0 {
        0
    } else {
        successes_in(runs.drop_last()) + if text_at(runs.last(), "conclusion"@) == Some(
            "success"@,
        ) {
            1nat
        } else {
            0nat
        }
    }
}

pub(crate) fn tally_successes(runs: &Vec<Json>) -> (r: u64)
    ensures
        r == successes_in(views(runs@)),
{
    let ghost model = views(runs@);
    let total: usize = runs.len();
    let mut count: u64 = 0;
    let mut i: usize = 0;
    proof {
        assert(model.take(0).len() == 0);
    }
    while i < total
        invariant
            i <= total,
            total == runs@.len(),
            model == views(runs@),
            count <= i,
            count == successes_in(model.take(i as int)),
        decreases total - i,
    {
        proof {
            assert(model.take(i + 1).drop_last() =~= model.take(i as int));
            assert(model.take(i + 1).last() == runs@[i as int]@);
        }
        if let Some(conclusion) = runs[i].get_text("conclusion") {
            if same(conclusion.as_str(), "success") {
                count += 1;
            }
        }
        i += 1;
    }
    proof {
        assert(model.take(i as int) =~= model);
    }
    count
}

/// The moments, in UTC, of the releases that were published in the period.
pub open spec fn releases_in(releases: Seq<JsonModel>, since: TimestampModel) -> Seq<Seq<char>>
    decreases releases.len(),
{
    if releases.len() == 0 {
        Seq::empty()
    } else {
        match time_in(releases.last(), "published_at"@) {
            Some(time) if !after(since, time) => releases_in(releases.drop_last(), since).push(
                time.utc_text,
            ),
            _ => releases_in(releases.drop_last(), since),
        }
    }
}

pub(crate) fn collect_releases(releases: &Vec<Json>, since: &Timestamp) -> (r: Vec<String>)
    ensures
        views(r@) == releases_in(views(releases@), since@),
{
    let ghost model = views(releases@);
    let mut out: Vec<String> = Vec::new();
    let mut i: usize = 0;
    proof {
        assert(model.take(0).len() == 0);
        assert(views(out@) =~= Seq::<Seq<char>>::empty());
    }
    while i < releases.len()
        invariant
            i <= releases@.len(),
            model == views(releases@),
            views(out@) == releases_in(model.take(i as int), since@),
        decreases releases.len() - i,
    {
        proof {
            assert(model.take(i + 1).drop_last() =~= model.take(i as int));
            assert(model.take(i + 1).last() == releases@[i as int]@);
        }
        if let Some(time) = time_at(&releases[i], "published_at") {
            if !is_after(since, &time) {
                out.push(time.utc_text);
            }
        }
        i += 1;
    }
    proof {
        assert(model.take(i as int) =~= model);
    }
    out
}

// What is counted.

/// A value names, in a field, a moment that does not lie before another.
pub open spec fn names_moment_since(
    value: JsonModel,
    field: Seq<char>,
    since: TimestampModel,
) -> bool {
    text_at(value, field) matches Some(text) && rfc3339_read(text) matches Ok(time) && (time.seconds
        > since.seconds || time.seconds == since.seconds && time.nanos >= since.nanos)
}

/// The successes are the runs whose conclusion is the text `success`: as many as there are positions
/// of such runs.
pub proof fn law_successes_are_successful_runs(runs: Seq<JsonModel>)
    ensures
        successes_in(runs) == runs.filter(
            |run: JsonModel| text_at(run, "conclusion"@) == Some("success"@),
        ).len(),
        successes_in(runs) <= runs.len(),
        (forall|i: int|
            0 <= i < runs.len() ==> text_at(#[trigger] runs[i], "conclusion"@) != Some("success"@))
            ==> successes_in(runs) == 0,
        (forall|i: int|
            0 <= i < runs.len() ==> text_at(#[trigger] runs[i], "conclusion"@) == Some("success"@))
            ==> successes_in(runs) == runs.len(),
    decreases runs.len(),
{
    reveal(Seq::filter);
    if runs.len() > 0 {
        law_successes_are_successful_runs(runs.drop_last());
        assert(runs[runs.len() - 1] == runs.last());
        assert forall|i: int| 0 <= i < runs.drop_last().len() implies runs.drop_last()[i]
            == #[trigger] runs[i] by {}
    }
}

/// One more run adds one to the successes where it succeeded, and nothing where it did not.
pub proof fn law_only_success_adds_to_successes(runs: Seq<JsonModel>, run: JsonModel)
    ensures
        text_at(run, "conclusion"@) == Some("success"@) ==> successes_in(runs.push(run))
            == successes_in(runs) + 1,
        text_at(run, "conclusion"@) != Some("success"@) ==> successes_in(runs.push(run))
            == successes_in(runs),
{
    assert(runs.push(run).drop_last() =~= runs);
}

/// What is counted since a moment are the values that name a moment from then on in the field.
pub proof fn law_counted_since_a_moment(
    items: Seq<JsonModel>,
    field: Seq<char>,
    since: TimestampModel,
)
    ensures
        count_since(items, field, since) == items.filter(
            |item: JsonModel| names_moment_since(item, field, since),
        ).len(),
    decreases items.len(),
{
    reveal(Seq::filter);
    if items.len() > 0 {
        law_counted_since_a_moment(items.drop_last(), field, since);
    }
}

/// The issues are the values of the list that are no pull requests, in its order.
pub proof fn law_issues_are_no_pull_requests(items: Seq<JsonModel>)
    ensures
        plain_issues(items) == items.filter(
            |item: JsonModel| member_of(item, "pull_request"@) is None,
        ),
    decreases items.len(),
{
    reveal(Seq::filter);
    if items.len() > 0 {
        law_issues_are_no_pull_requests(items.drop_last());
    } else {
        assert(plain_issues(items) =~= items);
    }
}

/// A week adds its commits where it does not begin before the period, and nothing where it does.
pub proof fn law_weeks_of_the_period_count(
    weeks: Seq<JsonModel>,
    week: JsonModel,
    second: i64,
    begin: TimestampModel,
    total: nat,
    since: TimestampModel,
)
    requires
        member_of(week, "week"@) matches Some(value) && i64_value(value) == Some(second as int),
        moment_at(second, 0, 0) == Some(begin),
        begin.nanos == 0,
        u64_at(week, "total"@) == Some(total),
    ensures
        begin.seconds > since.seconds || begin.seconds == since.seconds && since.nanos == 0
            ==> commits_in(weeks.push(week), since) == commits_in(weeks, since) + total,
        begin.seconds < since.seconds ==> commits_in(weeks.push(week), since) == commits_in(
            weeks,
            since,
        ),
        commits_in(Seq::empty(), since) == 0,
{
    assert(weeks.push(week).drop_last() =~= weeks);
}

/// The active contributors are those with a week of the period that has commits.
pub proof fn law_active_contributors_have_commits(
    contributors: Seq<JsonModel>,
    since: TimestampModel,
)
    ensures
        active_in(contributors, since) == contributors.filter(
            |contributor: JsonModel| is_active(contributor, since),
        ).len(),
    decreases contributors.len(),
{
    reveal(Seq::filter);
    if contributors.len() > 0 {
        law_active_contributors_have_commits(contributors.drop_last(), since);
    }
}

/// A contributor is active exactly where one of the weeks has commits and begins in the period.
pub proof fn law_active_contributor_has_a_busy_week(
    contributor: JsonModel,
    weeks: Seq<JsonModel>,
    i: int,
    second: i64,
    begin: TimestampModel,
    since: TimestampModel,
)
    requires
        array_at(contributor, "weeks"@) == Some(weeks),
        0 <= i < weeks.len(),
        member_of(weeks[i], "w"@) matches Some(value) && i64_value(value) == Some(second as int),
        moment_at(second, 0, 0) == Some(begin),
        u64_at(weeks[i], "c"@) is Some,
    ensures
        u64_at(weeks[i], "c"@)->Some_0 > 0 && begin.seconds > since.seconds ==> is_active(
            contributor,
            since,
        ),
        weeks.len() == 1 && (u64_at(weeks[i], "c"@)->Some_0 == 0 || begin.seconds < since.seconds)
            ==> !is_active(contributor, since),
{
    if u64_at(weeks[i], "c"@)->Some_0 > 0 && begin.seconds > since.seconds {
        assert(is_busy_week(weeks[i], since));
    }
}

/// The author of a commit is its account; without one the address, and without that the name; the
/// case of Latin letters makes no difference.
pub proof fn law_author_is_the_account_first(
    commit: JsonModel,
    account: JsonModel,
    inner: JsonModel,
    author: JsonModel,
    login: Seq<char>,
    email: Seq<char>,
    name: Seq<char>,
)
    requires
        member_of(commit, "commit"@) == Some(inner),
        member_of(inner, "author"@) == Some(author),
        login.len() > 0,
        email.len() > 0,
        name.len() > 0,
    ensures
        member_of(commit, "author"@) == Some(account) && text_at(account, "login"@) == Some(login)
            ==> author_of(commit) == Some(ascii_lowercase(login)),
        member_of(commit, "author"@) is None && text_at(author, "email"@) == Some(email)
            ==> author_of(commit) == Some(ascii_lowercase(email)),
        member_of(commit, "author"@) is None && text_at(author, "email"@) is None && text_at(
            author,
            "name"@,
        ) == Some(name) ==> author_of(commit) == Some(ascii_lowercase(name)),
        member_of(commit, "author"@) is None && text_at(author, "email"@) is None && text_at(
            author,
            "name"@,
        ) is None ==> author_of(commit) is None,
{
}

/// The authors of commits are those of each commit that has one.
pub proof fn law_authors_are_those_of_the_commits(commits: Seq<JsonModel>, name: Seq<char>)
    ensures
        authors_in(commits).contains(name) <==> exists|i: int|
            0 <= i < commits.len() && author_of(#[trigger] commits[i]) == Some(name),
    decreases commits.len(),
{
    if commits.len() > 0 {
        let head = commits.drop_last();
        law_authors_are_those_of_the_commits(head, name);
        let earlier = authors_in(head);
        let all = authors_in(commits);
        assert(commits[commits.len() - 1] == commits.last());
        if exists|i: int| 0 <= i < head.len() && author_of(#[trigger] head[i]) == Some(name) {
            let i = choose|i: int|
                0 <= i < head.len() && author_of(#[trigger] head[i]) == Some(name);
            assert(author_of(commits[i]) == Some(name));
        }
        if earlier.contains(name) {
            let k = choose|k: int| 0 <= k < earlier.len() && earlier[k] == name;
            assert(all[k] == name);
        }
        if author_of(commits.last()) == Some(name) {
            assert(all[earlier.len() as int] == name);
        }
        if all.contains(name) {
            let k = choose|k: int| 0 <= k < all.len() && all[k] == name;
            if k < earlier.len() {
                assert(earlier[k] == name);
            } else {
                assert(author_of(commits[commits.len() - 1]) == Some(name));
            }
        }
        if exists|i: int| 0 <= i < commits.len() && author_of(#[trigger] commits[i]) == Some(name) {
            let i = choose|i: int|
                0 <= i < commits.len() && author_of(#[trigger] commits[i]) == Some(name);
            if i < head.len() {
                assert(author_of(head[i]) == Some(name));
            }
        }
    }
}

/// A pull request that was merged in the period adds the time from its creation to its merge; any
/// other adds nothing.
pub proof fn law_merged_pull_requests_count(
    pulls: Seq<JsonModel>,
    pull: JsonModel,
    created: TimestampModel,
    merged: TimestampModel,
    since: TimestampModel,
)
    requires
        text_at(pull, "created_at"@) matches Some(text) && rfc3339_read(text) == Ok::<
            TimestampModel,
            Seq<char>,
        >(created),
        created.nanos == 0,
        merged.nanos == 0,
        since.nanos == 0,
        i64::MIN <= merged.seconds - created.seconds <= i64::MAX,
    ensures
        ({
            let before = merge_spans(pulls, since);
            let after = merge_spans(pulls.push(pull), since);
            &&& text_at(pull, "merged_at"@) is None ==> after == before
            &&& text_at(pull, "merged_at"@) matches Some(text) ==> rfc3339_read(text) == Ok::<
                TimestampModel,
                Seq<char>,
            >(merged) ==> {
                &&& merged.seconds >= since.seconds ==> after == before.push(
                    (merged.seconds - created.seconds) as i64,
                )
                &&& merged.seconds < since.seconds ==> after == before
            }
        }),
{
    assert(pulls.push(pull).drop_last() =~= pulls);
}

/// The times of releases are those of the releases that were published in the period, in the order of
/// the list.
pub proof fn law_releases_of_the_period_are_kept(
    releases: Seq<JsonModel>,
    release: JsonModel,
    since: TimestampModel,
)
    ensures
        ({
            let before = releases_in(releases, since);
            let after = releases_in(releases.push(release), since);
            if names_moment_since(release, "published_at"@, since) {
                after == before.push(
                    rfc3339_read(text_at(release, "published_at"@)->Some_0)->Ok_0.utc_text,
                )
            } else {
                after == before
            }
        }),
{
    assert(releases.push(release).drop_last() =~= releases);
}

/// Every language that an answer names is listed with its bytes.
pub proof fn law_languages_have_their_bytes(members: Seq<MemberModel>, i: int)
    requires
        0 <= i < members.len(),
        languages_of(members) is Some,
        forall|k: int| i < k < members.len() ==> (#[trigger] members[k]).key != members[i].key,
    ensures
        u64_value(members[i].value) matches Some(bytes) && languages_of(members)->Some_0.contains(
            LanguageModel { name: members[i].key, bytes },
        ),
    decreases members.len(),
{
    let head = members.drop_last();
    let last = members.last();
    let earlier = languages_of(head)->Some_0;
    let bytes = u64_value(last.value)->Some_0;
    let at = language_place(earlier, last.key) as int;
    let all = languages_of(members)->Some_0;
    lemma_language_place(earlier, last.key);
    if i == members.len() - 1 {
        assert(all[at] == (LanguageModel { name: last.key, bytes }));
    } else {
        assert forall|k: int| i < k < head.len() implies (#[trigger] head[k]).key
            != head[i].key by {
            assert(members[k].key != members[i].key);
        }
        law_languages_have_their_bytes(head, i);
        let wanted = LanguageModel {
            name: head[i].key,
            bytes: u64_value(head[i].value)->Some_0,
        };
        let k = choose|k: int| 0 <= k < earlier.len() && earlier[k] == wanted;
        assert(members[members.len() - 1].key != members[i].key);
        if at < earlier.len() && earlier[at].name == last.key {
            assert(k != at);
            assert(all[k] == wanted);
        } else if k < at {
            assert(all[k] == wanted);
        } else {
            assert(all[k + 1] == wanted);
        }
    }
}

/// What is told of a repository stands under its own name in the answer.
pub proof fn law_metadata_is_that_of_the_answer(
    repository: Seq<char>,
    repo: JsonModel,
    languages: JsonModel,
)
    ensures
        metadata_in(repository, repo, languages) matches Ok(m) ==> {
            &&& m.repository == repository
            &&& u64_at(repo, "stargazers_count"@) == Some(m.stars)
            &&& u64_at(repo, "forks_count"@) == Some(m.forks)
            &&& u64_at(repo, "subscribers_count"@) == Some(m.subscribers)
            &&& u64_at(repo, "open_issues_count"@) == Some(m.open_issues_and_pulls)
            &&& text_at(repo, "default_branch"@) == Some(m.default_branch)
            &&& text_at(repo, "created_at"@) == Some(m.created_at)
            &&& text_at(repo, "pushed_at"@) == m.pushed_at
            &&& text_at(repo, "description"@) == m.description
        },
        u64_at(repo, "stargazers_count"@) is Some && u64_at(repo, "forks_count"@) is Some
            && u64_at(repo, "subscribers_count"@) is Some && u64_at(repo, "open_issues_count"@)
            is Some && text_at(repo, "default_branch"@) is Some && text_at(repo, "created_at"@)
            is Some && languages_in(languages) is Ok ==> metadata_in(repository, repo, languages)
            is Ok,
{
}

/// A repository is an owner and a name with a slash between them, both of safe characters.
pub proof fn law_repository_has_an_owner_and_a_name(owner: Seq<char>, name: Seq<char>)
    requires
        !owner.contains('/'),
        !name.contains('/'),
    ensures
        is_repository(owner + "/"@ + name) <==> is_safe_name(owner) && is_safe_name(name),
        !is_repository(owner),
        is_safe_name(name) ==> !name.contains('?') && !name.contains('#') && !name.contains('%')
            && !name.contains(' '),
{
    reveal_strlit("/");
    let whole = owner + "/"@ + name;
    let at = owner.len() as int;
    assert forall|i: int| 0 <= i < at implies #[trigger] whole[i] != '/' by {
        assert(whole[i] == owner[i]);
    }
    lemma_index_unique(whole, '/', at);
    assert(whole.take(at) =~= owner);
    assert(whole.skip(at + 1) =~= name);
    lemma_index_of_char(name, '/');
    lemma_index_of_char(owner, '/');
    assert(split_on(name, '/') =~= seq![name]);
    assert(split_on(owner, '/') =~= seq![owner]);
    assert(split_on(whole, '/') =~= seq![owner, name]);
    if is_safe_name(name) {
        assert forall|i: int| 0 <= i < name.len() implies name[i] != '?' && name[i] != '#'
            && name[i] != '%' && name[i] != ' ' by {
            assert(is_repository_char(name[i]));
        }
    }
}

/// An answer is the body of a success; an answer that is not ready is none, and any other is an error.
pub proof fn law_answer_is_the_body_of_a_success(status: u16, body: JsonModel)
    ensures
        answer_value(status, Some(body)) == Ok::<Option<JsonModel>, Seq<char>>(Some(body))
            <==> 200 <= status <= 299 && status != 202,
        answer_value(202, Some(body)) == Ok::<Option<JsonModel>, Seq<char>>(None),
        !(200 <= status <= 299) ==> answer_value(status, Some(body)) is Err,
        200 <= status <= 299 && status != 202 ==> answer_value(status, None) is Err,
{
}

/// Statistics that are not ready are asked for again after pauses that double.
pub proof fn law_pauses_double(i: int)
    requires
        0 <= i < 2,
    ensures
        stats_pauses().len() == 3,
        stats_pauses()[i + 1] == 2 * stats_pauses()[i],
        stats_pauses()[0] == 1,
{
}

} // verus!
