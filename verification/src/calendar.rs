//! The calendar: reading its settings, its answers and its events, and writing new events.

use vstd::prelude::*;

use crate::numbers::{decimal, size_text};
use crate::registry::{read_url, url_parts};
use crate::text::{
    agrees, chars_of, find_part, has_part, holds_text, is_blank, join, joined, lemma_find_part,
    lemma_middle_part, lemma_views_push, lines, occurs_at, same, split_at_char, split_at_part,
    split_lines, split_once_char, split_once_text, starts_with_char, starts_with_text, text_of,
    trim, trim_end, trimmed, trimmed_end, view_option, views,
};
use crate::xml::{
    blocks_from, empty_tag_from, has_empty_xml_tag, is_element_name, law_text_between_tags_is_read,
    local_name, plain_text, strip_xml_text, texts_from, xml_blocks, xml_texts,
};

verus! {

broadcast use lemma_views_push;

/// The address of the calendar server that is used where no other is set.
pub const DEFAULT_CALDAV_ENDPOINT: &'static str = "https://caldav.yandex.ru";

// Files of variables.

/// The value of a variable as it stands in a file: without its quotes, or without a comment.
pub open spec fn env_value(value: Seq<char>) -> Seq<char> {
    if value.len() >= 2 && (value[0] == '"' && value.last() == '"' || value[0] == '\''
        && value.last() == '\'') {
        value.subrange(1, value.len() - 1)
    } else {
        match split_at_part(value, " #"@) {
            Some(parts) => trim_end(parts.0),
            None => value,
        }
    }
}

/// The value of a variable as it stands in a file.
pub fn parse_env_value(value: &str) -> (r: String)
    ensures
        r@ == env_value(value@),
{
    let chars = chars_of(value);
    let total: usize = chars.len();
    if total >= 2 && ((chars[0] == '"' && chars[total - 1] == '"') || (chars[0] == '\''
        && chars[total - 1] == '\'')) {
        return text_of(chars.as_slice(), 1, total - 1);
    }
    match split_once_text(value, " #") {
        Some(parts) => trimmed_end(parts.0.as_str()),
        None => value.to_owned(),
    }
}

/// A character that a name of a variable may hold.
pub open spec fn is_env_char(c: char) -> bool {
    'A' <= c <= 'Z' || c == '_' || '0' <= c <= '9'
}

/// The name of a variable that a file may set.
pub open spec fn is_env_key(key: Seq<char>) -> bool {
    &&& "YANDEX_CALDAV_"@.is_prefix_of(key) || key == "TELEGRAM_BOT_TOKEN"@ || key
        == "TELEGRAM_CHAT_ID"@
    &&& forall|i: int| 0 <= i < key.len() ==> is_env_char(#[trigger] key[i])
}

fn check_env_key(key: &str) -> (r: bool)
    ensures
        r == is_env_key(key@),
{
    if !starts_with_text(key, "YANDEX_CALDAV_") && !same(key, "TELEGRAM_BOT_TOKEN") && !same(
        key,
        "TELEGRAM_CHAT_ID",
    ) {
        return false;
    }
    let chars = chars_of(key);
    let mut i: usize = 0;
    while i < chars.len()
        invariant
            i <= chars@.len(),
            chars@ == key@,
            forall|k: int| 0 <= k < i ==> is_env_char(#[trigger] key@[k]),
        decreases chars.len() - i,
    {
        let c = chars[i];
        if !(('A' <= c && c <= 'Z') || c == '_' || ('0' <= c && c <= '9')) {
            proof {
                assert(!is_env_char(key@[i as int]));
            }
            return false;
        }
        i += 1;
    }
    true
}

/// A variable of a file.
#[derive(Debug, PartialEq, Eq)]
pub struct EnvEntry {
    pub key: String,
    pub value: String,
}

/// A variable of a file, mathematically.
pub ghost struct EnvModel {
    pub key: Seq<char>,
    pub value: Seq<char>,
}

impl View for EnvEntry {
    type V = EnvModel;

    open spec fn view(&self) -> EnvModel {
        EnvModel { key: self.key@, value: self.value@ }
    }
}

/// What a line of a file sets: nothing, a variable, or an error. `number` is the number of the line.
pub open spec fn env_line(line: Seq<char>, number: nat, path: Seq<char>) -> Result<
    Option<EnvModel>,
    Seq<char>,
> {
    let text = trim(line);
    if text.len() == 0 || text[0] == '#' {
        Ok(None)
    } else {
        match split_at_char(text, '=') {
            None => Err("некорректная строка "@ + decimal(number) + " в "@ + path),
            Some(parts) => if is_env_key(trim(parts.0)) {
                Ok(Some(EnvModel { key: trim(parts.0), value: env_value(trim(parts.1)) }))
            } else {
                Err("недопустимое имя переменной в "@ + path + ":"@ + decimal(number))
            },
        }
    }
}

/// The variables that the lines of a file set, up to the first line that is wrong, and its error.
pub open spec fn env_lines(all: Seq<Seq<char>>, path: Seq<char>) -> (Seq<EnvModel>, Option<Seq<char>>)
    decreases all.len(),
{
    if all.len() == 0 {
        (Seq::empty(), None)
    } else {
        let (entries, error) = env_lines(all.drop_last(), path);
        if error is Some {
            (entries, error)
        } else {
            match env_line(all.last(), all.len(), path) {
                Err(message) => (entries, Some(message)),
                Ok(Some(entry)) => (entries.push(entry), None),
                Ok(None) => (entries, None),
            }
        }
    }
}

proof fn lemma_env_error(all: Seq<Seq<char>>, path: Seq<char>, n: int)
    requires
        0 <= n <= all.len(),
        env_lines(all.take(n), path).1 is Some,
    ensures
        env_lines(all, path) == env_lines(all.take(n), path),
    decreases all.len(),
{
    if n == all.len() {
        assert(all.take(n) =~= all);
    } else {
        assert(all.drop_last().take(n) =~= all.take(n));
        lemma_env_error(all.drop_last(), path, n);
    }
}

fn read_env_line(line: &str, number: usize, path: &str) -> (r: Result<Option<EnvEntry>, String>)
    ensures
        match (r, env_line(line@, number as nat, path@)) {
            (Ok(entry), Ok(model)) => view_option(entry) == model,
            (Err(message), Err(model)) => message@ == model,
            _ => false,
        },
{
    let text = trimmed(line);
    if text.as_str().unicode_len() == 0 || starts_with_char(text.as_str(), '#') {
        return Ok(None);
    }
    match split_once_char(text.as_str(), '=') {
        None => Err(
            "некорректная строка ".to_owned().concat(size_text(number).as_str()).concat(
                " в ",
            ).concat(path),
        ),
        Some(parts) => {
            let key = trimmed(parts.0.as_str());
            if check_env_key(key.as_str()) {
                let value = parse_env_value(trimmed(parts.1.as_str()).as_str());
                Ok(Some(EnvEntry { key, value }))
            } else {
                Err(
                    "недопустимое имя переменной в ".to_owned().concat(path).concat(":").concat(
                        size_text(number).as_str(),
                    ),
                )
            }
        },
    }
}

/// Reads the variables that a file sets, up to the first line that is wrong, and its error.
pub fn read_env_file(contents: &str, path: &str) -> (r: (Vec<EnvEntry>, Option<String>))
    ensures
        (views(r.0@), view_option(r.1)) == env_lines(lines(contents@), path@),
{
    let all = split_lines(contents);
    let ghost model = views(all@);
    let mut entries: Vec<EnvEntry> = Vec::new();
    let mut i: usize = 0;
    proof {
        assert(model.take(0).len() == 0);
        assert(views(entries@) =~= Seq::<EnvModel>::empty());
    }
    while i < all.len()
        invariant
            i <= all@.len(),
            model == views(all@),
            model == lines(contents@),
            env_lines(model.take(i as int), path@) == (views(entries@), None::<Seq<char>>),
        decreases all.len() - i,
    {
        proof {
            assert(model.take(i + 1).drop_last() =~= model.take(i as int));
            assert(model.take(i + 1).last() == all@[i as int]@);
        }
        match read_env_line(all[i].as_str(), i + 1, path) {
            Ok(Some(entry)) => {
                entries.push(entry);
            },
            Ok(None) => {},
            Err(message) => {
                proof {
                    lemma_env_error(model, path@, i + 1);
                }
                return (entries, Some(message));
            },
        }
        i += 1;
    }
    proof {
        assert(model.take(i as int) =~= model);
    }
    (entries, None)
}

/// The variables of a file that are set: those that are not defined before, neither by the process
/// nor by an earlier line.
pub open spec fn fresh_entries(entries: Seq<EnvModel>, defined: Seq<Seq<char>>) -> Seq<EnvModel>
    decreases entries.len(),
{
    if entries.len() == 0 {
        Seq::empty()
    } else {
        let earlier = fresh_entries(entries.drop_last(), defined);
        if defined.contains(entries.last().key) || has_key(earlier, entries.last().key) {
            earlier
        } else {
            earlier.push(entries.last())
        }
    }
}

/// Some variable has a name.
pub open spec fn has_key(entries: Seq<EnvModel>, key: Seq<char>) -> bool {
    exists|i: int| 0 <= i < entries.len() && (#[trigger] entries[i]).key == key
}

fn holds_key(entries: &Vec<EnvEntry>, key: &str) -> (r: bool)
    ensures
        r == has_key(views(entries@), key@),
{
    let mut i: usize = 0;
    while i < entries.len()
        invariant
            i <= entries@.len(),
            forall|k: int| 0 <= k < i ==> (#[trigger] views(entries@)[k]).key != key@,
        decreases entries.len() - i,
    {
        if same(entries[i].key.as_str(), key) {
            proof {
                assert(views(entries@)[i as int].key == key@);
            }
            return true;
        }
        i += 1;
    }
    false
}

/// The variables of a file that are set where those named `defined` are set already.
pub fn new_entries(entries: &Vec<EnvEntry>, defined: &Vec<String>) -> (r: Vec<EnvEntry>)
    ensures
        views(r@) == fresh_entries(views(entries@), views(defined@)),
{
    let ghost model = views(entries@);
    let mut out: Vec<EnvEntry> = Vec::new();
    let mut i: usize = 0;
    proof {
        assert(model.take(0).len() == 0);
        assert(views(out@) =~= Seq::<EnvModel>::empty());
    }
    while i < entries.len()
        invariant
            i <= entries@.len(),
            model == views(entries@),
            views(out@) == fresh_entries(model.take(i as int), views(defined@)),
        decreases entries.len() - i,
    {
        proof {
            assert(model.take(i + 1).drop_last() =~= model.take(i as int));
            assert(model.take(i + 1).last() == entries@[i as int]@);
        }
        let key = entries[i].key.as_str();
        if !holds_text(defined.as_slice(), key) && !holds_key(&out, key) {
            out.push(EnvEntry { key: entries[i].key.clone(), value: entries[i].value.clone() });
        }
        i += 1;
    }
    proof {
        assert(model.take(i as int) =~= model);
    }
    out
}

/// A file never changes a variable that is already defined.
pub proof fn law_defined_variables_win(entries: Seq<EnvModel>, defined: Seq<Seq<char>>)
    ensures
        forall|i: int|
            0 <= i < fresh_entries(entries, defined).len() ==> !defined.contains(
                (#[trigger] fresh_entries(entries, defined)[i]).key,
            ),
    decreases entries.len(),
{
    if entries.len() > 0 {
        law_defined_variables_win(entries.drop_last(), defined);
        let earlier = fresh_entries(entries.drop_last(), defined);
        let all = fresh_entries(entries, defined);
        assert forall|i: int| 0 <= i < all.len() implies !defined.contains(
            (#[trigger] all[i]).key,
        ) by {
            if i < earlier.len() {
                assert(all[i] == earlier[i]);
            }
        }
    }
}

// Settings.

/// How the calendar is reached.
#[derive(Debug, PartialEq, Eq)]
pub struct CalendarSettings {
    pub username: String,
    pub password: String,
    pub calendar_name: Option<String>,
    pub endpoint: String,
}

/// How the calendar is reached, mathematically.
pub ghost struct SettingsModel {
    pub username: Seq<char>,
    pub password: Seq<char>,
    pub calendar_name: Option<Seq<char>>,
    pub endpoint: Seq<char>,
}

impl View for CalendarSettings {
    type V = SettingsModel;

    open spec fn view(&self) -> SettingsModel {
        SettingsModel {
            username: self.username@,
            password: self.password@,
            calendar_name: view_option(self.calendar_name),
            endpoint: self.endpoint@,
        }
    }
}

/// The address of the calendar server.
pub open spec fn endpoint_text(endpoint: Option<Seq<char>>) -> Seq<char> {
    match endpoint {
        Some(text) => text,
        None => DEFAULT_CALDAV_ENDPOINT@,
    }
}

/// How the variables say that the calendar is reached.
pub open spec fn settings_of(
    username: Option<Seq<char>>,
    password: Option<Seq<char>>,
    calendar_name: Option<Seq<char>>,
    endpoint: Option<Seq<char>>,
) -> Result<SettingsModel, Seq<char>> {
    match (username, password) {
        (None, _) => Err("не задана переменная YANDEX_CALDAV_USERNAME"@),
        (_, None) => Err("не задана переменная YANDEX_CALDAV_PASSWORD"@),
        (Some(username), Some(password)) => match url_parts(endpoint_text(endpoint)) {
            Some(url) => Ok(SettingsModel { username, password, calendar_name, endpoint: url.text }),
            None => Err("адрес CalDAV некорректен"@),
        },
    }
}

impl CalendarSettings {
    /// The settings that the variables hold.
    pub fn from_variables(
        username: Option<String>,
        password: Option<String>,
        calendar_name: Option<String>,
        endpoint: Option<String>,
    ) -> (r: Result<CalendarSettings, String>)
        ensures
            agrees(
                r,
                settings_of(
                    view_option(username),
                    view_option(password),
                    view_option(calendar_name),
                    view_option(endpoint),
                ),
            ),
    {
        let username = match username {
            Some(username) => username,
            None => return Err("не задана переменная YANDEX_CALDAV_USERNAME".to_owned()),
        };
        let password = match password {
            Some(password) => password,
            None => return Err("не задана переменная YANDEX_CALDAV_PASSWORD".to_owned()),
        };
        let text = match endpoint {
            Some(text) => text,
            None => DEFAULT_CALDAV_ENDPOINT.to_owned(),
        };
        match read_url(text.as_str()) {
            Some(url) => Ok(
                CalendarSettings { username, password, calendar_name, endpoint: url.text },
            ),
            None => Err("адрес CalDAV некорректен".to_owned()),
        }
    }
}

// Addresses.

/// The address that `reqwest::Url` joins of an address and a reference; or its message.
pub uninterp spec fn url_joined(base: Seq<char>, part: Seq<char>) -> Result<Seq<char>, Seq<char>>;

/// Joins an address and a reference with `reqwest::Url::join`.
#[verifier::external_body]
fn join_url(base: &str, part: &str) -> (r: Result<String, String>)
    ensures
        agrees(r, url_joined(base@, part@)),
{
    match reqwest::Url::parse(base).and_then(|url| url.join(part)) {
        Ok(url) => Ok(url.to_string()),
        Err(error) => Err(error.to_string()),
    }
}

/// The request for one property of an address.
pub open spec fn property_request(property: Seq<char>) -> Seq<char> {
    "<d:propfind xmlns:d=\"DAV:\" xmlns:c=\"urn:ietf:params:xml:ns:caldav\"><d:prop><d:"@ + property
        + "/><c:"@ + property + "/></d:prop></d:propfind>"@
}

/// The request for one property of an address.
pub fn property_body(property: &str) -> (r: String)
    ensures
        r@ == property_request(property@),
{
    "<d:propfind xmlns:d=\"DAV:\" xmlns:c=\"urn:ietf:params:xml:ns:caldav\"><d:prop><d:".to_owned().concat(
    property).concat("/><c:").concat(property).concat("/></d:prop></d:propfind>")
}

/// The request for the calendars of an address.
pub const COLLECTIONS_BODY: &'static str = "<d:propfind xmlns:d=\"DAV:\" xmlns:c=\"urn:ietf:params:xml:ns:caldav\"><d:prop><d:displayname/><d:resourcetype/><d:current-user-privilege-set/><c:calendar-description/></d:prop></d:propfind>";

/// The address that an answer names for a property: the last one, which stands inside the property.
/// The address of the resource itself stands before it.
pub open spec fn property_reference(xml: Seq<char>, property: Seq<char>) -> Result<
    Seq<char>,
    Seq<char>,
> {
    let texts = texts_from(xml, "href"@, 0);
    if texts.len() > 0 {
        Ok(trim(texts.last()))
    } else {
        Err("CalDAV не вернул href для "@ + property)
    }
}

/// The address that an answer names for a property.
pub fn find_reference(xml: &str, property: &str) -> (r: Result<String, String>)
    ensures
        agrees(r, property_reference(xml@, property@)),
{
    let texts = xml_texts(xml, "href");
    if texts.len() > 0 {
        proof {
            assert(views(texts@).last() == texts@.last()@);
        }
        Ok(trimmed(texts[texts.len() - 1].as_str()))
    } else {
        Err("CalDAV не вернул href для ".to_owned().concat(property))
    }
}

/// The full address that an answer names for a property.
pub open spec fn property_address(
    base: Seq<char>,
    xml: Seq<char>,
    property: Seq<char>,
) -> Result<Seq<char>, Seq<char>> {
    match property_reference(xml, property) {
        Err(message) => Err(message),
        Ok(reference) => match url_joined(base, reference) {
            Ok(address) => Ok(address),
            Err(_) => Err("CalDAV вернул некорректный href"@),
        },
    }
}

/// The full address that an answer names for a property.
pub fn resolve_property(base: &str, xml: &str, property: &str) -> (r: Result<String, String>)
    ensures
        agrees(r, property_address(base@, xml@, property@)),
{
    match find_reference(xml, property) {
        Err(message) => Err(message),
        Ok(reference) => match join_url(base, reference.as_str()) {
            Ok(address) => Ok(address),
            Err(_) => Err("CalDAV вернул некорректный href".to_owned()),
        },
    }
}

// Calendars.

/// A calendar.
#[derive(Debug, PartialEq, Eq)]
pub struct CalendarCollection {
    pub href: String,
    pub display_name: String,
}

/// A calendar, mathematically.
pub ghost struct CollectionModel {
    pub href: Seq<char>,
    pub display_name: Seq<char>,
}

impl View for CalendarCollection {
    type V = CollectionModel;

    open spec fn view(&self) -> CollectionModel {
        CollectionModel { href: self.href@, display_name: self.display_name@ }
    }
}

impl CalendarCollection {
    /// A copy of the calendar.
    pub fn copy(&self) -> (r: CalendarCollection)
        ensures
            r@ == self@,
    {
        CalendarCollection { href: self.href.clone(), display_name: self.display_name.clone() }
    }

    /// The address at which an event of the calendar is stored.
    pub fn event_address(&self, id: &str) -> (r: Result<String, String>)
        ensures
            agrees(r, url_joined(self@.href, id@ + ".ics"@)),
    {
        join_url(self.href.as_str(), id.to_owned().concat(".ics").as_str())
    }
}

/// The reference and the name of the calendar that a part of an answer describes, if it does.
pub open spec fn described_calendar(response: Seq<char>) -> Option<CollectionModel> {
    let hrefs = texts_from(response, "href"@, 0);
    if hrefs.len() == 0 || !empty_tag_from(response, "calendar"@, 0) {
        None
    } else {
        let names = texts_from(response, "displayname"@, 0);
        Some(
            CollectionModel {
                href: trim(hrefs[0]),
                display_name: plain_text(
                    if names.len() > 0 {
                        names[0]
                    } else {
                        hrefs[0]
                    },
                ),
            },
        )
    }
}

/// Reads the calendar that a part of an answer describes, if it does.
pub fn describe_calendar(response: &str) -> (r: Option<CalendarCollection>)
    ensures
        view_option(r) == described_calendar(response@),
{
    let hrefs = xml_texts(response, "href");
    if hrefs.len() == 0 || !has_empty_xml_tag(response, "calendar") {
        return None;
    }
    let names = xml_texts(response, "displayname");
    proof {
        assert(views(hrefs@)[0] == hrefs@[0]@);
    }
    let display_name = if names.len() > 0 {
        proof {
            assert(views(names@)[0] == names@[0]@);
        }
        strip_xml_text(names[0].as_str())
    } else {
        strip_xml_text(hrefs[0].as_str())
    };
    Some(CalendarCollection { href: trimmed(hrefs[0].as_str()), display_name })
}

/// The calendars that the parts of an answer describe, with their full addresses.
pub open spec fn calendars_in(home: Seq<char>, responses: Seq<Seq<char>>) -> Result<
    Seq<CollectionModel>,
    Seq<char>,
>
    decreases responses.len(),
{
    if responses.len() == 0 {
        Ok(Seq::empty())
    } else {
        match calendars_in(home, responses.drop_last()) {
            Err(message) => Err(message),
            Ok(earlier) => match described_calendar(responses.last()) {
                None => Ok(earlier),
                Some(calendar) => match url_joined(home, calendar.href) {
                    Ok(href) => Ok(earlier.push(CollectionModel { href, ..calendar })),
                    Err(message) => Err(message),
                },
            },
        }
    }
}

proof fn lemma_calendars_error(home: Seq<char>, responses: Seq<Seq<char>>, n: int)
    requires
        0 <= n <= responses.len(),
        calendars_in(home, responses.take(n)) is Err,
    ensures
        calendars_in(home, responses) == calendars_in(home, responses.take(n)),
    decreases responses.len(),
{
    if n == responses.len() {
        assert(responses.take(n) =~= responses);
    } else {
        assert(responses.drop_last().take(n) =~= responses.take(n));
        lemma_calendars_error(home, responses.drop_last(), n);
    }
}

/// A list agrees with a mathematical one, or a message with a message.
pub open spec fn agrees_list<T: View>(r: Result<Vec<T>, String>, s: Result<Seq<T::V>, Seq<char>>) -> bool {
    match (r, s) {
        (Ok(items), Ok(model)) => views(items@) == model,
        (Err(message), Err(model)) => message@ == model,
        _ => false,
    }
}

/// Reads the calendars that an answer describes.
pub fn parse_calendar_collections(home: &str, xml: &str) -> (r: Result<
    Vec<CalendarCollection>,
    String,
>)
    ensures
        agrees_list(r, calendars_in(home@, blocks_from(xml@, "response"@, 0))),
{
    let responses = xml_blocks(xml, "response");
    let ghost model = views(responses@);
    let mut out: Vec<CalendarCollection> = Vec::new();
    let mut i: usize = 0;
    proof {
        assert(model.take(0).len() == 0);
        assert(views(out@) =~= Seq::<CollectionModel>::empty());
    }
    while i < responses.len()
        invariant
            i <= responses@.len(),
            model == views(responses@),
            model == blocks_from(xml@, "response"@, 0),
            calendars_in(home@, model.take(i as int)) == Ok::<Seq<CollectionModel>, Seq<char>>(
                views(out@),
            ),
        decreases responses.len() - i,
    {
        proof {
            assert(model.take(i + 1).drop_last() =~= model.take(i as int));
            assert(model.take(i + 1).last() == responses@[i as int]@);
        }
        if let Some(calendar) = describe_calendar(responses[i].as_str()) {
            match join_url(home, calendar.href.as_str()) {
                Ok(href) => {
                    out.push(CalendarCollection { href, display_name: calendar.display_name });
                },
                Err(message) => {
                    proof {
                        lemma_calendars_error(home@, model, i + 1);
                    }
                    return Err(message);
                },
            }
        }
        i += 1;
    }
    proof {
        assert(model.take(i as int) =~= model);
    }
    Ok(out)
}

/// The calendars with a name.
pub open spec fn calendars_named(calendars: Seq<CollectionModel>, name: Seq<char>) -> Seq<CollectionModel>
    decreases calendars.len(),
{
    if calendars.len() == 0 {
        Seq::empty()
    } else if calendars.last().display_name == name {
        calendars_named(calendars.drop_last(), name).push(calendars.last())
    } else {
        calendars_named(calendars.drop_last(), name)
    }
}

/// The names of calendars.
pub open spec fn calendar_names(calendars: Seq<CollectionModel>) -> Seq<Seq<char>> {
    Seq::new(calendars.len(), |i: int| calendars[i].display_name)
}

/// The calendar that is used: the only one with the requested name, or the only one there is.
pub open spec fn chosen_calendar(
    calendars: Seq<CollectionModel>,
    requested: Option<Seq<char>>,
) -> Result<CollectionModel, Seq<char>> {
    match requested {
        Some(name) => {
            let found = calendars_named(calendars, name);
            if found.len() == 1 {
                Ok(found[0])
            } else if found.len() == 0 {
                Err("CalDAV-календарь «"@ + name + "» не найден"@)
            } else {
                Err("имя CalDAV-календаря «"@ + name + "» неоднозначно"@)
            }
        },
        None => if calendars.len() == 1 {
            Ok(calendars[0])
        } else if calendars.len() == 0 {
            Err("не найден доступный для записи календарь CalDAV"@)
        } else {
            Err(
                "найдено несколько календарей ("@ + join(calendar_names(calendars), ", "@)
                    + "); задайте YANDEX_CALDAV_CALENDAR"@,
            )
        },
    }
}

fn select_named(calendars: &Vec<CalendarCollection>, name: &str) -> (r: Vec<CalendarCollection>)
    ensures
        views(r@) == calendars_named(views(calendars@), name@),
{
    let ghost model = views(calendars@);
    let mut out: Vec<CalendarCollection> = Vec::new();
    let mut i: usize = 0;
    proof {
        assert(model.take(0).len() == 0);
        assert(views(out@) =~= Seq::<CollectionModel>::empty());
    }
    while i < calendars.len()
        invariant
            i <= calendars@.len(),
            model == views(calendars@),
            views(out@) == calendars_named(model.take(i as int), name@),
        decreases calendars.len() - i,
    {
        proof {
            assert(model.take(i + 1).drop_last() =~= model.take(i as int));
            assert(model.take(i + 1).last() == calendars@[i as int]@);
        }
        if same(calendars[i].display_name.as_str(), name) {
            out.push(calendars[i].copy());
        }
        i += 1;
    }
    proof {
        assert(model.take(i as int) =~= model);
    }
    out
}

fn names_of(calendars: &Vec<CalendarCollection>) -> (r: Vec<String>)
    ensures
        views(r@) == calendar_names(views(calendars@)),
{
    let ghost all = calendar_names(views(calendars@));
    let mut out: Vec<String> = Vec::new();
    let mut i: usize = 0;
    while i < calendars.len()
        invariant
            i <= calendars@.len(),
            all == calendar_names(views(calendars@)),
            views(out@) == all.take(i as int),
        decreases calendars.len() - i,
    {
        let name = calendars[i].display_name.clone();
        proof {
            assert(all.take(i as int).push(name@) =~= all.take(i + 1));
        }
        out.push(name);
        i += 1;
    }
    proof {
        assert(all.take(i as int) =~= all);
    }
    out
}

/// Chooses the calendar that is used.
pub fn choose_calendar(
    calendars: &Vec<CalendarCollection>,
    requested: Option<&str>,
) -> (r: Result<CalendarCollection, String>)
    ensures
        agrees(
            r,
            chosen_calendar(
                views(calendars@),
                match requested {
                    Some(name) => Some(name@),
                    None => None,
                },
            ),
        ),
{
    match requested {
        Some(name) => {
            let found = select_named(calendars, name);
            if found.len() == 1 {
                proof {
                    assert(views(found@)[0] == found@[0]@);
                }
                Ok(found[0].copy())
            } else if found.len() == 0 {
                Err("CalDAV-календарь «".to_owned().concat(name).concat("» не найден"))
            } else {
                Err("имя CalDAV-календаря «".to_owned().concat(name).concat("» неоднозначно"))
            }
        },
        None => if calendars.len() == 1 {
            proof {
                assert(views(calendars@)[0] == calendars@[0]@);
            }
            Ok(calendars[0].copy())
        } else if calendars.len() == 0 {
            Err("не найден доступный для записи календарь CalDAV".to_owned())
        } else {
            let names = names_of(calendars);
            Err(
                "найдено несколько календарей (".to_owned().concat(
                    joined(names.as_slice(), ", ").as_str(),
                ).concat("); задайте YANDEX_CALDAV_CALENDAR"),
            )
        },
    }
}

/// The calendars that have a name.
pub open spec fn titled_calendars(calendars: Seq<CollectionModel>) -> Seq<CollectionModel>
    decreases calendars.len(),
{
    if calendars.len() == 0 {
        Seq::empty()
    } else if trim(calendars.last().display_name).len() > 0 {
        titled_calendars(calendars.drop_last()).push(calendars.last())
    } else {
        titled_calendars(calendars.drop_last())
    }
}

fn keep_titled(calendars: &Vec<CalendarCollection>) -> (r: Vec<CalendarCollection>)
    ensures
        views(r@) == titled_calendars(views(calendars@)),
{
    let ghost model = views(calendars@);
    let mut out: Vec<CalendarCollection> = Vec::new();
    let mut i: usize = 0;
    proof {
        assert(model.take(0).len() == 0);
        assert(views(out@) =~= Seq::<CollectionModel>::empty());
    }
    while i < calendars.len()
        invariant
            i <= calendars@.len(),
            model == views(calendars@),
            views(out@) == titled_calendars(model.take(i as int)),
        decreases calendars.len() - i,
    {
        proof {
            assert(model.take(i + 1).drop_last() =~= model.take(i as int));
            assert(model.take(i + 1).last() == calendars@[i as int]@);
        }
        if !is_blank(calendars[i].display_name.as_str()) {
            out.push(calendars[i].copy());
        }
        i += 1;
    }
    proof {
        assert(model.take(i as int) =~= model);
    }
    out
}

/// Chooses the calendar that is used among those that an answer describes.
pub fn select_calendar(home: &str, xml: &str, requested: Option<&str>) -> (r: Result<
    CalendarCollection,
    String,
>)
    ensures
        agrees(
            r,
            match calendars_in(home@, blocks_from(xml@, "response"@, 0)) {
                Err(message) => Err(message),
                Ok(calendars) => chosen_calendar(
                    titled_calendars(calendars),
                    match requested {
                        Some(name) => Some(name@),
                        None => None,
                    },
                ),
            },
        ),
{
    match parse_calendar_collections(home, xml) {
        Err(message) => Err(message),
        Ok(calendars) => choose_calendar(&keep_titled(&calendars), requested),
    }
}

/// Without a requested name, a calendar is chosen only where there is no other.
pub proof fn law_calendar_is_never_guessed(
    calendars: Seq<CollectionModel>,
    requested: Option<Seq<char>>,
)
    requires
        chosen_calendar(calendars, requested) is Ok,
    ensures
        requested is None ==> calendars.len() == 1,
        requested is Some ==> chosen_calendar(calendars, requested)->Ok_0.display_name
            == requested->Some_0,
        calendars.contains(chosen_calendar(calendars, requested)->Ok_0),
{
    if let Some(name) = requested {
        lemma_named(calendars, name);
        assert(calendars_named(calendars, name).contains(calendars_named(calendars, name)[0]));
    }
}

proof fn lemma_named(calendars: Seq<CollectionModel>, name: Seq<char>)
    ensures
        forall|i: int|
            0 <= i < calendars_named(calendars, name).len() ==> (#[trigger] calendars_named(
                calendars,
                name,
            )[i]).display_name == name && calendars.contains(calendars_named(calendars, name)[i]),
    decreases calendars.len(),
{
    if calendars.len() > 0 {
        let head = calendars.drop_last();
        lemma_named(head, name);
        let earlier = calendars_named(head, name);
        let found = calendars_named(calendars, name);
        assert forall|i: int| 0 <= i < found.len() implies (#[trigger] found[i]).display_name
            == name && calendars.contains(found[i]) by {
            if i < earlier.len() {
                assert(found[i] == earlier[i]);
                assert(head.contains(earlier[i]));
                let k = choose|k: int| 0 <= k < head.len() && head[k] == earlier[i];
                assert(calendars[k] == earlier[i]);
            } else {
                assert(calendars[calendars.len() - 1] == found[i]);
            }
        }
    }
}

/// A value in quotes is what stands between them, whatever that is.
pub proof fn law_quotes_are_taken_off(value: Seq<char>)
    ensures
        env_value(seq!['"'] + value + seq!['"']) == value,
        env_value(seq!['\''] + value + seq!['\'']) == value,
{
    assert((seq!['"'] + value + seq!['"']).subrange(1, 1 + value.len() as int) =~= value);
    assert((seq!['\''] + value + seq!['\'']).subrange(1, 1 + value.len() as int) =~= value);
}

/// Every variable of the file is read, in the order of its lines, and nothing else.
pub proof fn law_every_variable_is_read(all: Seq<Seq<char>>, path: Seq<char>, i: int)
    requires
        env_lines(all, path).1 is None,
        0 <= i < all.len(),
    ensures
        env_line(all[i], (i + 1) as nat, path) is Ok,
        env_line(all[i], (i + 1) as nat, path) matches Ok(Some(entry)) ==> env_lines(
            all,
            path,
        ).0.contains(entry),
        forall|entry: EnvModel| #[trigger]
            env_lines(all, path).0.contains(entry) ==> exists|k: int|
                0 <= k < all.len() && #[trigger] env_line(all[k], (k + 1) as nat, path) == Ok::<
                    Option<EnvModel>,
                    Seq<char>,
                >(Some(entry)),
    decreases all.len(),
{
    let head = all.drop_last();
    let earlier = env_lines(head, path).0;
    let last = env_line(all.last(), all.len(), path);
    assert(env_lines(head, path).1 is None);
    assert forall|entry: EnvModel| #[trigger] env_lines(all, path).0.contains(entry) implies exists|
        k: int,
    |
        0 <= k < all.len() && #[trigger] env_line(all[k], (k + 1) as nat, path) == Ok::<
            Option<EnvModel>,
            Seq<char>,
        >(Some(entry)) by {
        if earlier.contains(entry) {
            assert(head.len() > 0);
            law_every_variable_is_read(head, path, 0);
            let k = choose|k: int|
                0 <= k < head.len() && #[trigger] env_line(head[k], (k + 1) as nat, path) == Ok::<
                    Option<EnvModel>,
                    Seq<char>,
                >(Some(entry));
            assert(head[k] == all[k]);
            assert(env_line(all[k], (k + 1) as nat, path) == Ok::<Option<EnvModel>, Seq<char>>(
                Some(entry),
            ));
        } else {
            let at = choose|at: int|
                0 <= at < env_lines(all, path).0.len() && env_lines(all, path).0[at] == entry;
            assert(at == earlier.len()) by {
                if at < earlier.len() {
                    assert(earlier[at] == entry);
                }
            }
            assert(env_line(all[all.len() - 1], (all.len() - 1 + 1) as nat, path) == last);
        }
    }
    if i < head.len() {
        law_every_variable_is_read(head, path, i);
        assert(head[i] == all[i]);
        if let Ok(Some(entry)) = env_line(all[i], (i + 1) as nat, path) {
            let at = choose|at: int| 0 <= at < earlier.len() && earlier[at] == entry;
            assert(env_lines(all, path).0[at] == entry);
        }
    } else {
        if let Ok(Some(entry)) = last {
            assert(env_lines(all, path).0.last() == entry);
        }
    }
}

/// A variable that is not defined yet gets its first value of the file.
pub proof fn law_first_value_is_taken(entries: Seq<EnvModel>, defined: Seq<Seq<char>>, i: int)
    requires
        0 <= i < entries.len(),
        !defined.contains(entries[i].key),
        forall|k: int| 0 <= k < i ==> (#[trigger] entries[k]).key != entries[i].key,
    ensures
        fresh_entries(entries, defined).contains(entries[i]),
        forall|k: int|
            0 <= k < fresh_entries(entries, defined).len() && (#[trigger] fresh_entries(
                entries,
                defined,
            )[k]).key == entries[i].key ==> fresh_entries(entries, defined)[k] == entries[i],
    decreases entries.len(),
{
    let head = entries.drop_last();
    let earlier = fresh_entries(head, defined);
    if i < head.len() {
        assert(head[i] == entries[i]);
        assert forall|k: int| 0 <= k < i implies (#[trigger] head[k]).key != head[i].key by {
            assert(entries[k].key != entries[i].key);
        }
        law_first_value_is_taken(head, defined, i);
        let at = choose|at: int| 0 <= at < earlier.len() && earlier[at] == entries[i];
        assert(has_key(earlier, entries[i].key)) by {
            assert(earlier[at].key == entries[i].key);
        }
        assert(fresh_entries(entries, defined)[at] == entries[i]);
        assert forall|k: int|
            0 <= k < fresh_entries(entries, defined).len() && (#[trigger] fresh_entries(
                entries,
                defined,
            )[k]).key == entries[i].key implies fresh_entries(entries, defined)[k]
            == entries[i] by {
            if k < earlier.len() {
                assert(earlier[k].key == entries[i].key);
            }
        }
    } else {
        lemma_fresh_are_given(head, defined);
        assert(!has_key(earlier, entries[i].key)) by {
            if has_key(earlier, entries[i].key) {
                let at = choose|at: int|
                    0 <= at < earlier.len() && (#[trigger] earlier[at]).key == entries[i].key;
                assert(head.contains(earlier[at]));
                let k = choose|k: int| 0 <= k < head.len() && head[k] == earlier[at];
                assert(entries[k].key == entries[i].key);
            }
        }
        assert(fresh_entries(entries, defined).last() == entries[i]);
        assert forall|k: int|
            0 <= k < fresh_entries(entries, defined).len() && (#[trigger] fresh_entries(
                entries,
                defined,
            )[k]).key == entries[i].key implies fresh_entries(entries, defined)[k]
            == entries[i] by {
            if k < earlier.len() {
                assert(earlier[k].key == entries[i].key);
            }
        }
    }
}

/// What is taken of the file stands in it.
proof fn lemma_fresh_are_given(entries: Seq<EnvModel>, defined: Seq<Seq<char>>)
    ensures
        forall|k: int|
            0 <= k < fresh_entries(entries, defined).len() ==> entries.contains(
                #[trigger] fresh_entries(entries, defined)[k],
            ),
    decreases entries.len(),
{
    if entries.len() > 0 {
        let head = entries.drop_last();
        lemma_fresh_are_given(head, defined);
        assert forall|k: int| 0 <= k < fresh_entries(entries, defined).len() implies entries.contains(
            #[trigger] fresh_entries(entries, defined)[k],
        ) by {
            if k < fresh_entries(head, defined).len() {
                let entry = fresh_entries(head, defined)[k];
                assert(head.contains(entry));
                let at = choose|at: int| 0 <= at < head.len() && head[at] == entry;
                assert(entries[at] == entry);
            } else {
                assert(entries[entries.len() - 1] == fresh_entries(entries, defined)[k]);
            }
        }
    }
}

/// The account is the given one: its name, its password and the calendar that was asked for.
pub proof fn law_account_is_the_given_one(
    username: Seq<char>,
    password: Seq<char>,
    calendar_name: Option<Seq<char>>,
    endpoint: Option<Seq<char>>,
)
    ensures
        settings_of(Some(username), Some(password), calendar_name, endpoint) matches Ok(settings)
            ==> settings.username == username && settings.password == password
            && settings.calendar_name == calendar_name,
        settings_of(None, Some(password), calendar_name, endpoint) is Err,
        settings_of(Some(username), None, calendar_name, endpoint) is Err,
        settings_of(Some(username), Some(password), calendar_name, None) == settings_of(
            Some(username),
            Some(password),
            calendar_name,
            Some("https://caldav.yandex.ru"@),
        ),
{
}

/// The request for a property names it in both namespaces.
pub proof fn law_request_names_the_property(property: Seq<char>)
    ensures
        has_part(property_request(property), "<d:"@ + property + "/>"@),
        has_part(property_request(property), "<c:"@ + property + "/>"@),
{
    let head = "<d:propfind xmlns:d=\"DAV:\" xmlns:c=\"urn:ietf:params:xml:ns:caldav\"><d:prop><d:"@;
    let middle = "/><c:"@;
    let end = "/></d:prop></d:propfind>"@;
    reveal_strlit(
        "<d:propfind xmlns:d=\"DAV:\" xmlns:c=\"urn:ietf:params:xml:ns:caldav\"><d:prop><d:",
    );
    reveal_strlit("/><c:");
    reveal_strlit("/></d:prop></d:propfind>");
    reveal_strlit("<d:");
    reveal_strlit("<c:");
    reveal_strlit("/>");
    let start = head.subrange(0, head.len() - 3);
    assert(head =~= start + "<d:"@);
    assert(middle =~= "/>"@ + "<c:"@);
    let rest = end.subrange(2, end.len() as int);
    assert(end =~= "/>"@ + rest);
    let whole = property_request(property);
    assert(whole =~= start + ("<d:"@ + property + "/>"@) + ("<c:"@ + property + end));
    lemma_middle_part(start, "<d:"@ + property + "/>"@, "<c:"@ + property + end);
    assert(whole =~= (head + property + "/>"@) + ("<c:"@ + property + "/>"@) + rest);
    lemma_middle_part(head + property + "/>"@, "<c:"@ + property + "/>"@, rest);
}

/// The calendars of an account are those that its server describes, in their order, each with the
/// full address of its reference.
pub proof fn law_calendars_are_the_described_ones(
    home: Seq<char>,
    responses: Seq<Seq<char>>,
    i: int,
)
    requires
        calendars_in(home, responses) is Ok,
        0 <= i < responses.len(),
    ensures
        described_calendar(responses[i]) matches Some(calendar) ==> url_joined(
            home,
            calendar.href,
        ) is Ok && calendars_in(home, responses)->Ok_0.contains(
            CollectionModel {
                href: url_joined(home, calendar.href)->Ok_0,
                display_name: calendar.display_name,
            },
        ),
        calendars_in(home, responses)->Ok_0.len() <= responses.len(),
        (forall|k: int|
            0 <= k < responses.len() ==> described_calendar(#[trigger] responses[k]) is None)
            ==> calendars_in(home, responses)->Ok_0.len() == 0,
    decreases responses.len(),
{
    let head = responses.drop_last();
    let earlier = calendars_in(home, head)->Ok_0;
    let all = calendars_in(home, responses)->Ok_0;
    if head.len() > 0 {
        law_calendars_are_the_described_ones(
            home,
            head,
            if i < head.len() {
                i
            } else {
                0
            },
        );
    }
    if forall|k: int|
        0 <= k < responses.len() ==> described_calendar(#[trigger] responses[k]) is None {
        assert forall|k: int| 0 <= k < head.len() implies described_calendar(
            #[trigger] head[k],
        ) is None by {
            assert(described_calendar(responses[k]) is None);
        }
        assert(described_calendar(responses[responses.len() - 1]) is None);
    }
    if let Some(calendar) = described_calendar(responses[i]) {
        let found = CollectionModel {
            href: url_joined(home, calendar.href)->Ok_0,
            display_name: calendar.display_name,
        };
        if i < head.len() {
            assert(head[i] == responses[i]);
            let at = choose|at: int| 0 <= at < earlier.len() && earlier[at] == found;
            assert(all[at] == found);
        } else {
            assert(all.last() == found);
        }
    }
}

/// The calendars with a title are all those whose title is not blank, in their order; those of a name
/// are all that have it.
pub proof fn law_calendars_are_picked_by_title(calendars: Seq<CollectionModel>, name: Seq<char>)
    ensures
        titled_calendars(calendars) == calendars.filter(
            |calendar: CollectionModel| trim(calendar.display_name).len() > 0,
        ),
        calendars_named(calendars, name) == calendars.filter(
            |calendar: CollectionModel| calendar.display_name == name,
        ),
    decreases calendars.len(),
{
    reveal(Seq::filter);
    if calendars.len() > 0 {
        law_calendars_are_picked_by_title(calendars.drop_last(), name);
    }
}

/// The address of a property is the reference that the server gave, read from the address of the
/// request; without one there is no address.
pub proof fn law_property_is_where_the_server_says(
    base: Seq<char>,
    tag: Seq<char>,
    reference: Seq<char>,
    property: Seq<char>,
)
    requires
        is_element_name(tag),
        local_name(tag) == "href"@,
        trim(reference) == reference,
        forall|i: int|
            0 <= i < reference.len() ==> #[trigger] reference[i] != '<' && reference[i] != '>'
                && reference[i] != '&',
    ensures
        ({
            let xml = "<"@ + tag + ">"@ + reference + "</"@ + tag + ">"@;
            &&& property_reference(xml, property) == Ok::<Seq<char>, Seq<char>>(reference)
            &&& url_joined(base, reference) matches Ok(address) ==> property_address(
                base,
                xml,
                property,
            ) == Ok::<Seq<char>, Seq<char>>(address)
            &&& url_joined(base, reference) is Err ==> property_address(base, xml, property) is Err
        }),
{
    law_text_between_tags_is_read(tag, reference);
}

/// A value without quotes is taken as it is, up to a comment.
pub proof fn law_comments_are_left_out(value: Seq<char>, comment: Seq<char>)
    requires
        value.len() > 0,
        value[0] != '"',
        value[0] != '\'',
        !value.contains('#'),
    ensures
        env_value(value) == value,
        env_value(value + " #"@ + comment) == trim_end(value),
{
    reveal_strlit(" #");
    let part = " #"@;
    lemma_find_part(value, part, 0);
    if let Some(at) = find_part(value, part, 0) {
        assert(value.subrange(at, at + 2)[1] == '#');
        assert(value[at + 1] == '#');
    }
    let whole = value + part + comment;
    let n = value.len() as int;
    lemma_find_part(whole, part, 0);
    assert(whole.subrange(n, n + 2) =~= part);
    assert(occurs_at(whole, part, n));
    let found = find_part(whole, part, 0)->Some_0;
    if found < n {
        assert(whole.subrange(found, found + 2)[1] == '#');
        assert(whole[found + 1] == '#');
        if found + 1 < n {
            assert(value[found + 1] == '#');
        } else {
            assert(whole[n] == ' ');
        }
    }
    assert(found == n);
    assert(whole.take(n) =~= value);
    assert(whole[0] == value[0]);
}

} // verus!
