//! Updates of a task that the model sends in the last line of an answer.

use vstd::prelude::*;

use crate::fields::{
    blank, blanked, comma_run, cuts, element_stop, elements, is_json_space, leading_string,
    member_count, one_more, open_elements, part, place, place_behind, read_elements, read_string,
    spaces, standing, string_in, Layout, StandingModel,
};
use crate::json::{json_node, read_node, JsonNode, NodeModel};
use crate::numbers::{bounded_natural_of, natural_of, parse_u64};
use crate::text::{
    after_prefix, agrees, is_white, join, joined, lemma_views_push, rsplit_once_char, same,
    split_at_last, split_parts, split_text, starts_with_text, trim_end, trim_start, trimmed_end,
    trimmed_start, view_option, views, without_prefix,
};

verus! {

broadcast use lemma_views_push;

pub const TASK_UPDATE_PREFIX: &'static str = "TASK_UPDATE:";

/// What an answer changes in a TODO list: new facts, new points, and points that are done.
#[derive(Debug, PartialEq, Eq)]
pub struct TaskUpdate {
    pub f: Vec<String>,
    pub e: Vec<String>,
    pub v: Vec<String>,
    pub ed: Vec<u64>,
    pub vd: Vec<u64>,
    pub s: Option<String>,
}

/// An update, mathematically.
pub ghost struct UpdateModel {
    pub f: Seq<Seq<char>>,
    pub e: Seq<Seq<char>>,
    pub v: Seq<Seq<char>>,
    pub ed: Seq<u64>,
    pub vd: Seq<u64>,
    pub s: Option<Seq<char>>,
}

impl View for TaskUpdate {
    type V = UpdateModel;

    open spec fn view(&self) -> UpdateModel {
        UpdateModel {
            f: views(self.f@),
            e: views(self.e@),
            v: views(self.v@),
            ed: self.ed@,
            vd: self.vd@,
            s: view_option(self.s),
        }
    }
}

/// The update that changes nothing.
pub open spec fn empty_update() -> UpdateModel {
    UpdateModel {
        f: Seq::empty(),
        e: Seq::empty(),
        v: Seq::empty(),
        ed: Seq::empty(),
        vd: Seq::empty(),
        s: None,
    }
}

impl Default for TaskUpdate {
    fn default() -> (r: Self)
        ensures
            r@ == empty_update(),
    {
        let r = TaskUpdate {
            f: Vec::new(),
            e: Vec::new(),
            v: Vec::new(),
            ed: Vec::new(),
            vd: Vec::new(),
            s: None,
        };
        proof {
            assert(r@.f =~= Seq::empty());
            assert(r@.e =~= Seq::empty());
            assert(r@.v =~= Seq::empty());
        }
        r
    }
}

impl TaskUpdate {
    /// Whether the update changes nothing.
    pub fn is_empty(&self) -> (r: bool)
        ensures
            r == (self@ == empty_update()),
    {
        proof {
            let m = self@;
            let e = empty_update();
            if m.f.len() == 0 && m.e.len() == 0 && m.v.len() == 0 && m.ed.len() == 0 && m.vd.len()
                == 0 {
                assert(m.f =~= e.f);
                assert(m.e =~= e.e);
                assert(m.v =~= e.v);
                assert(m.ed =~= e.ed);
                assert(m.vd =~= e.vd);
            }
        }
        self.f.len() == 0 && self.e.len() == 0 && self.v.len() == 0 && self.ed.len() == 0
            && self.vd.len() == 0 && self.s.is_none()
    }
}

/// The message for an element of `ed` or `vd` that is neither a number nor a text.
pub const ODD_ID: &'static str = "data did not match any variant of untagged enum TaskId";

/// What `{:?}` prints for a text.
pub uninterp spec fn debug_text(s: Seq<char>) -> Seq<char>;

/// `format!("{:?}", s)`: the text in quotes, with Rust's escapes.
#[verifier::external_body]
pub(crate) fn debug_form(s: &str) -> (r: String)
    ensures
        r@ == debug_text(s@),
{
    format!("{:?}", s)
}

/// The texts of a JSON array of texts, if all of them are texts.
pub open spec fn texts_in(text: Seq<char>) -> Option<Seq<Seq<char>>> {
    match json_node(text) {
        Ok(NodeModel::Array(items)) => if forall|i: int|
            0 <= i < items.len() ==> string_in(#[trigger] items[i]) is Some {
            Some(Seq::new(items.len(), |i: int| string_in(items[i])->Some_0))
        } else {
            None
        },
        _ => None,
    }
}

/// The message of `serde_json::from_str` on a text that is no list of texts.
pub uninterp spec fn texts_fault(text: Seq<char>) -> Seq<char>;

/// Reads a list of texts with `serde_json::from_str`. It reads what its reading of a JSON value
/// shows as an array of strings, and gives a message for every other text.
#[verifier::external_body]
fn read_texts(text: &str) -> (r: Result<Vec<String>, String>)
    ensures
        agrees_texts(
            r,
            match texts_in(text@) {
                Some(texts) => Ok(texts),
                None => Err(texts_fault(text@)),
            },
        ),
{
    serde_json::from_str::<Vec<String>>(text).map_err(|error| error.to_string())
}

/// The text of a JSON string, or none for `null`, if it is one of the two.
pub open spec fn optional_text_in(text: Seq<char>) -> Option<Option<Seq<char>>> {
    match json_node(text) {
        Ok(NodeModel::Null) => Some(None),
        Ok(NodeModel::Text(value)) => Some(Some(value)),
        _ => None,
    }
}

/// The message of `serde_json::from_str` on a text that is neither a string nor `null`.
pub uninterp spec fn optional_text_fault(text: Seq<char>) -> Seq<char>;

/// Reads a text or `null` with `serde_json::from_str`. It reads what its reading of a JSON value
/// shows as a string or as `null`, and gives a message for every other text.
#[verifier::external_body]
fn read_optional_text(text: &str) -> (r: Result<Option<String>, String>)
    ensures
        match (r, optional_text_in(text@)) {
            (Ok(value), Some(model)) => view_option(value) == model,
            (Err(message), None) => message@ == optional_text_fault(text@),
            _ => false,
        },
{
    serde_json::from_str::<Option<String>>(text).map_err(|error| error.to_string())
}

/// Whether an element of `ed` or `vd` has the form of an identifier: a number, or a text.
pub open spec fn is_id(item: Seq<char>) -> bool {
    match json_node(item) {
        Ok(NodeModel::Number(digits)) => bounded_natural_of(digits, u64::MAX as nat) is Some,
        Ok(NodeModel::Text(_)) => true,
        _ => false,
    }
}

/// The position of the first element that has not the form of an identifier, or their number.
pub open spec fn first_odd(items: Seq<Seq<char>>) -> nat
    decreases items.len(),
{
    if items.len() == 0 || !is_id(items[0]) {
        0
    } else {
        1 + first_odd(items.skip(1))
    }
}

/// The identifier that an element of `ed` or `vd` stands for: a number, or digits in a text.
pub open spec fn json_id(item: Seq<char>) -> Result<u64, Seq<char>> {
    match json_node(item) {
        Ok(NodeModel::Number(digits)) => match bounded_natural_of(digits, u64::MAX as nat) {
            Some(id) => Ok(id as u64),
            None => Err(ODD_ID@),
        },
        Ok(NodeModel::Text(digits)) => match bounded_natural_of(digits, u64::MAX as nat) {
            Some(id) => Ok(id as u64),
            None => Err("ID пункта должен быть положительным целым числом: "@ + debug_text(digits)),
        },
        _ => Err(ODD_ID@),
    }
}

/// The identifiers that elements stand for, or the first refusal.
pub open spec fn ids_in(items: Seq<Seq<char>>) -> Result<Seq<u64>, Seq<char>>
    decreases items.len(),
{
    if items.len() == 0 {
        Ok(Seq::empty())
    } else {
        match ids_in(items.drop_last()) {
            Err(message) => Err(message),
            Ok(head) => match json_id(items.last()) {
                Err(message) => Err(message),
                Ok(id) => Ok(head.push(id)),
            },
        }
    }
}

/// The identifiers of a JSON array of identifiers. Its elements are all read before any text is
/// taken for a number.
pub open spec fn json_ids(items: Seq<Seq<char>>) -> Result<Seq<u64>, Seq<char>> {
    if first_odd(items) < items.len() {
        Err(ODD_ID@)
    } else {
        ids_in(items)
    }
}

// The fields of an update. What is wrong with them is said in the words of `serde_json`, with the
// place at which it stops reading a struct.

/// A value in its place: whitespace stands for what precedes it.
pub open spec fn placed(before: Seq<char>, value: Seq<char>) -> Seq<char> {
    blanked(before) + value
}

/// The text up to where the reading of an array stops that goes wrong behind an element: behind the
/// last bracket, or before the next element.
pub open spec fn element_end(text: Seq<char>, k: int) -> Seq<char> {
    let cut = cuts(text)[k + 1];
    if text[cut] == ']' {
        text.take(cut + 1)
    } else {
        text.take(cut + 1 + spaces(text.skip(cut + 1)))
    }
}

/// The text up to where reading stops behind a name or a value of an object: before the next
/// character that is no whitespace, or behind it where it closes the object.
pub open spec fn stop_in_object(json: Seq<char>, n: int) -> Seq<char> {
    let next = n + spaces(json.skip(n));
    if next < json.len() && json[next] == '}' {
        json.take(next + 1)
    } else {
        json.take(next)
    }
}

/// The text up to where reading stops behind an element of an array: before the next character that
/// is no whitespace, behind it where it closes the array, and before the next element where it is a
/// comma.
pub open spec fn stop_in_array(json: Seq<char>, n: int) -> Seq<char> {
    let next = n + spaces(json.skip(n));
    if next < json.len() && json[next] == ']' {
        json.take(next + 1)
    } else if next < json.len() && json[next] == ',' {
        json.take(next + 1 + spaces(json.skip(next + 1)))
    } else {
        json.take(next)
    }
}

/// The text up to where the reading of an object stops that goes wrong behind a member: behind the
/// last bracket, or before the comma.
pub open spec fn member_end(text: Seq<char>, j: int) -> Seq<char> {
    let cut = cuts(text)[2 * j + 2];
    if text[cut] == '}' {
        text.take(cut + 1)
    } else {
        text.take(cut)
    }
}

/// The texts of a value that stands behind `before`.
pub open spec fn texts_at(before: Seq<char>, value: Seq<char>) -> Result<
    Seq<Seq<char>>,
    Seq<char>,
> {
    match texts_in(placed(before, value)) {
        Some(texts) => Ok(texts),
        None => Err(texts_fault(placed(before, value))),
    }
}

/// The text of a value that stands behind `before`; `null` is none.
pub open spec fn text_at(before: Seq<char>, value: Seq<char>) -> Result<
    Option<Seq<char>>,
    Seq<char>,
> {
    match optional_text_in(placed(before, value)) {
        Some(text) => Ok(text),
        None => Err(optional_text_fault(placed(before, value))),
    }
}

/// The identifiers of a value that stands behind `before`. Reading stops behind `end` where a text
/// is no identifier.
pub open spec fn ids_at(before: Seq<char>, value: Seq<char>, end: Seq<char>) -> Result<
    Seq<u64>,
    Seq<char>,
> {
    match json_node(placed(before, value)) {
        Ok(NodeModel::Array(_)) => {
            let items = elements(value);
            if first_odd(items) < items.len() {
                Err(ODD_ID@ + place(before + element_end(value, first_odd(items) as int)))
            } else {
                match ids_in(items) {
                    Ok(ids) => Ok(ids),
                    Err(message) => Err(message + place(end)),
                }
            }
        },
        _ => Err(texts_fault(placed(before, value))),
    }
}

/// The fields of an update that were read so far.
pub ghost struct FieldsModel {
    pub f: Option<Seq<Seq<char>>>,
    pub e: Option<Seq<Seq<char>>>,
    pub v: Option<Seq<Seq<char>>>,
    pub ed: Option<Seq<u64>>,
    pub vd: Option<Seq<u64>>,
    pub s: Option<Option<Seq<char>>>,
}

/// Nothing was read yet.
pub open spec fn no_fields() -> FieldsModel {
    FieldsModel { f: None, e: None, v: None, ed: None, vd: None, s: None }
}

/// The names of the fields of an update.
pub open spec fn is_update_key(key: Seq<char>) -> bool {
    key == "f"@ || key == "e"@ || key == "v"@ || key == "ed"@ || key == "vd"@ || key == "s"@
}

/// Whether a field was read.
pub open spec fn is_read(fields: FieldsModel, key: Seq<char>) -> bool {
    ||| key == "f"@ && fields.f is Some
    ||| key == "e"@ && fields.e is Some
    ||| key == "v"@ && fields.v is Some
    ||| key == "ed"@ && fields.ed is Some
    ||| key == "vd"@ && fields.vd is Some
    ||| key == "s"@ && fields.s is Some
}

/// What is wrong with the name of a member behind which the text `at` ends, if anything is: it is
/// not the name of a field, or it was read before.
pub open spec fn key_fault(fields: FieldsModel, key: Seq<char>, at: Seq<char>) -> Option<
    Seq<char>,
> {
    if !is_update_key(key) {
        Some(
            "unknown field `"@ + key + "`, expected one of `f`, `e`, `v`, `ed`, `vd`, `s`"@ + place(
                at,
            ),
        )
    } else if is_read(fields, key) {
        Some("duplicate field `"@ + key + "`"@ + place(at))
    } else {
        None
    }
}

/// The fields with one more, whose value stands behind `before`.
pub open spec fn field_read(
    fields: FieldsModel,
    key: Seq<char>,
    before: Seq<char>,
    value: Seq<char>,
    end: Seq<char>,
) -> Result<FieldsModel, Seq<char>> {
    if key == "f"@ || key == "e"@ || key == "v"@ {
        match texts_at(before, value) {
            Err(message) => Err(message),
            Ok(texts) => Ok(
                if key == "f"@ {
                    FieldsModel { f: Some(texts), ..fields }
                } else if key == "e"@ {
                    FieldsModel { e: Some(texts), ..fields }
                } else {
                    FieldsModel { v: Some(texts), ..fields }
                },
            ),
        }
    } else if key == "ed"@ || key == "vd"@ {
        match ids_at(before, value, end) {
            Err(message) => Err(message),
            Ok(ids) => Ok(
                if key == "ed"@ {
                    FieldsModel { ed: Some(ids), ..fields }
                } else {
                    FieldsModel { vd: Some(ids), ..fields }
                },
            ),
        }
    } else {
        match text_at(before, value) {
            Err(message) => Err(message),
            Ok(text) => Ok(FieldsModel { s: Some(text), ..fields }),
        }
    }
}

/// What is wrong with a value that is no JSON before it breaks off. A value that is complete leaves
/// characters behind, unless they are what is wrong.
pub open spec fn part_fault(message: Seq<char>, is_last: bool) -> Option<Seq<char>> {
    if "trailing characters"@.is_prefix_of(message) && !is_last {
        None
    } else {
        Some(message)
    }
}

/// The length of the longest beginning of a text that is JSON, up to `n` characters.
pub open spec fn longest_json(text: Seq<char>, n: nat) -> nat
    decreases n,
{
    if n == 0 || json_node(text.take(n as int)) is Ok {
        n
    } else {
        longest_json(text, (n - 1) as nat)
    }
}

/// The value with which a text begins that goes on behind it, or else the text.
pub open spec fn value_at_start(text: Seq<char>) -> Seq<char> {
    match json_node(text) {
        Err(message) if "trailing characters"@.is_prefix_of(message) => text.take(
            longest_json(text, text.len()) as int,
        ),
        _ => text,
    }
}

/// What is wrong with identifiers that stand behind `before`, as far as they are JSON. `listed` says
/// that they stand in an array of fields.
pub open spec fn broken_ids(before: Seq<char>, rest: Seq<char>, listed: bool) -> Option<
    Seq<char>,
> {
    let at = spaces(rest) as int;
    if at < rest.len() && rest[at] == '[' {
        let items = open_elements(rest);
        let k = first_odd(items) as int;
        let n = before.len() + element_stop(rest, items.len() - 1) + 1;
        if k < items.len() {
            let value = value_at_start(items[k]);
            if json_node(value) is Ok && !is_id(value) {
                Some(
                    ODD_ID@ + place(
                        stop_in_array(
                            before + rest,
                            before.len() + cuts(rest)[k] + 1 + value.len(),
                        ),
                    ),
                )
            } else {
                None
            }
        } else if element_stop(rest, items.len() - 1) < rest.len() && rest[element_stop(
            rest,
            items.len() - 1,
        )] == ']' {
            match ids_in(items) {
                Ok(_) => None,
                Err(message) => Some(
                    message + place(
                        if listed {
                            stop_in_array(before + rest, n)
                        } else {
                            stop_in_object(before + rest, n)
                        },
                    ),
                ),
            }
        } else {
            None
        }
    } else {
        match texts_in(placed(before, rest)) {
            Some(_) => None,
            None => Some(texts_fault(placed(before, rest))),
        }
    }
}

/// What is wrong with the value of a field that stands behind `before`, as far as it is JSON.
pub open spec fn broken_value(
    key: Seq<char>,
    before: Seq<char>,
    rest: Seq<char>,
    listed: bool,
) -> Option<Seq<char>> {
    if key == "f"@ || key == "e"@ || key == "v"@ {
        match texts_in(placed(before, rest)) {
            Some(_) => None,
            None => part_fault(texts_fault(placed(before, rest)), false),
        }
    } else if key == "ed"@ || key == "vd"@ {
        broken_ids(before, rest, listed)
    } else {
        match optional_text_in(placed(before, rest)) {
            Some(_) => None,
            None => part_fault(optional_text_fault(placed(before, rest)), listed),
        }
    }
}

/// What is wrong with a member of an object that begins at `start`, as far as it is JSON.
pub open spec fn broken_member(json: Seq<char>, fields: FieldsModel, start: int) -> Option<
    Seq<char>,
> {
    match leading_string(json, start) {
        None => None,
        Some(end) => match string_in(json.subrange(start, end)) {
            None => None,
            Some(key) => match key_fault(fields, key, stop_in_object(json, end)) {
                Some(message) => Some(message),
                None => {
                    let colon = end + spaces(json.skip(end));
                    if colon < json.len() && json[colon] == ':' {
                        broken_value(key, json.take(colon + 1), json.skip(colon + 1), false)
                    } else {
                        None
                    }
                },
            },
        },
    }
}

/// Whether a member of an object follows where it may, and is JSON.
pub open spec fn is_member(json: Seq<char>, j: int) -> bool {
    let end = json[cuts(json)[2 * j + 2]];
    &&& json[cuts(json)[2 * j + 1]] == ':'
    &&& end == ',' || end == '}'
    &&& string_in(part(json, 2 * j)) is Some
    &&& json_node(part(json, 2 * j + 1)) is Ok
}

/// Whether a cut leads to another member of an object.
pub open spec fn leads_on(json: Seq<char>, k: int) -> bool {
    json[cuts(json)[k]] == '{' || json[cuts(json)[k]] == ','
}

/// The fields with one more member of an object. `Err(None)` says that the text is no JSON from here
/// on, and nothing else is wrong.
pub open spec fn member_read(json: Seq<char>, fields: FieldsModel, j: int) -> Result<
    FieldsModel,
    Option<Seq<char>>,
> {
    let colon = cuts(json)[2 * j + 1];
    let key = string_in(part(json, 2 * j))->Some_0;
    if !leads_on(json, 2 * j) {
        Err(None)
    } else if !is_member(json, j) {
        Err(broken_member(json, fields, cuts(json)[2 * j] + 1))
    } else {
        match key_fault(fields, key, json.take(colon)) {
            Some(message) => Err(Some(message)),
            None => match field_read(
                fields,
                key,
                json.take(colon + 1),
                part(json, 2 * j + 1),
                member_end(json, j),
            ) {
                Ok(after) => Ok(after),
                Err(message) => Err(Some(message)),
            },
        }
    }
}

/// The fields that the first members of an object name, in their order, or the first refusal.
pub open spec fn members_read(json: Seq<char>, n: nat) -> Result<FieldsModel, Option<Seq<char>>>
    decreases n,
{
    if n == 0 {
        Ok(no_fields())
    } else {
        match members_read(json, (n - 1) as nat) {
            Err(fault) => Err(fault),
            Ok(fields) => member_read(json, fields, n - 1),
        }
    }
}

/// The fields that an object names. A last member that is cut short is looked at, too.
pub open spec fn object_read(json: Seq<char>) -> Result<FieldsModel, Option<Seq<char>>> {
    let n = member_count(json) as int;
    match members_read(json, n as nat) {
        Err(fault) => Err(fault),
        Ok(fields) => if 2 * n < cuts(json).len() && leads_on(json, 2 * n) {
            match broken_member(json, fields, cuts(json)[2 * n] + 1) {
                Some(message) => Err(Some(message)),
                None => Ok(fields),
            }
        } else {
            Ok(fields)
        },
    }
}

/// The name of a field of an update that is given as a list.
pub open spec fn field_name(k: int) -> Seq<char> {
    if k == 0 {
        "f"@
    } else if k == 1 {
        "e"@
    } else if k == 2 {
        "v"@
    } else if k == 3 {
        "ed"@
    } else if k == 4 {
        "vd"@
    } else {
        "s"@
    }
}

/// Whether nothing follows behind a cut of an array but its end.
pub open spec fn ends_array(json: Seq<char>, k: int) -> bool {
    let at = cuts(json)[k] + 1;
    let next = at + spaces(json.skip(at));
    next == json.len() || json[next] == ']'
}

/// The fields with one more element of an array. `Err(None)` says that the text is no JSON from here
/// on, and nothing else is wrong.
pub open spec fn element_read(json: Seq<char>, fields: FieldsModel, k: int) -> Result<
    FieldsModel,
    Option<Seq<char>>,
> {
    let at = cuts(json)[k] + 1;
    let stop = element_stop(json, k);
    let value = json.subrange(at, stop);
    if ends_array(json, k) {
        Ok(fields)
    } else if stop < json.len() && (json[stop] == ',' || json[stop] == ']') && json_node(
        value,
    ) is Ok {
        match field_read(fields, field_name(k), json.take(at), value, element_end(json, k)) {
            Ok(after) => Ok(after),
            Err(message) => Err(Some(message)),
        }
    } else {
        Err(broken_value(field_name(k), json.take(at), json.skip(at), true))
    }
}

/// The fields that the first elements of an array give, or the first refusal.
pub open spec fn elements_read(json: Seq<char>, n: nat) -> Result<FieldsModel, Option<Seq<char>>>
    decreases n,
{
    if n == 0 {
        Ok(no_fields())
    } else {
        match elements_read(json, (n - 1) as nat) {
            Err(fault) => Err(fault),
            Ok(fields) => element_read(json, fields, n - 1),
        }
    }
}

/// The number of the fields of an update.
pub const FIELD_COUNT: usize = 6;

/// The fields that an array gives: no more than there are.
pub open spec fn array_read(json: Seq<char>) -> Result<FieldsModel, Option<Seq<char>>> {
    let n = 1 + comma_run(json, 1);
    let last = cuts(json)[FIELD_COUNT as int] + 1;
    if n <= FIELD_COUNT {
        elements_read(json, n)
    } else {
        match elements_read(json, FIELD_COUNT as nat) {
            Err(fault) => Err(fault),
            Ok(fields) => if last + spaces(json.skip(last)) < json.len() && json[last + spaces(
                json.skip(last),
            )] == ']' {
                Ok(fields)
            } else {
                Err(
                    Some(
                        "trailing characters"@ + place(
                            one_more(json, element_end(json, FIELD_COUNT - 1).len()),
                        ),
                    ),
                )
            },
        }
    }
}

/// The update with the fields that were read; a missing field holds nothing.
pub open spec fn update_with(fields: FieldsModel) -> UpdateModel {
    UpdateModel {
        f: texts_or_none(fields.f),
        e: texts_or_none(fields.e),
        v: texts_or_none(fields.v),
        ed: ids_or_none(fields.ed),
        vd: ids_or_none(fields.vd),
        s: match fields.s {
            Some(text) => text,
            None => None,
        },
    }
}

/// The texts of a field, or none.
pub open spec fn texts_or_none(field: Option<Seq<Seq<char>>>) -> Seq<Seq<char>> {
    match field {
        Some(texts) => texts,
        None => Seq::empty(),
    }
}

/// The identifiers of a field, or none.
pub open spec fn ids_or_none(field: Option<Seq<u64>>) -> Seq<u64> {
    match field {
        Some(ids) => ids,
        None => Seq::empty(),
    }
}

/// What is wrong with a text that is neither an object nor an array: a struct was expected.
pub open spec fn struct_fault(json: Seq<char>) -> Seq<char> {
    let message = match texts_in(json) {
        Some(_) => Seq::empty(),
        None => texts_fault(json),
    };
    let pieces = split_parts(message, ", expected a sequence"@);
    if pieces.len() < 2 {
        message
    } else {
        join(pieces.drop_last(), ", expected a sequence"@) + ", expected struct TaskUpdate"@
            + pieces.last()
    }
}

/// Whether a text starts with a bracket, behind whitespace.
pub open spec fn starts_with_bracket(json: Seq<char>, bracket: char) -> bool {
    &&& cuts(json).len() > 0
    &&& json[cuts(json)[0]] == bracket
    &&& spaces(json) == cuts(json)[0]
}

/// The fields of an update, named by an object or listed by an array. `Err(None)` says that nothing
/// is wrong with the fields as far as the text is JSON.
pub open spec fn fields_in(json: Seq<char>) -> Result<FieldsModel, Option<Seq<char>>> {
    if starts_with_bracket(json, '{') {
        object_read(json)
    } else if starts_with_bracket(json, '[') {
        array_read(json)
    } else {
        Err(Some(struct_fault(json)))
    }
}

/// The update that a JSON text stands for. An object names the fields, each at most once; an array
/// lists them. A text that is no JSON is refused for the first thing that is wrong in it: a field, or
/// else what the message of `serde_json` says.
pub open spec fn update_of(json: Seq<char>) -> Result<UpdateModel, Seq<char>> {
    match (json_node(json), fields_in(json)) {
        (_, Err(Some(message))) => Err(message),
        (Err(message), _) => Err(message),
        (Ok(_), Ok(fields)) => Ok(update_with(fields)),
        (Ok(_), Err(None)) => Err(struct_fault(json)),
    }
}

/// The names of the fields that tell an update from another object.
pub open spec fn marks_update(key: Seq<char>) -> bool {
    key == "f"@ || key == "e"@ || key == "v"@ || key == "ed"@ || key == "vd"@
}

/// Whether one of the members tells that the object is an update.
pub open spec fn has_mark(members: Seq<(Seq<char>, Seq<char>)>) -> bool {
    exists|i: int| 0 <= i < members.len() && marks_update((#[trigger] members[i]).0)
}

/// Whether a line is an update without its prefix: an object with a field that tells it apart.
pub open spec fn is_bare_update(line: Seq<char>) -> bool {
    match json_node(line) {
        Ok(NodeModel::Object(members)) => has_mark(members),
        _ => false,
    }
}

/// The JSON part of a line that holds an update.
pub open spec fn update_payload(line: Seq<char>) -> Option<Seq<char>> {
    match after_prefix(line, TASK_UPDATE_PREFIX@) {
        Some(rest) => Some(rest),
        None => match after_prefix(line, "TASK_UPDATE "@) {
            Some(rest) => Some(trim_start(rest)),
            None => if is_bare_update(line) {
                Some(line)
            } else {
                None
            },
        },
    }
}

/// The last line of a text without its trailing whitespace, and what stands before it.
pub open spec fn last_line_split(text: Seq<char>) -> (Seq<char>, Seq<char>) {
    match split_at_last(trim_end(text), '\n') {
        Some(parts) => parts,
        None => (Seq::empty(), trim_end(text)),
    }
}

/// The visible part of an answer.
pub open spec fn visible_text(text: Seq<char>) -> Seq<char> {
    if update_payload(last_line_split(text).1) is Some {
        trim_end(last_line_split(text).0)
    } else {
        text
    }
}

/// The update at the end of an answer, or why it cannot be read.
pub open spec fn answer_update(text: Seq<char>) -> Option<Result<UpdateModel, Seq<char>>> {
    match update_payload(last_line_split(text).1) {
        None => None,
        Some(json) => match update_of(json) {
            Ok(update) => Some(Ok(update)),
            Err(message) => Some(Err("некорректный TASK_UPDATE: "@ + message)),
        },
    }
}

proof fn lemma_ids_error(items: Seq<Seq<char>>, n: int)
    requires
        0 <= n <= items.len(),
        ids_in(items.take(n)) is Err,
    ensures
        ids_in(items) == ids_in(items.take(n)),
    decreases items.len(),
{
    if n == items.len() {
        assert(items.take(n) =~= items);
    } else {
        assert(items.drop_last().take(n) =~= items.take(n));
        lemma_ids_error(items.drop_last(), n);
    }
}

proof fn lemma_first_odd(items: Seq<Seq<char>>, at: int)
    requires
        0 <= at <= items.len(),
        forall|i: int| 0 <= i < at ==> is_id(#[trigger] items[i]),
        at < items.len() ==> !is_id(items[at]),
    ensures
        first_odd(items) == at,
    decreases items.len(),
{
    if at > 0 {
        assert(is_id(items[0]));
        let rest = items.skip(1);
        assert forall|i: int| 0 <= i < at - 1 implies is_id(#[trigger] rest[i]) by {
            assert(rest[i] == items[i + 1]);
        }
        lemma_first_odd(rest, at - 1);
    }
}

proof fn lemma_members_error(json: Seq<char>, n: nat, m: nat)
    requires
        n <= m,
        members_read(json, n) is Err,
    ensures
        members_read(json, m) == members_read(json, n),
    decreases m,
{
    if n < m {
        lemma_members_error(json, n, (m - 1) as nat);
    }
}

proof fn lemma_elements_error(json: Seq<char>, n: nat, m: nat)
    requires
        n <= m,
        elements_read(json, n) is Err,
    ensures
        elements_read(json, m) == elements_read(json, n),
    decreases m,
{
    if n < m {
        lemma_elements_error(json, n, (m - 1) as nat);
    }
}

/// A list of texts shows what a mathematical result says.
pub open spec fn agrees_texts(
    r: Result<Vec<String>, String>,
    s: Result<Seq<Seq<char>>, Seq<char>>,
) -> bool {
    match (r, s) {
        (Ok(value), Ok(model)) => views(value@) == model,
        (Err(message), Err(model)) => message@ == model,
        _ => false,
    }
}

fn has_id_form(item: &str) -> (r: bool)
    ensures
        r == is_id(item@),
{
    match read_node(item) {
        Ok(JsonNode::Number(digits)) => parse_u64(digits.as_str()).is_some(),
        Ok(JsonNode::Text(_)) => true,
        _ => false,
    }
}

fn find_odd(items: &Vec<String>) -> (r: usize)
    ensures
        r == first_odd(views(items@)),
        r <= items@.len(),
{
    let ghost model = views(items@);
    let mut i: usize = 0;
    while i < items.len()
        invariant
            i <= items@.len(),
            model == views(items@),
            forall|k: int| 0 <= k < i ==> is_id(#[trigger] model[k]),
        decreases items.len() - i,
    {
        if !has_id_form(items[i].as_str()) {
            proof {
                lemma_first_odd(model, i as int);
            }
            return i;
        }
        proof {
            assert(is_id(model[i as int]));
        }
        i += 1;
    }
    proof {
        lemma_first_odd(model, i as int);
    }
    i
}

fn read_id(item: &str) -> (r: Result<u64, String>)
    ensures
        agrees(r, json_id(item@)),
{
    match read_node(item) {
        Ok(JsonNode::Number(digits)) => match parse_u64(digits.as_str()) {
            Some(id) => Ok(id),
            None => Err(ODD_ID.to_owned()),
        },
        Ok(JsonNode::Text(digits)) => match parse_u64(digits.as_str()) {
            Some(id) => Ok(id),
            None => Err(
                "ID пункта должен быть положительным целым числом: ".to_owned().concat(
                    debug_form(digits.as_str()).as_str(),
                ),
            ),
        },
        _ => Err(ODD_ID.to_owned()),
    }
}

/// A list of identifiers shows what a mathematical result says.
pub open spec fn agrees_ids(r: Result<Vec<u64>, String>, s: Result<Seq<u64>, Seq<char>>) -> bool {
    match (r, s) {
        (Ok(ids), Ok(model)) => ids@ == model,
        (Err(message), Err(model)) => message@ == model,
        _ => false,
    }
}

fn read_ids(items: &Vec<String>) -> (r: Result<Vec<u64>, String>)
    ensures
        agrees_ids(r, ids_in(views(items@))),
{
    let ghost model = views(items@);
    let mut out: Vec<u64> = Vec::new();
    let mut i: usize = 0;
    proof {
        assert(model.take(0).len() == 0);
        assert(out@ =~= Seq::<u64>::empty());
    }
    while i < items.len()
        invariant
            i <= items@.len(),
            model == views(items@),
            ids_in(model.take(i as int)) == Ok::<Seq<u64>, Seq<char>>(out@),
        decreases items.len() - i,
    {
        proof {
            assert(model.take(i + 1).drop_last() =~= model.take(i as int));
        }
        match read_id(items[i].as_str()) {
            Ok(id) => {
                out.push(id);
            },
            Err(message) => {
                proof {
                    lemma_ids_error(model, i + 1);
                }
                return Err(message);
            },
        }
        i += 1;
    }
    proof {
        assert(model.take(i as int) =~= model);
    }
    Ok(out)
}

/// Reads the identifiers of an array whose elements are numbers or texts of digits.
pub fn deserialize_task_ids(items: &Vec<String>) -> (r: Result<Vec<u64>, String>)
    ensures
        agrees_ids(r, json_ids(views(items@))),
{
    if find_odd(items) < items.len() {
        Err(ODD_ID.to_owned())
    } else {
        read_ids(items)
    }
}

fn put_in_place(before: &str, value: &str) -> (r: String)
    ensures
        r@ == placed(before@, value@),
{
    blank(before).concat(value)
}

fn stop_behind_element(layout: &Layout, k: usize) -> (r: String)
    requires
        layout.wf(),
        k + 1 < cuts(layout@).len(),
        cuts(layout@).len() <= usize::MAX,
    ensures
        r@ == element_end(layout@, k as int),
{
    let cut = layout.cut_at(k + 1);
    let size = layout.size();
    if layout.char_at(cut) == ']' {
        layout.first(cut + 1)
    } else {
        layout.first(layout.skip_spaces(cut + 1))
    }
}

fn find_stop_in_object(layout: &Layout, n: usize) -> (r: String)
    requires
        n <= layout@.len(),
    ensures
        r@ == stop_in_object(layout@, n as int),
{
    let size = layout.size();
    let next = layout.skip_spaces(n);
    if next < size && layout.char_at(next) == '}' {
        layout.first(next + 1)
    } else {
        layout.first(next)
    }
}

fn find_stop_in_array(layout: &Layout, n: usize) -> (r: String)
    requires
        n <= layout@.len(),
    ensures
        r@ == stop_in_array(layout@, n as int),
{
    let size = layout.size();
    let next = layout.skip_spaces(n);
    if next < size && layout.char_at(next) == ']' {
        layout.first(next + 1)
    } else if next < size && layout.char_at(next) == ',' {
        layout.first(layout.skip_spaces(next + 1))
    } else {
        layout.first(next)
    }
}

fn read_ids_at(before: &str, value: &str, end: &str) -> (r: Result<Vec<u64>, String>)
    ensures
        agrees_ids(r, ids_at(before@, value@, end@)),
{
    let text = put_in_place(before, value);
    match read_node(text.as_str()) {
        Ok(JsonNode::Array(_)) => {
            let layout = Layout::of(value);
            let count = layout.cut_count();
            let items = read_elements(&layout);
            let odd = find_odd(&items);
            if odd < items.len() {
                let stop = stop_behind_element(&layout, odd);
                Err(
                    ODD_ID.to_owned().concat(
                        place_behind(before.to_owned().concat(stop.as_str()).as_str()).as_str(),
                    ),
                )
            } else {
                match read_ids(&items) {
                    Ok(ids) => Ok(ids),
                    Err(message) => Err(message.concat(place_behind(end).as_str())),
                }
            }
        },
        _ => match read_texts(text.as_str()) {
            Err(message) => Err(message),
            Ok(_) => Err(String::new()),
        },
    }
}

struct Fields {
    f: Option<Vec<String>>,
    e: Option<Vec<String>>,
    v: Option<Vec<String>>,
    ed: Option<Vec<u64>>,
    vd: Option<Vec<u64>>,
    s: Option<Option<String>>,
}

spec fn texts_model(field: Option<Vec<String>>) -> Option<Seq<Seq<char>>> {
    match field {
        Some(texts) => Some(views(texts@)),
        None => None,
    }
}

spec fn ids_model(field: Option<Vec<u64>>) -> Option<Seq<u64>> {
    match field {
        Some(ids) => Some(ids@),
        None => None,
    }
}

impl Fields {
    closed spec fn model(&self) -> FieldsModel {
        FieldsModel {
            f: texts_model(self.f),
            e: texts_model(self.e),
            v: texts_model(self.v),
            ed: ids_model(self.ed),
            vd: ids_model(self.vd),
            s: match self.s {
                Some(text) => Some(view_option(text)),
                None => None,
            },
        }
    }

    fn find_key_fault(&self, key: &str, at: &str) -> (r: Option<String>)
        ensures
            view_option(r) == key_fault(self.model(), key@, at@),
    {
        let read = if same(key, "f") {
            self.f.is_some()
        } else if same(key, "e") {
            self.e.is_some()
        } else if same(key, "v") {
            self.v.is_some()
        } else if same(key, "ed") {
            self.ed.is_some()
        } else if same(key, "vd") {
            self.vd.is_some()
        } else if same(key, "s") {
            self.s.is_some()
        } else {
            return Some(
                "unknown field `".to_owned().concat(key).concat(
                    "`, expected one of `f`, `e`, `v`, `ed`, `vd`, `s`",
                ).concat(place_behind(at).as_str()),
            );
        };
        proof {
            lemma_names_differ();
        }
        if read {
            Some(
                "duplicate field `".to_owned().concat(key).concat("`").concat(
                    place_behind(at).as_str(),
                ),
            )
        } else {
            None
        }
    }

    fn read_field(&mut self, key: &str, before: &str, value: &str, end: &str) -> (r: Result<
        (),
        String,
    >)
        ensures
            match (r, field_read(old(self).model(), key@, before@, value@, end@)) {
                (Ok(()), Ok(model)) => final(self).model() == model,
                (Err(message), Err(model)) => message@ == model,
                _ => false,
            },
    {
        if same(key, "f") || same(key, "e") || same(key, "v") {
            match read_texts(put_in_place(before, value).as_str()) {
                Err(message) => Err(message),
                Ok(texts) => {
                    if same(key, "f") {
                        self.f = Some(texts);
                    } else if same(key, "e") {
                        self.e = Some(texts);
                    } else {
                        self.v = Some(texts);
                    }
                    Ok(())
                },
            }
        } else if same(key, "ed") || same(key, "vd") {
            match read_ids_at(before, value, end) {
                Err(message) => Err(message),
                Ok(ids) => {
                    if same(key, "ed") {
                        self.ed = Some(ids);
                    } else {
                        self.vd = Some(ids);
                    }
                    Ok(())
                },
            }
        } else {
            match read_optional_text(put_in_place(before, value).as_str()) {
                Err(message) => Err(message),
                Ok(text) => {
                    self.s = Some(text);
                    Ok(())
                },
            }
        }
    }

    fn into_update(self) -> (r: TaskUpdate)
        ensures
            r@ == update_with(self.model()),
    {
        let r = TaskUpdate {
            f: texts_or_empty(self.f),
            e: texts_or_empty(self.e),
            v: texts_or_empty(self.v),
            ed: match self.ed {
                Some(ids) => ids,
                None => Vec::new(),
            },
            vd: match self.vd {
                Some(ids) => ids,
                None => Vec::new(),
            },
            s: match self.s {
                Some(text) => text,
                None => None,
            },
        };
        proof {
            assert(r@.ed =~= update_with(self.model()).ed);
            assert(r@.vd =~= update_with(self.model()).vd);
        }
        r
    }
}

fn texts_or_empty(field: Option<Vec<String>>) -> (r: Vec<String>)
    ensures
        views(r@) == texts_or_none(texts_model(field)),
{
    match field {
        Some(texts) => texts,
        None => {
            let none: Vec<String> = Vec::new();
            proof {
                assert(views(none@) =~= Seq::<Seq<char>>::empty());
            }
            none
        },
    }
}

proof fn lemma_names_differ()
    ensures
        "f"@ != "e"@,
        "f"@ != "v"@,
        "f"@ != "s"@,
        "e"@ != "v"@,
        "e"@ != "s"@,
        "v"@ != "s"@,
        "ed"@ != "vd"@,
        "ed"@.len() == 2,
        "vd"@.len() == 2,
        "f"@.len() == 1,
        "e"@.len() == 1,
        "v"@.len() == 1,
        "s"@.len() == 1,
{
    reveal_strlit("f");
    reveal_strlit("e");
    reveal_strlit("v");
    reveal_strlit("s");
    reveal_strlit("ed");
    reveal_strlit("vd");
    assert("f"@[0] == 'f' && "e"@[0] == 'e' && "v"@[0] == 'v' && "s"@[0] == 's');
    assert("ed"@[0] == 'e' && "vd"@[0] == 'v');
}

/// The fields so far show what a mathematical result says.
spec fn agrees_fields(
    r: Result<Fields, Option<String>>,
    s: Result<FieldsModel, Option<Seq<char>>>,
) -> bool {
    match (r, s) {
        (Ok(fields), Ok(model)) => fields.model() == model,
        (Err(fault), Err(model)) => view_option(fault) == model,
        _ => false,
    }
}

fn find_part_fault(message: String, is_last: bool) -> (r: Option<String>)
    ensures
        view_option(r) == part_fault(message@, is_last),
{
    if starts_with_text(message.as_str(), "trailing characters") && !is_last {
        None
    } else {
        Some(message)
    }
}

fn read_value_at_start(text: &str) -> (r: String)
    ensures
        r@ == value_at_start(text@),
        r@.len() <= text@.len(),
{
    let begins = match read_node(text) {
        Err(message) => starts_with_text(message.as_str(), "trailing characters"),
        Ok(_) => false,
    };
    if !begins {
        return text.to_owned();
    }
    let layout = Layout::of(text);
    let mut n: usize = layout.size();
    while n > 0 && !is_json(layout.first(n).as_str())
        invariant
            layout@ == text@,
            n <= text@.len(),
            longest_json(text@, text@.len()) == longest_json(text@, n as nat),
        decreases n,
    {
        n -= 1;
    }
    layout.first(n)
}

fn find_broken_ids(json: &Layout, at: usize, listed: bool) -> (r: Option<String>)
    requires
        at <= json@.len(),
    ensures
        view_option(r) == broken_ids(json@.take(at as int), json@.skip(at as int), listed),
{
    let before = json.first(at);
    let rest = json.behind(at);
    let total = json.size();
    proof {
        assert(before@ + rest@ =~= json@);
    }
    let layout = Layout::of(rest.as_str());
    let next = layout.skip_spaces(0);
    proof {
        assert(rest@.skip(0) =~= rest@);
    }
    if next == layout.size() || layout.char_at(next) != '[' || layout.cut_count() == 0 {
        proof {
            if next < rest@.len() && rest@[next as int] == '[' {
                lemma_first_cut(rest@, next as int);
            }
        }
        return match read_texts(put_in_place(before.as_str(), rest.as_str()).as_str()) {
            Err(message) => Some(message),
            Ok(_) => None,
        };
    }
    let count = layout.cut_count();
    let items = layout.read_open_elements();
    let k = find_odd(&items);
    let ghost model = views(items@);
    if k < items.len() {
        let stop = layout.stop_of_element(k);
        let start = layout.cut_at(k) + 1;
        let value = read_value_at_start(items[k].as_str());
        let length = value.as_str().unicode_len();
        proof {
            assert(model[k as int] == items@[k as int]@);
            assert(model[k as int].len() == stop - start);
        }
        return if is_json(value.as_str()) && !has_id_form(value.as_str()) {
            let text = find_stop_in_array(json, at + start + length);
            Some(ODD_ID.to_owned().concat(place_behind(text.as_str()).as_str()))
        } else {
            None
        };
    }
    let stop = layout.stop_of_element(items.len() - 1);
    if stop < layout.size() && layout.char_at(stop) == ']' {
        match read_ids(&items) {
            Ok(_) => None,
            Err(message) => {
                let text = if listed {
                    find_stop_in_array(json, at + stop + 1)
                } else {
                    find_stop_in_object(json, at + stop + 1)
                };
                Some(message.concat(place_behind(text.as_str()).as_str()))
            },
        }
    } else {
        None
    }
}

proof fn lemma_first_cut(text: Seq<char>, n: int)
    requires
        0 <= n < text.len(),
        n == spaces(text),
        text[n] == '[' || text[n] == '{',
    ensures
        cuts(text).len() > 0,
{
    lemma_blank_standing(text, n);
    let head = text.take(n + 1);
    assert(head.drop_last() =~= text.take(n));
    assert(cuts(head).len() > 0);
    lemma_cuts_grow(text, n + 1);
}

proof fn lemma_space_at(text: Seq<char>, i: int)
    requires
        0 <= i < spaces(text),
    ensures
        i < text.len(),
        is_json_space(text[i]),
    decreases i,
{
    if i > 0 {
        lemma_space_at(text.skip(1), i - 1);
        assert(text.skip(1)[i - 1] == text[i]);
    }
}

proof fn lemma_blank_standing(text: Seq<char>, n: int)
    requires
        0 <= n <= spaces(text),
        n <= text.len(),
    ensures
        standing(text.take(n)) == (StandingModel { depth: 0, quoted: false, escaped: false }),
    decreases n,
{
    if n > 0 {
        lemma_blank_standing(text, n - 1);
        lemma_space_at(text, n - 1);
        assert(text.take(n).drop_last() =~= text.take(n - 1));
        assert(text.take(n).last() == text[n - 1]);
    }
}

proof fn lemma_cuts_grow(text: Seq<char>, n: int)
    requires
        0 <= n <= text.len(),
    ensures
        cuts(text.take(n)).len() <= cuts(text).len(),
    decreases text.len(),
{
    if n == text.len() {
        assert(text.take(n) =~= text);
    } else {
        assert(text.drop_last().take(n) =~= text.take(n));
        lemma_cuts_grow(text.drop_last(), n);
    }
}

fn find_broken_value(key: &str, json: &Layout, at: usize, listed: bool) -> (r: Option<String>)
    requires
        at <= json@.len(),
    ensures
        view_option(r) == broken_value(
            key@,
            json@.take(at as int),
            json@.skip(at as int),
            listed,
        ),
{
    if same(key, "ed") || same(key, "vd") {
        proof {
            lemma_names_differ();
        }
        return find_broken_ids(json, at, listed);
    }
    let text = put_in_place(json.first(at).as_str(), json.behind(at).as_str());
    if same(key, "f") || same(key, "e") || same(key, "v") {
        match read_texts(text.as_str()) {
            Ok(_) => None,
            Err(message) => find_part_fault(message, false),
        }
    } else {
        match read_optional_text(text.as_str()) {
            Ok(_) => None,
            Err(message) => find_part_fault(message, listed),
        }
    }
}

fn find_broken_member(json: &Layout, fields: &Fields, start: usize) -> (r: Option<String>)
    requires
        start <= json@.len(),
    ensures
        view_option(r) == broken_member(json@, fields.model(), start as int),
{
    let size = json.size();
    let end = match json.find_string(start) {
        Some(end) => end,
        None => return None,
    };
    let key = match read_string(json.slice(start, end).as_str()) {
        Some(key) => key,
        None => return None,
    };
    let at = find_stop_in_object(json, end);
    if let Some(message) = fields.find_key_fault(key.as_str(), at.as_str()) {
        return Some(message);
    }
    let colon = json.skip_spaces(end);
    if colon < size && json.char_at(colon) == ':' {
        find_broken_value(key.as_str(), json, colon + 1, false)
    } else {
        None
    }
}

fn does_lead_on(layout: &Layout, k: usize) -> (r: bool)
    requires
        layout.wf(),
        k < cuts(layout@).len(),
    ensures
        r == leads_on(layout@, k as int),
{
    let c = layout.cut_char(k);
    c == '{' || c == ','
}

fn is_json(text: &str) -> (r: bool)
    ensures
        r == json_node(text@) is Ok,
{
    read_node(text).is_ok()
}

fn read_member(layout: &Layout, fields: Fields, j: usize) -> (r: Result<Fields, Option<String>>)
    requires
        layout.wf(),
        2 * j + 2 < cuts(layout@).len() <= usize::MAX,
    ensures
        agrees_fields(r, member_read(layout@, fields.model(), j as int)),
{
    if !does_lead_on(layout, 2 * j) {
        return Err(None);
    }
    let size = layout.size();
    let start = layout.cut_at(2 * j) + 1;
    let close = layout.cut_char(2 * j + 2);
    let value = layout.part(2 * j + 1);
    let key = match read_string(layout.part(2 * j).as_str()) {
        Some(key) => key,
        None => return Err(find_broken_member(layout, &fields, start)),
    };
    if layout.cut_char(2 * j + 1) != ':' || (close != ',' && close != '}') || !is_json(
        value.as_str(),
    ) {
        return Err(find_broken_member(layout, &fields, start));
    }
    let at = layout.before_cut(2 * j + 1);
    if let Some(message) = fields.find_key_fault(key.as_str(), at.as_str()) {
        return Err(Some(message));
    }
    let before = layout.through_cut(2 * j + 1);
    let end = if close == '}' {
        layout.through_cut(2 * j + 2)
    } else {
        layout.before_cut(2 * j + 2)
    };
    let mut fields = fields;
    match fields.read_field(key.as_str(), before.as_str(), value.as_str(), end.as_str()) {
        Ok(()) => Ok(fields),
        Err(message) => Err(Some(message)),
    }
}

fn new_fields() -> (r: Fields)
    ensures
        r.model() == no_fields(),
{
    Fields { f: None, e: None, v: None, ed: None, vd: None, s: None }
}

fn read_object(layout: &Layout) -> (r: Result<Fields, Option<String>>)
    requires
        layout.wf(),
    ensures
        agrees_fields(r, object_read(layout@)),
{
    let total = layout.cut_count();
    let n = layout.count_members();
    let mut fields = new_fields();
    let mut j: usize = 0;
    while j < n
        invariant
            layout.wf(),
            j <= n,
            n == member_count(layout@),
            n > 0 ==> 2 * n < cuts(layout@).len(),
            total == cuts(layout@).len(),
            members_read(layout@, j as nat) == Ok::<FieldsModel, Option<Seq<char>>>(
                fields.model(),
            ),
        decreases n - j,
    {
        match read_member(layout, fields, j) {
            Ok(after) => {
                fields = after;
            },
            Err(fault) => {
                proof {
                    lemma_members_error(layout@, (j + 1) as nat, n as nat);
                }
                return Err(fault);
            },
        }
        j += 1;
    }
    let size = layout.size();
    if (n > 0 || total > 0) && does_lead_on(layout, 2 * n) {
        match find_broken_member(layout, &fields, layout.cut_at(2 * n) + 1) {
            Some(message) => Err(Some(message)),
            None => Ok(fields),
        }
    } else {
        Ok(fields)
    }
}

fn name_of_field(k: usize) -> (r: &'static str)
    ensures
        r@ == field_name(k as int),
{
    if k == 0 {
        "f"
    } else if k == 1 {
        "e"
    } else if k == 2 {
        "v"
    } else if k == 3 {
        "ed"
    } else if k == 4 {
        "vd"
    } else {
        "s"
    }
}

fn read_element(layout: &Layout, fields: Fields, k: usize) -> (r: Result<Fields, Option<String>>)
    requires
        layout.wf(),
        k < cuts(layout@).len() <= usize::MAX,
    ensures
        agrees_fields(r, element_read(layout@, fields.model(), k as int)),
{
    let size = layout.size();
    let total = layout.cut_count();
    let at = layout.cut_at(k) + 1;
    let next = layout.skip_spaces(at);
    if next == size || layout.char_at(next) == ']' {
        return Ok(fields);
    }
    let stop = layout.stop_of_element(k);
    let value = layout.slice(at, stop);
    if stop < size && (layout.char_at(stop) == ',' || layout.char_at(stop) == ']') && is_json(
        value.as_str(),
    ) {
        let before = layout.first(at);
        let end = stop_behind_element(layout, k);
        let mut fields = fields;
        match fields.read_field(name_of_field(k), before.as_str(), value.as_str(), end.as_str()) {
            Ok(()) => Ok(fields),
            Err(message) => Err(Some(message)),
        }
    } else {
        Err(find_broken_value(name_of_field(k), layout, at, true))
    }
}

fn read_array(layout: &Layout) -> (r: Result<Fields, Option<String>>)
    requires
        layout.wf(),
        cuts(layout@).len() > 0,
    ensures
        agrees_fields(r, array_read(layout@)),
{
    let commas = layout.count_commas();
    let size = layout.size();
    let m: usize = if commas < FIELD_COUNT {
        commas + 1
    } else {
        FIELD_COUNT
    };
    let mut fields = new_fields();
    let mut k: usize = 0;
    while k < m
        invariant
            layout.wf(),
            k <= m,
            m <= commas + 1 <= cuts(layout@).len() <= usize::MAX,
            m == (if commas < FIELD_COUNT {
                (commas + 1) as usize
            } else {
                FIELD_COUNT
            }),
            commas == comma_run(layout@, 1),
            elements_read(layout@, k as nat) == Ok::<FieldsModel, Option<Seq<char>>>(
                fields.model(),
            ),
        decreases m - k,
    {
        match read_element(layout, fields, k) {
            Ok(after) => {
                fields = after;
            },
            Err(fault) => {
                proof {
                    lemma_elements_error(layout@, (k + 1) as nat, m as nat);
                }
                return Err(fault);
            },
        }
        k += 1;
    }
    if commas < FIELD_COUNT {
        return Ok(fields);
    }
    let next = layout.skip_spaces(layout.cut_at(FIELD_COUNT) + 1);
    if next < size && layout.char_at(next) == ']' {
        Ok(fields)
    } else {
        let stop = stop_behind_element(layout, FIELD_COUNT - 1);
        let at = layout.with_one_more(stop.as_str().unicode_len());
        Err(Some("trailing characters".to_owned().concat(place_behind(at.as_str()).as_str())))
    }
}

fn find_struct_fault(json: &str) -> (r: String)
    ensures
        r@ == struct_fault(json@),
{
    let message = match read_texts(json) {
        Err(message) => message,
        Ok(_) => String::new(),
    };
    proof {
        reveal_strlit(", expected a sequence");
        reveal_strlit("");
        assert(""@ =~= Seq::<char>::empty());
    }
    let mut pieces = split_text(message.as_str(), ", expected a sequence");
    let ghost model = views(pieces@);
    if pieces.len() < 2 {
        return message;
    }
    let last = match pieces.pop() {
        Some(last) => last,
        None => String::new(),
    };
    proof {
        assert(views(pieces@) =~= model.drop_last());
    }
    joined(pieces.as_slice(), ", expected a sequence").concat(
        ", expected struct TaskUpdate",
    ).concat(last.as_str())
}

fn has_bracket(layout: &Layout, bracket: char) -> (r: bool)
    requires
        layout.wf(),
    ensures
        r == starts_with_bracket(layout@, bracket),
{
    proof {
        assert(layout@.skip(0) =~= layout@);
    }
    layout.cut_count() > 0 && layout.cut_char(0) == bracket && layout.skip_spaces(0)
        == layout.cut_at(0)
}

fn read_fields(json: &str) -> (r: Result<Fields, Option<String>>)
    ensures
        agrees_fields(r, fields_in(json@)),
{
    let layout = &Layout::of(json);
    if has_bracket(layout, '{') {
        read_object(layout)
    } else if has_bracket(layout, '[') {
        read_array(layout)
    } else {
        Err(Some(find_struct_fault(json)))
    }
}

/// Reads an update from its JSON text.
pub fn parse_task_update(json: &str) -> (r: Result<TaskUpdate, String>)
    ensures
        agrees(r, update_of(json@)),
{
    let node = read_node(json);
    match read_fields(json) {
        Err(Some(message)) => Err(message),
        Ok(fields) => match node {
            Ok(_) => Ok(fields.into_update()),
            Err(message) => Err(message),
        },
        Err(None) => match node {
            Ok(_) => Err(find_struct_fault(json)),
            Err(message) => Err(message),
        },
    }
}

proof fn lemma_members_are_read(json: Seq<char>, n: nat, i: int)
    requires
        0 <= i < n,
        members_read(json, n) is Ok,
    ensures
        string_in(part(json, 2 * i)) is Some,
        is_read(members_read(json, n)->Ok_0, string_in(part(json, 2 * i))->Some_0),
    decreases n,
{
    lemma_names_differ();
    if i < n - 1 {
        lemma_members_are_read(json, (n - 1) as nat, i);
    }
}

/// An update that names a field twice is refused.
pub proof fn law_repeated_fields_are_refused(json: Seq<char>, i: int, k: int)
    requires
        starts_with_bracket(json, '{'),
        0 <= i < k < member_count(json),
        string_in(part(json, 2 * i)) == string_in(part(json, 2 * k)),
    ensures
        update_of(json) is Err,
{
    let n = member_count(json);
    if members_read(json, n) is Ok {
        if members_read(json, k as nat) is Err {
            lemma_members_error(json, k as nat, n);
        }
        if members_read(json, (k + 1) as nat) is Err {
            lemma_members_error(json, (k + 1) as nat, n);
        }
        lemma_members_are_read(json, k as nat, i);
        assert(member_read(json, members_read(json, k as nat)->Ok_0, k) is Err);
    }
}

/// Whether a line is an update without its prefix.
pub fn is_bare_task_update(line: &str) -> (r: bool)
    ensures
        r == is_bare_update(line@),
{
    match read_node(line) {
        Ok(JsonNode::Object(members)) => {
            let ghost model = views(members@);
            let mut i: usize = 0;
            while i < members.len()
                invariant
                    i <= members@.len(),
                    model == views(members@),
                    json_node(line@) == Ok::<NodeModel, Seq<char>>(NodeModel::Object(model)),
                    forall|k: int| 0 <= k < i ==> !marks_update((#[trigger] model[k]).0),
                decreases members.len() - i,
            {
                let key = members[i].0.as_str();
                if same(key, "f") || same(key, "e") || same(key, "v") || same(key, "ed") || same(
                    key,
                    "vd",
                ) {
                    proof {
                        assert(marks_update(model[i as int].0));
                        assert(has_mark(model));
                    }
                    return true;
                }
                i += 1;
            }
            false
        },
        _ => false,
    }
}

/// Splits an answer into what the user sees and the update in its last line.
pub fn extract_task_update(text: &str) -> (r: (String, Option<Result<TaskUpdate, String>>))
    ensures
        r.0@ == visible_text(text@),
        match (r.1, answer_update(text@)) {
            (None, None) => true,
            (Some(update), Some(model)) => agrees(update, model),
            _ => false,
        },
{
    let shortened = trimmed_end(text);
    let (body, last_line) = match rsplit_once_char(shortened.as_str(), '\n') {
        Some(parts) => parts,
        None => (String::new(), shortened),
    };
    let payload = match without_prefix(last_line.as_str(), TASK_UPDATE_PREFIX) {
        Some(rest) => Some(rest),
        None => match without_prefix(last_line.as_str(), "TASK_UPDATE ") {
            Some(rest) => Some(trimmed_start(rest.as_str())),
            None => if is_bare_task_update(last_line.as_str()) {
                Some(last_line)
            } else {
                None
            },
        },
    };
    match payload {
        None => (text.to_owned(), None),
        Some(json) => {
            let update = match parse_task_update(json.as_str()) {
                Ok(update) => Ok(update),
                Err(message) => Err(
                    "некорректный TASK_UPDATE: ".to_owned().concat(message.as_str()),
                ),
            };
            (trimmed_end(body.as_str()), Some(update))
        },
    }
}

/// An update in the last line of an answer is taken out of what the user sees, and read.
pub proof fn law_last_line_is_taken_out(head: Seq<char>, json: Seq<char>)
    requires
        json.len() > 0,
        !json.contains('\n'),
        !is_white(json.last()),
    ensures
        ({
            let text = head + "\n"@ + "TASK_UPDATE:"@ + json;
            &&& visible_text(text) == trim_end(head)
            &&& answer_update(text) matches Some(read) && match (read, update_of(json)) {
                (Ok(update), Ok(model)) => update == model,
                (Err(message), Err(model)) => message == "некорректный TASK_UPDATE: "@ + model,
                _ => false,
            }
        }),
{
    reveal_strlit("\n");
    reveal_strlit("TASK_UPDATE:");
    let line = "TASK_UPDATE:"@ + json;
    let text = head + "\n"@ + "TASK_UPDATE:"@ + json;
    assert(text =~= head + "\n"@ + line);
    assert(text.last() == json.last());
    assert(trim_end(text) == text);
    assert forall|i: int| 0 <= i < line.len() implies #[trigger] line[i] != '\n' by {
        if i >= 12 {
            assert(line[i] == json[i - 12]);
            assert(json.contains(json[i - 12]));
        }
    }
    lemma_split_at_last(head, line);
    assert("TASK_UPDATE:"@ =~= line.take(12));
    assert(line.skip(12) =~= json);
}

proof fn lemma_split_at_last(head: Seq<char>, line: Seq<char>)
    requires
        forall|i: int| 0 <= i < line.len() ==> #[trigger] line[i] != '\n',
    ensures
        split_at_last(head + "\n"@ + line, '\n') == Some((head, line)),
    decreases line.len(),
{
    reveal_strlit("\n");
    let text = head + "\n"@ + line;
    if line.len() == 0 {
        assert(text.last() == '\n');
        assert(text.drop_last() =~= head);
        assert(split_at_last(text, '\n') == Some((head, line)));
    } else {
        assert(text.drop_last() =~= head + "\n"@ + line.drop_last());
        lemma_split_at_last(head, line.drop_last());
        assert(text.last() == line.last());
        assert(line.drop_last().push(line.last()) =~= line);
    }
}

/// An answer whose last line is no update is shown as it is, and changes nothing.
pub proof fn law_answer_without_update_stays(text: Seq<char>)
    requires
        update_payload(last_line_split(text).1) is None,
    ensures
        visible_text(text) == text,
        answer_update(text) is None,
{
}

proof fn lemma_fields_last(json: Seq<char>, n: nat, m: nat)
    requires
        n <= m,
        members_read(json, m) is Ok,
    ensures
        members_read(json, n) is Ok,
        ({
            let early = members_read(json, n)->Ok_0;
            let late = members_read(json, m)->Ok_0;
            &&& early.f is Some ==> late.f == early.f
            &&& early.e is Some ==> late.e == early.e
            &&& early.v is Some ==> late.v == early.v
            &&& early.ed is Some ==> late.ed == early.ed
            &&& early.vd is Some ==> late.vd == early.vd
            &&& early.s is Some ==> late.s == early.s
        }),
    decreases m,
{
    if n < m {
        lemma_fields_last(json, n, (m - 1) as nat);
    }
}

/// A member of an update gives the field with its name the value that it holds: texts, identifiers or
/// a text.
pub proof fn law_members_give_the_fields(json: Seq<char>, j: int)
    requires
        starts_with_bracket(json, '{'),
        0 <= j < member_count(json),
        update_of(json) is Ok,
    ensures
        ({
            let update = update_of(json)->Ok_0;
            let key = string_in(part(json, 2 * j))->Some_0;
            let before = json.take(cuts(json)[2 * j + 1] + 1);
            let value = part(json, 2 * j + 1);
            &&& string_in(part(json, 2 * j)) is Some
            &&& key == "f"@ ==> Ok::<Seq<Seq<char>>, Seq<char>>(update.f) == texts_at(before, value)
            &&& key == "e"@ ==> Ok::<Seq<Seq<char>>, Seq<char>>(update.e) == texts_at(before, value)
            &&& key == "v"@ ==> Ok::<Seq<Seq<char>>, Seq<char>>(update.v) == texts_at(before, value)
            &&& key == "ed"@ ==> Ok::<Seq<u64>, Seq<char>>(update.ed) == ids_in(elements(value))
            &&& key == "vd"@ ==> Ok::<Seq<u64>, Seq<char>>(update.vd) == ids_in(elements(value))
            &&& key == "s"@ ==> Ok::<Option<Seq<char>>, Seq<char>>(update.s) == text_at(
                before,
                value,
            )
        }),
{
    reveal_strlit("f");
    reveal_strlit("e");
    reveal_strlit("v");
    reveal_strlit("ed");
    reveal_strlit("vd");
    reveal_strlit("s");
    assert("f"@[0] == 'f' && "e"@[0] == 'e' && "v"@[0] == 'v' && "s"@[0] == 's');
    assert("ed"@.len() == 2 && "vd"@.len() == 2 && "f"@.len() == 1 && "e"@.len() == 1);
    assert("v"@.len() == 1 && "s"@.len() == 1);
    assert("ed"@[0] == 'e' && "vd"@[0] == 'v');
    let n = member_count(json);
    assert(members_read(json, n) is Ok);
    lemma_fields_last(json, (j + 1) as nat, n);
    lemma_fields_last(json, j as nat, n);
}

/// The identifiers of an update are the numbers that stand in its list, written as numbers or as
/// texts.
pub proof fn law_identifiers_are_read(items: Seq<Seq<char>>, i: int)
    requires
        ids_in(items) is Ok,
        0 <= i < items.len(),
    ensures
        ids_in(items)->Ok_0.len() == items.len(),
        match json_node(items[i]) {
            Ok(NodeModel::Number(digits)) => natural_of(digits) == Some(
                ids_in(items)->Ok_0[i] as nat,
            ),
            Ok(NodeModel::Text(digits)) => natural_of(digits) == Some(
                ids_in(items)->Ok_0[i] as nat,
            ),
            _ => false,
        },
    decreases items.len(),
{
    let head = items.drop_last();
    if head.len() > 0 {
        if i < head.len() {
            law_identifiers_are_read(head, i);
        } else {
            law_identifiers_are_read(head, 0);
        }
    } else {
        assert(ids_in(head) == Ok::<Seq<u64>, Seq<char>>(Seq::empty()));
    }
}

} // verus!
