//! JSON values and JSON text.

use serde_json::Value;
use vstd::prelude::*;

use crate::numbers::{bounded_natural_of, i64_of, parse_i64, parse_u64};
use crate::order::is_text_map;
use crate::text::{agrees, join, same, views};

verus! {

/// A JSON value. A number is kept as its text.
#[derive(Debug, PartialEq, Eq)]
pub enum Json {
    Null,
    Bool(bool),
    Number(String),
    Text(String),
    Array(Vec<Json>),
    Object(Vec<Member>),
}

/// One member of a JSON object.
#[derive(Debug, PartialEq, Eq)]
pub struct Member {
    pub key: String,
    pub value: Json,
}

/// A JSON value, mathematically.
pub ghost enum JsonModel {
    Null,
    Bool(bool),
    Number(Seq<char>),
    Text(Seq<char>),
    Array(Seq<JsonModel>),
    Object(Seq<MemberModel>),
}

/// One member of a JSON object, mathematically.
pub ghost struct MemberModel {
    pub key: Seq<char>,
    pub value: JsonModel,
}

impl View for Json {
    type V = JsonModel;

    open spec fn view(&self) -> JsonModel
        decreases self,
    {
        match self {
            Json::Null => JsonModel::Null,
            Json::Bool(b) => JsonModel::Bool(*b),
            Json::Number(s) => JsonModel::Number(s@),
            Json::Text(s) => JsonModel::Text(s@),
            Json::Array(items) => JsonModel::Array(
                Seq::new(
                    items@.len(),
                    |i: int|
                        if 0 <= i < items@.len() {
                            items@[i].view()
                        } else {
                            JsonModel::Null
                        },
                ),
            ),
            Json::Object(members) => JsonModel::Object(
                Seq::new(
                    members@.len(),
                    |i: int|
                        if 0 <= i < members@.len() {
                            MemberModel { key: members@[i].key@, value: members@[i].value.view() }
                        } else {
                            MemberModel { key: Seq::empty(), value: JsonModel::Null }
                        },
                ),
            ),
        }
    }
}

impl View for Member {
    type V = MemberModel;

    open spec fn view(&self) -> MemberModel {
        MemberModel { key: self.key@, value: self.value.view() }
    }
}

/// The views of a list of values are the elements of the array's view.
pub proof fn lemma_array_view(items: Vec<Json>)
    ensures
        Json::Array(items)@ == JsonModel::Array(views(items@)),
{
    assert(Json::Array(items)@->Array_0 =~= views(items@));
}

/// The views of a list of members are the elements of the object's view.
pub proof fn lemma_object_view(members: Vec<Member>)
    ensures
        Json::Object(members)@ == JsonModel::Object(views(members@)),
{
    assert(Json::Object(members)@->Object_0 =~= views(members@));
}

// Reading a value.

/// The position of the first member named `key`, or the number of members.
pub open spec fn member_index(members: Seq<MemberModel>, key: Seq<char>) -> nat
    decreases members.len(),
{
    if members.len() == 0 || members[0].key == key {
        0
    } else {
        1 + member_index(members.skip(1), key)
    }
}

/// The value of the member named `key`, where `value` is an object that has one.
pub open spec fn member_of(value: JsonModel, key: Seq<char>) -> Option<JsonModel> {
    match value {
        JsonModel::Object(members) => {
            let at = member_index(members, key) as int;
            if at < members.len() {
                Some(members[at].value)
            } else {
                None
            }
        },
        _ => None,
    }
}

/// The text, where `value` is one.
pub open spec fn text_value(value: JsonModel) -> Option<Seq<char>> {
    match value {
        JsonModel::Text(s) => Some(s),
        _ => None,
    }
}

/// The elements, where `value` is an array.
pub open spec fn array_value(value: JsonModel) -> Option<Seq<JsonModel>> {
    match value {
        JsonModel::Array(items) => Some(items),
        _ => None,
    }
}

/// The number, where `value` is a natural number below 2^64.
pub open spec fn u64_value(value: JsonModel) -> Option<nat> {
    match value {
        JsonModel::Number(s) => bounded_natural_of(s, u64::MAX as nat),
        _ => None,
    }
}

/// The number, where `value` is an integer between -2^63 and 2^63.
pub open spec fn i64_value(value: JsonModel) -> Option<int> {
    match value {
        JsonModel::Number(s) => i64_of(s),
        _ => None,
    }
}

/// The text at `key`.
pub open spec fn text_at(value: JsonModel, key: Seq<char>) -> Option<Seq<char>> {
    match member_of(value, key) {
        Some(inner) => text_value(inner),
        None => None,
    }
}

/// The elements of the array at `key`.
pub open spec fn array_at(value: JsonModel, key: Seq<char>) -> Option<Seq<JsonModel>> {
    match member_of(value, key) {
        Some(inner) => array_value(inner),
        None => None,
    }
}

/// The natural number at `key`.
pub open spec fn u64_at(value: JsonModel, key: Seq<char>) -> Option<nat> {
    match member_of(value, key) {
        Some(inner) => u64_value(inner),
        None => None,
    }
}

/// The first position with a key is the only one that `member_index` can give.
pub proof fn lemma_member_index(members: Seq<MemberModel>, key: Seq<char>, at: int)
    requires
        0 <= at <= members.len(),
        at < members.len() ==> members[at].key == key,
        forall|i: int| 0 <= i < at ==> (#[trigger] members[i]).key != key,
    ensures
        member_index(members, key) == at,
    decreases members.len(),
{
    if at > 0 {
        assert(members[0].key != key);
        assert forall|i: int| 0 <= i < at - 1 implies (#[trigger] members.skip(1)[i]).key
            != key by {
            assert(members.skip(1)[i] == members[i + 1]);
        }
        lemma_member_index(members.skip(1), key, at - 1);
    }
}

/// A member is found under its key, where no member before it has that key.
pub proof fn law_member_is_found(members: Seq<MemberModel>, i: int)
    requires
        0 <= i < members.len(),
        forall|k: int| 0 <= k < i ==> (#[trigger] members[k]).key != members[i].key,
    ensures
        member_of(JsonModel::Object(members), members[i].key) == Some(members[i].value),
        members[i].value matches JsonModel::Text(text) ==> text_at(
            JsonModel::Object(members),
            members[i].key,
        ) == Some(text),
        members[i].value matches JsonModel::Array(items) ==> array_at(
            JsonModel::Object(members),
            members[i].key,
        ) == Some(items),
{
    lemma_member_index(members, members[i].key, i);
}

/// Nothing is found under a key that no member has.
pub proof fn law_missing_member_is_not_found(members: Seq<MemberModel>, key: Seq<char>)
    requires
        forall|k: int| 0 <= k < members.len() ==> (#[trigger] members[k]).key != key,
    ensures
        member_of(JsonModel::Object(members), key) is None,
        text_at(JsonModel::Object(members), key) is None,
        array_at(JsonModel::Object(members), key) is None,
        u64_at(JsonModel::Object(members), key) is None,
{
    lemma_member_index(members, key, members.len() as int);
}

impl Json {
    /// The value of the first member named `key`.
    pub fn get(&self, key: &str) -> (r: Option<&Json>)
        ensures
            match r {
                Some(value) => member_of(self@, key@) == Some(value@),
                None => member_of(self@, key@) is None,
            },
    {
        match self {
            Json::Object(members) => {
                proof {
                    lemma_object_view(*members);
                }
                let ghost model = views(members@);
                let mut i: usize = 0;
                while i < members.len()
                    invariant
                        i <= members@.len(),
                        model == views(members@),
                        self@ == JsonModel::Object(model),
                        forall|k: int| 0 <= k < i ==> (#[trigger] model[k]).key != key@,
                    decreases members.len() - i,
                {
                    if same(members[i].key.as_str(), key) {
                        proof {
                            lemma_member_index(model, key@, i as int);
                        }
                        return Some(&members[i].value);
                    }
                    i += 1;
                }
                proof {
                    lemma_member_index(model, key@, i as int);
                }
                None
            },
            _ => None,
        }
    }

    /// The text, where this is one.
    pub fn as_text(&self) -> (r: Option<&String>)
        ensures
            match r {
                Some(s) => text_value(self@) == Some(s@),
                None => text_value(self@) is None,
            },
    {
        match self {
            Json::Text(s) => Some(s),
            _ => None,
        }
    }

    /// The elements, where this is an array.
    pub fn as_array(&self) -> (r: Option<&Vec<Json>>)
        ensures
            match r {
                Some(items) => array_value(self@) == Some(views(items@)),
                None => array_value(self@) is None,
            },
    {
        match self {
            Json::Array(items) => {
                proof {
                    lemma_array_view(*items);
                }
                Some(items)
            },
            _ => None,
        }
    }

    /// The number, where this is a natural number below 2^64.
    pub fn as_u64(&self) -> (r: Option<u64>)
        ensures
            match r {
                Some(n) => u64_value(self@) == Some(n as nat),
                None => u64_value(self@) is None,
            },
    {
        match self {
            Json::Number(s) => parse_u64(s.as_str()),
            _ => None,
        }
    }

    /// The number, where this is an integer that an `i64` holds.
    pub fn as_i64(&self) -> (r: Option<i64>)
        ensures
            match r {
                Some(n) => i64_value(self@) == Some(n as int),
                None => i64_value(self@) is None,
            },
    {
        match self {
            Json::Number(s) => parse_i64(s.as_str()),
            _ => None,
        }
    }

    /// The text at `key`.
    pub fn get_text(&self, key: &str) -> (r: Option<&String>)
        ensures
            match r {
                Some(s) => text_at(self@, key@) == Some(s@),
                None => text_at(self@, key@) is None,
            },
    {
        match self.get(key) {
            Some(value) => value.as_text(),
            None => None,
        }
    }

    /// The elements of the array at `key`.
    pub fn get_array(&self, key: &str) -> (r: Option<&Vec<Json>>)
        ensures
            match r {
                Some(items) => array_at(self@, key@) == Some(views(items@)),
                None => array_at(self@, key@) is None,
            },
    {
        match self.get(key) {
            Some(value) => value.as_array(),
            None => None,
        }
    }

    /// The natural number at `key`.
    pub fn get_u64(&self, key: &str) -> (r: Option<u64>)
        ensures
            match r {
                Some(n) => u64_at(self@, key@) == Some(n as nat),
                None => u64_at(self@, key@) is None,
            },
    {
        match self.get(key) {
            Some(value) => value.as_u64(),
            None => None,
        }
    }

    /// A copy of the value.
    pub fn copy(&self) -> (r: Json)
        ensures
            r@ == self@,
        decreases self,
    {
        match self {
            Json::Null => Json::Null,
            Json::Bool(b) => Json::Bool(*b),
            Json::Number(s) => Json::Number(s.clone()),
            Json::Text(s) => Json::Text(s.clone()),
            Json::Array(items) => {
                let mut out: Vec<Json> = Vec::new();
                let mut i: usize = 0;
                while i < items.len()
                    invariant
                        i <= items@.len(),
                        self == Json::Array(*items),
                        out@.len() == i,
                        forall|k: int| 0 <= k < i ==> (#[trigger] out@[k])@ == items@[k]@,
                    decreases items.len() - i,
                {
                    proof {
                        assert(decreases_to!(self => self->Array_0));
                        assert(decreases_to!(self->Array_0 => items@));
                        assert(decreases_to!(items@ => items@[i as int]));
                    }
                    out.push(items[i].copy());
                    i += 1;
                }
                proof {
                    lemma_array_view(*items);
                    lemma_array_view(out);
                    assert(views(out@) =~= views(items@));
                }
                Json::Array(out)
            },
            Json::Object(members) => {
                let mut out: Vec<Member> = Vec::new();
                let mut i: usize = 0;
                while i < members.len()
                    invariant
                        i <= members@.len(),
                        self == Json::Object(*members),
                        out@.len() == i,
                        forall|k: int| 0 <= k < i ==> (#[trigger] out@[k])@ == members@[k]@,
                    decreases members.len() - i,
                {
                    proof {
                        assert(decreases_to!(self => self->Object_0));
                        assert(decreases_to!(self->Object_0 => members@));
                        assert(decreases_to!(members@ => members@[i as int]));
                        assert(decreases_to!(members@[i as int] => members@[i as int].value));
                    }
                    let value = members[i].value.copy();
                    out.push(Member { key: members[i].key.clone(), value });
                    i += 1;
                }
                proof {
                    lemma_object_view(*members);
                    lemma_object_view(out);
                    assert(views(out@) =~= views(members@));
                }
                Json::Object(out)
            },
        }
    }
}

/// A JSON text from a literal or another text.
pub fn json_str(s: &str) -> (r: Json)
    ensures
        r@ == JsonModel::Text(s@),
{
    Json::Text(s.to_owned())
}

/// A member of a JSON object.
pub fn member(key: &str, value: Json) -> (r: Member)
    ensures
        r@ == (MemberModel { key: key@, value: value@ }),
{
    Member { key: key.to_owned(), value }
}

// JSON text.

/// A member, mathematically.
pub open spec fn field(key: Seq<char>, value: JsonModel) -> MemberModel {
    MemberModel { key, value }
}

/// An array of these elements.
pub fn array_of(items: Vec<Json>) -> (r: Json)
    ensures
        r@ == JsonModel::Array(views(items@)),
{
    proof {
        lemma_array_view(items);
    }
    Json::Array(items)
}

/// An object of these members.
pub fn object_of(members: Vec<Member>) -> (r: Json)
    ensures
        r@ == JsonModel::Object(views(members@)),
{
    proof {
        lemma_object_view(members);
    }
    Json::Object(members)
}

/// An object of one member.
pub fn object1(key: &str, value: Json) -> (r: Json)
    ensures
        r@ == JsonModel::Object(seq![field(key@, value@)]),
{
    let mut members: Vec<Member> = Vec::new();
    members.push(member(key, value));
    proof {
        assert(views(members@) =~= seq![field(key@, value@)]);
    }
    object_of(members)
}

/// An object of two members.
pub fn object2(key: &str, value: Json, key2: &str, value2: Json) -> (r: Json)
    ensures
        r@ == JsonModel::Object(seq![field(key@, value@), field(key2@, value2@)]),
{
    let mut members: Vec<Member> = Vec::new();
    members.push(member(key, value));
    members.push(member(key2, value2));
    proof {
        assert(views(members@) =~= seq![field(key@, value@), field(key2@, value2@)]);
    }
    object_of(members)
}

/// An object of three members.
pub fn object3(key: &str, value: Json, key2: &str, value2: Json, key3: &str, value3: Json) -> (r:
    Json)
    ensures
        r@ == JsonModel::Object(
            seq![field(key@, value@), field(key2@, value2@), field(key3@, value3@)],
        ),
{
    let mut members: Vec<Member> = Vec::new();
    members.push(member(key, value));
    members.push(member(key2, value2));
    members.push(member(key3, value3));
    proof {
        assert(views(members@) =~= seq![
            field(key@, value@),
            field(key2@, value2@),
            field(key3@, value3@),
        ]);
    }
    object_of(members)
}

/// An object of four members.
pub fn object4(
    key: &str,
    value: Json,
    key2: &str,
    value2: Json,
    key3: &str,
    value3: Json,
    key4: &str,
    value4: Json,
) -> (r: Json)
    ensures
        r@ == JsonModel::Object(
            seq![
                field(key@, value@),
                field(key2@, value2@),
                field(key3@, value3@),
                field(key4@, value4@),
            ],
        ),
{
    let mut members: Vec<Member> = Vec::new();
    members.push(member(key, value));
    members.push(member(key2, value2));
    members.push(member(key3, value3));
    members.push(member(key4, value4));
    proof {
        assert(views(members@) =~= seq![
            field(key@, value@),
            field(key2@, value2@),
            field(key3@, value3@),
            field(key4@, value4@),
        ]);
    }
    object_of(members)
}

/// Whether a value is an object.
pub fn is_object(value: &Json) -> (r: bool)
    ensures
        r == (value@ is Object),
{
    match value {
        Json::Object(_) => true,
        _ => false,
    }
}

/// A hexadecimal digit in lower case.
pub open spec fn hex_digit(d: int) -> char {
    if d < 10 {
        (48 + d) as char
    } else {
        (87 + d) as char
    }
}

/// How one character stands inside a JSON string.
pub open spec fn escaped_char(c: char) -> Seq<char> {
    if c == '"' {
        seq!['\\', '"']
    } else if c == '\\' {
        seq!['\\', '\\']
    } else if c == '\u{8}' {
        seq!['\\', 'b']
    } else if c == '\t' {
        seq!['\\', 't']
    } else if c == '\n' {
        seq!['\\', 'n']
    } else if c == '\u{c}' {
        seq!['\\', 'f']
    } else if c == '\r' {
        seq!['\\', 'r']
    } else if (c as u32) < 32 {
        seq!['\\', 'u', '0', '0', hex_digit(c as int / 16), hex_digit(c as int % 16)]
    } else {
        seq![c]
    }
}

/// The characters of a JSON string between its quotes.
pub open spec fn escaped(s: Seq<char>) -> Seq<char>
    decreases s.len(),
{
    if s.len() == 0 {
        Seq::empty()
    } else {
        escaped(s.drop_last()) + escaped_char(s.last())
    }
}

/// The JSON string that stands for `s`.
pub open spec fn json_string(s: Seq<char>) -> Seq<char> {
    seq!['"'] + escaped(s) + seq!['"']
}

/// A JSON string holds no control character, so it stands on one line.
pub proof fn lemma_json_string_plain(s: Seq<char>)
    ensures
        json_string(s).len() >= 2,
        json_string(s)[0] == '"',
        json_string(s).last() == '"',
        forall|i: int| 0 <= i < json_string(s).len() ==> #[trigger] json_string(s)[i] >= ' ',
{
    lemma_escaped_plain(s);
    let whole = json_string(s);
    assert forall|i: int| 0 <= i < whole.len() implies #[trigger] whole[i] >= ' ' by {
        if 1 <= i < whole.len() - 1 {
            assert(whole[i] == escaped(s)[i - 1]);
        }
    }
}

proof fn lemma_escaped_char_plain(c: char)
    ensures
        forall|i: int| 0 <= i < escaped_char(c).len() ==> #[trigger] escaped_char(c)[i] >= ' ',
{
    let n = c as int;
    if n < 32 {
        assert(0 <= n / 16 < 2 && 0 <= n % 16 < 16);
        assert(hex_digit(n / 16) >= ' ');
        assert(hex_digit(n % 16) >= ' ');
    }
}

proof fn lemma_escaped_plain(s: Seq<char>)
    ensures
        forall|i: int| 0 <= i < escaped(s).len() ==> #[trigger] escaped(s)[i] >= ' ',
    decreases s.len(),
{
    if s.len() > 0 {
        lemma_escaped_plain(s.drop_last());
        lemma_escaped_char_plain(s.last());
        let head = escaped(s.drop_last());
        let tail = escaped_char(s.last());
        assert forall|i: int| 0 <= i < escaped(s).len() implies #[trigger] escaped(s)[i] >= ' ' by {
            if i < head.len() {
                assert(escaped(s)[i] == head[i]);
            } else {
                assert(escaped(s)[i] == tail[i - head.len()]);
            }
        }
    }
}

/// One level of a JSON document; the parts below it are JSON texts.
pub enum JsonNode {
    Null,
    Bool(bool),
    Number(String),
    Text(String),
    Array(Vec<String>),
    Object(Vec<(String, String)>),
}

/// One level of a JSON document, mathematically.
pub ghost enum NodeModel {
    Null,
    Bool(bool),
    Number(Seq<char>),
    Text(Seq<char>),
    Array(Seq<Seq<char>>),
    Object(Seq<(Seq<char>, Seq<char>)>),
}

impl View for JsonNode {
    type V = NodeModel;

    open spec fn view(&self) -> NodeModel {
        match self {
            JsonNode::Null => NodeModel::Null,
            JsonNode::Bool(b) => NodeModel::Bool(*b),
            JsonNode::Number(s) => NodeModel::Number(s@),
            JsonNode::Text(s) => NodeModel::Text(s@),
            JsonNode::Array(items) => NodeModel::Array(views(items@)),
            JsonNode::Object(members) => NodeModel::Object(views(members@)),
        }
    }
}

/// What reading a JSON text with `serde_json` gives: its outermost level, or the parser's message.
pub uninterp spec fn json_node(text: Seq<char>) -> Result<NodeModel, Seq<char>>;

/// Reads the outermost level of a JSON text with `serde_json::from_str`. The parts of an array or an
/// object are given as compact JSON texts.
#[verifier::external_body]
pub(crate) fn read_node(text: &str) -> (r: Result<JsonNode, String>)
    ensures
        agrees(r, json_node(text@)),
{
    match serde_json::from_str(text) {
        Err(error) => Err(error.to_string()),
        Ok(Value::Null) => Ok(JsonNode::Null),
        Ok(Value::Bool(b)) => Ok(JsonNode::Bool(b)),
        Ok(Value::Number(n)) => Ok(JsonNode::Number(n.to_string())),
        Ok(Value::String(s)) => Ok(JsonNode::Text(s)),
        Ok(Value::Array(items)) => Ok(
            JsonNode::Array(items.iter().map(|v| v.to_string()).collect()),
        ),
        Ok(Value::Object(members)) => Ok(
            JsonNode::Object(members.iter().map(|(k, v)| (k.clone(), v.to_string())).collect()),
        ),
    }
}

/// `text` is read as the JSON text `s`.
pub open spec fn reads_as_text(text: Seq<char>, s: Seq<char>) -> bool {
    match json_node(text) {
        Ok(node) => node == NodeModel::Text(s),
        Err(_) => false,
    }
}

/// `serde_json::to_string` on a text: the JSON string that stands for it, which reads back as
/// that text.
#[verifier::external_body]
pub(crate) fn quote(s: &str) -> (r: String)
    ensures
        r@ == json_string(s@),
        reads_as_text(r@, s@),
{
    serde_json::to_string(s).unwrap_or_default()
}

/// The members of an object whose values are texts: names, and values as JSON strings.
pub open spec fn quoted_entries(entries: Seq<(Seq<char>, Seq<char>)>) -> Seq<
    (Seq<char>, Seq<char>),
> {
    Seq::new(entries.len(), |i: int| (entries[i].0, json_string(entries[i].1)))
}

/// The compact lines of an object whose values are texts.
pub open spec fn entry_texts(entries: Seq<(Seq<char>, Seq<char>)>, colon: Seq<char>) -> Seq<
    Seq<char>,
> {
    Seq::new(entries.len(), |i: int| json_string(entries[i].0) + colon + json_string(entries[i].1))
}

/// The compact JSON text of a map from texts to texts.
pub open spec fn map_text(entries: Seq<(Seq<char>, Seq<char>)>) -> Seq<char> {
    "{"@ + join(entry_texts(entries, ":"@), ","@) + "}"@
}

/// The indented JSON text of a map from texts to texts.
pub open spec fn pretty_map_text(entries: Seq<(Seq<char>, Seq<char>)>) -> Seq<char> {
    if entries.len() == 0 {
        "{}"@
    } else {
        "{\n  "@ + join(entry_texts(entries, ": "@), ",\n  "@) + "\n}"@
    }
}

/// `text` is read as an object with these texts as its values.
pub open spec fn reads_as_map(text: Seq<char>, entries: Seq<(Seq<char>, Seq<char>)>) -> bool {
    &&& match json_node(text) {
        Ok(node) => node == NodeModel::Object(quoted_entries(entries)),
        Err(_) => false,
    }
    &&& forall|i: int|
        0 <= i < entries.len() ==> reads_as_text(
            json_string((#[trigger] entries[i]).1),
            entries[i].1,
        )
}

/// `serde_json::to_string` on a map from texts to texts, given by its entries in the order of
/// their keys: the compact JSON object, which reads back as the same entries.
#[verifier::external_body]
pub(crate) fn write_map(entries: &Vec<(String, String)>) -> (r: String)
    requires
        is_text_map(views(entries@)),
    ensures
        r@ == map_text(views(entries@)),
        reads_as_map(r@, views(entries@)),
{
    let map: std::collections::BTreeMap<&String, &String> =
        entries.iter().map(|(key, value)| (key, value)).collect();
    serde_json::to_string(&map).unwrap_or_default()
}

/// `serde_json::to_string_pretty` on a map from texts to texts, given by its entries in the order
/// of their keys: the JSON object with one member on each line, indented by two spaces.
#[verifier::external_body]
pub(crate) fn write_map_pretty(entries: &Vec<(String, String)>) -> (r: String)
    requires
        is_text_map(views(entries@)),
    ensures
        r@ == pretty_map_text(views(entries@)),
{
    let map: std::collections::BTreeMap<&String, &String> =
        entries.iter().map(|(key, value)| (key, value)).collect();
    serde_json::to_string_pretty(&map).unwrap_or_default()
}

/// How deep a document may nest.
pub const JSON_DEPTH: u32 = 128;

/// The value of a JSON text whose arrays and objects nest at most `depth` deep.
pub open spec fn json_value(text: Seq<char>, depth: nat) -> Result<JsonModel, Seq<char>>
    decreases depth, 0nat,
{
    match json_node(text) {
        Err(message) => Err(message),
        Ok(NodeModel::Null) => Ok(JsonModel::Null),
        Ok(NodeModel::Bool(b)) => Ok(JsonModel::Bool(b)),
        Ok(NodeModel::Number(s)) => Ok(JsonModel::Number(s)),
        Ok(NodeModel::Text(s)) => Ok(JsonModel::Text(s)),
        Ok(NodeModel::Array(items)) => if depth == 0 {
            Err("recursion limit exceeded"@)
        } else {
            match json_values(items, (depth - 1) as nat) {
                Ok(values) => Ok(JsonModel::Array(values)),
                Err(message) => Err(message),
            }
        },
        Ok(NodeModel::Object(members)) => if depth == 0 {
            Err("recursion limit exceeded"@)
        } else {
            match json_members(members, (depth - 1) as nat) {
                Ok(values) => Ok(JsonModel::Object(values)),
                Err(message) => Err(message),
            }
        },
    }
}

/// The values of the elements of an array, or the message of the first that has none.
pub open spec fn json_values(items: Seq<Seq<char>>, depth: nat) -> Result<
    Seq<JsonModel>,
    Seq<char>,
>
    decreases depth, items.len(),
{
    if items.len() == 0 {
        Ok(Seq::empty())
    } else {
        match json_values(items.drop_last(), depth) {
            Err(message) => Err(message),
            Ok(head) => match json_value(items.last(), depth) {
                Err(message) => Err(message),
                Ok(value) => Ok(head.push(value)),
            },
        }
    }
}

/// The members of an object, or the message of the first value that has none.
pub open spec fn json_members(members: Seq<(Seq<char>, Seq<char>)>, depth: nat) -> Result<
    Seq<MemberModel>,
    Seq<char>,
>
    decreases depth, members.len(),
{
    if members.len() == 0 {
        Ok(Seq::empty())
    } else {
        match json_members(members.drop_last(), depth) {
            Err(message) => Err(message),
            Ok(head) => match json_value(members.last().1, depth) {
                Err(message) => Err(message),
                Ok(value) => Ok(head.push(MemberModel { key: members.last().0, value })),
            },
        }
    }
}

/// A list of elements is refused as soon as its beginning is.
proof fn lemma_values_error(items: Seq<Seq<char>>, n: int, depth: nat)
    requires
        0 <= n <= items.len(),
        json_values(items.take(n), depth) is Err,
    ensures
        json_values(items, depth) == json_values(items.take(n), depth),
    decreases items.len(),
{
    if n == items.len() {
        assert(items.take(n) =~= items);
    } else {
        assert(items.drop_last().take(n) =~= items.take(n));
        lemma_values_error(items.drop_last(), n, depth);
    }
}

/// A list of members is refused as soon as its beginning is.
proof fn lemma_members_error(members: Seq<(Seq<char>, Seq<char>)>, n: int, depth: nat)
    requires
        0 <= n <= members.len(),
        json_members(members.take(n), depth) is Err,
    ensures
        json_members(members, depth) == json_members(members.take(n), depth),
    decreases members.len(),
{
    if n == members.len() {
        assert(members.take(n) =~= members);
    } else {
        assert(members.drop_last().take(n) =~= members.take(n));
        lemma_members_error(members.drop_last(), n, depth);
    }
}

fn read_value(text: &str, depth: u32) -> (r: Result<Json, String>)
    ensures
        agrees(r, json_value(text@, depth as nat)),
    decreases depth,
{
    match read_node(text) {
        Err(message) => Err(message),
        Ok(JsonNode::Null) => Ok(Json::Null),
        Ok(JsonNode::Bool(b)) => Ok(Json::Bool(b)),
        Ok(JsonNode::Number(s)) => Ok(Json::Number(s)),
        Ok(JsonNode::Text(s)) => Ok(Json::Text(s)),
        Ok(JsonNode::Array(items)) => {
            if depth == 0 {
                return Err("recursion limit exceeded".to_owned());
            }
            let ghost parts = views(items@);
            let ghost below = (depth - 1) as nat;
            let mut out: Vec<Json> = Vec::new();
            let mut i: usize = 0;
            proof {
                assert(parts.take(0).len() == 0);
                assert(views(out@) =~= Seq::<JsonModel>::empty());
            }
            while i < items.len()
                invariant
                    i <= items@.len(),
                    depth > 0,
                    below == (depth - 1) as nat,
                    parts == views(items@),
                    json_node(text@) == Ok::<NodeModel, Seq<char>>(NodeModel::Array(parts)),
                    json_values(parts.take(i as int), below) == Ok::<Seq<JsonModel>, Seq<char>>(
                        views(out@),
                    ),
                decreases items.len() - i,
            {
                proof {
                    assert(parts.take(i + 1).drop_last() =~= parts.take(i as int));
                }
                match read_value(items[i].as_str(), depth - 1) {
                    Err(message) => {
                        proof {
                            lemma_values_error(parts, i + 1, below);
                        }
                        return Err(message);
                    },
                    Ok(value) => {
                        proof {
                            assert(views(out@.push(value)) =~= views(out@).push(value@));
                        }
                        out.push(value);
                    },
                }
                i += 1;
            }
            proof {
                assert(parts.take(i as int) =~= parts);
                lemma_array_view(out);
            }
            Ok(Json::Array(out))
        },
        Ok(JsonNode::Object(members)) => {
            if depth == 0 {
                return Err("recursion limit exceeded".to_owned());
            }
            let ghost parts = views(members@);
            let ghost below = (depth - 1) as nat;
            let mut out: Vec<Member> = Vec::new();
            let mut i: usize = 0;
            proof {
                assert(parts.take(0).len() == 0);
                assert(views(out@) =~= Seq::<MemberModel>::empty());
            }
            while i < members.len()
                invariant
                    i <= members@.len(),
                    depth > 0,
                    below == (depth - 1) as nat,
                    parts == views(members@),
                    json_node(text@) == Ok::<NodeModel, Seq<char>>(NodeModel::Object(parts)),
                    json_members(parts.take(i as int), below) == Ok::<
                        Seq<MemberModel>,
                        Seq<char>,
                    >(views(out@)),
                decreases members.len() - i,
            {
                proof {
                    assert(parts.take(i + 1).drop_last() =~= parts.take(i as int));
                }
                match read_value(members[i].1.as_str(), depth - 1) {
                    Err(message) => {
                        proof {
                            lemma_members_error(parts, i + 1, below);
                        }
                        return Err(message);
                    },
                    Ok(value) => {
                        let member = Member { key: members[i].0.clone(), value };
                        proof {
                            assert(views(out@.push(member)) =~= views(out@).push(member@));
                        }
                        out.push(member);
                    },
                }
                i += 1;
            }
            proof {
                assert(parts.take(i as int) =~= parts);
                lemma_object_view(out);
            }
            Ok(Json::Object(out))
        },
    }
}

/// Reads a JSON text.
pub fn parse_json(text: &str) -> (r: Result<Json, String>)
    ensures
        agrees(r, json_value(text@, JSON_DEPTH as nat)),
{
    read_value(text, JSON_DEPTH)
}

/// The compact JSON text of a value.
pub open spec fn json_text(value: JsonModel) -> Seq<char>
    decreases value,
{
    match value {
        JsonModel::Null => "null"@,
        JsonModel::Bool(b) => if b {
            "true"@
        } else {
            "false"@
        },
        JsonModel::Number(s) => s,
        JsonModel::Text(s) => json_string(s),
        JsonModel::Array(items) => "["@ + items_text(items) + "]"@,
        JsonModel::Object(members) => "{"@ + members_text(members) + "}"@,
    }
}

/// The elements of an array, with commas between them.
pub open spec fn items_text(items: Seq<JsonModel>) -> Seq<char>
    decreases items,
{
    if items.len() == 0 {
        Seq::empty()
    } else if items.len() == 1 {
        json_text(items[0])
    } else {
        items_text(items.drop_last()) + ","@ + json_text(items.last())
    }
}

/// The members of an object, with commas between them.
pub open spec fn members_text(members: Seq<MemberModel>) -> Seq<char>
    decreases members,
{
    if members.len() == 0 {
        Seq::empty()
    } else if members.len() == 1 {
        json_string(members[0].key) + ":"@ + json_text(members[0].value)
    } else {
        members_text(members.drop_last()) + ","@ + json_string(members.last().key) + ":"@
            + json_text(members.last().value)
    }
}

/// Writes a value as compact JSON.
pub fn write_json(value: &Json) -> (r: String)
    ensures
        r@ == json_text(value@),
    decreases value,
{
    match value {
        Json::Null => "null".to_owned(),
        Json::Bool(b) => if *b {
            "true".to_owned()
        } else {
            "false".to_owned()
        },
        Json::Number(s) => s.clone(),
        Json::Text(s) => quote(s.as_str()),
        Json::Array(items) => {
            let mut out = "[".to_owned();
            let ghost model = views(items@);
            let mut i: usize = 0;
            proof {
                assert(out@ =~= "["@ + items_text(model.take(0)));
            }
            while i < items.len()
                invariant
                    i <= items@.len(),
                    value == Json::Array(*items),
                    model == views(items@),
                    out@ == "["@ + items_text(model.take(i as int)),
                decreases items.len() - i,
            {
                proof {
                    assert(decreases_to!(value => value->Array_0));
                    assert(decreases_to!(value->Array_0 => items@));
                    assert(decreases_to!(items@ => items@[i as int]));
                    assert(model.take(i + 1).drop_last() =~= model.take(i as int));
                }
                if i > 0 {
                    out.append(",");
                }
                let part = write_json(&items[i]);
                out.append(part.as_str());
                proof {
                    if i == 0 {
                        assert(model.take(0).len() == 0);
                        assert(out@ =~= "["@ + items_text(model.take(1)));
                    } else {
                        assert(out@ =~= "["@ + items_text(model.take(i + 1)));
                    }
                }
                i += 1;
            }
            out.append("]");
            proof {
                lemma_array_view(*items);
                assert(model.take(i as int) =~= model);
            }
            out
        },
        Json::Object(members) => {
            let mut out = "{".to_owned();
            let ghost model = views(members@);
            let mut i: usize = 0;
            proof {
                assert(out@ =~= "{"@ + members_text(model.take(0)));
            }
            while i < members.len()
                invariant
                    i <= members@.len(),
                    value == Json::Object(*members),
                    model == views(members@),
                    out@ == "{"@ + members_text(model.take(i as int)),
                decreases members.len() - i,
            {
                proof {
                    assert(decreases_to!(value => value->Object_0));
                    assert(decreases_to!(value->Object_0 => members@));
                    assert(decreases_to!(members@ => members@[i as int]));
                    assert(decreases_to!(members@[i as int] => members@[i as int].value));
                    assert(model.take(i + 1).drop_last() =~= model.take(i as int));
                }
                if i > 0 {
                    out.append(",");
                }
                let key = quote(members[i].key.as_str());
                out.append(key.as_str());
                out.append(":");
                let part = write_json(&members[i].value);
                out.append(part.as_str());
                proof {
                    if i == 0 {
                        assert(model.take(0).len() == 0);
                        assert(out@ =~= "{"@ + members_text(model.take(1)));
                    } else {
                        assert(out@ =~= "{"@ + members_text(model.take(i + 1)));
                    }
                }
                i += 1;
            }
            out.append("}");
            proof {
                lemma_object_view(*members);
                assert(model.take(i as int) =~= model);
            }
            out
        },
    }
}

} // verus!
