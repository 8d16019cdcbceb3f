//! The messages of a dialogue and the facts about it, with their text forms.

use vstd::prelude::*;

use crate::json::{
    json_node, json_string, lemma_json_string_plain, map_text, quote, quoted_entries, read_node,
    reads_as_text, write_map, JsonNode, NodeModel,
};
use crate::numbers::{
    bounded_natural_of, decimal, is_digit, lemma_decimal_round_trip, lemma_decimal_value,
    parse_usize, size_text,
};
use crate::order::{
    before, is_text_map, key_place, keys_of, law_map_get_after_set, lemma_key_place, lemma_map_set,
    map_get, map_set, TextMap,
};
use crate::text::{
    after_prefix, agrees, before_suffix, is_blank, is_line, is_white, join, joined,
    lemma_index_unique, lemma_lines_of_join, lemma_trim_fixed, lemma_views_push, lines, prefix_of,
    same, split_at_char, split_lines, split_once_char, split_words, starts_with_text, take_chars,
    trim, trim_end, trim_start, trimmed, trimmed_start, view_option, views, without_prefix,
    without_suffix, words,
};

verus! {

broadcast use lemma_views_push;

/// One message of a dialogue.
#[derive(Debug, PartialEq, Eq)]
pub struct Message {
    pub role: String,
    pub content: String,
}

/// One message of a dialogue, mathematically.
pub ghost struct MessageModel {
    pub role: Seq<char>,
    pub content: Seq<char>,
}

impl View for Message {
    type V = MessageModel;

    open spec fn view(&self) -> MessageModel {
        MessageModel { role: self.role@, content: self.content@ }
    }
}

impl Clone for Message {
    fn clone(&self) -> (r: Self)
        ensures
            r@ == self@,
    {
        Message { role: self.role.clone(), content: self.content.clone() }
    }
}

/// A message of the user.
pub open spec fn user_message(content: Seq<char>) -> MessageModel {
    MessageModel { role: "user"@, content }
}

/// A message of the model.
pub open spec fn assistant_message(content: Seq<char>) -> MessageModel {
    MessageModel { role: "assistant"@, content }
}

impl Message {
    /// A message of the user.
    pub fn user(content: &str) -> (r: Message)
        ensures
            r@ == user_message(content@),
    {
        Message { role: "user".to_owned(), content: content.to_owned() }
    }

    /// A message of the model.
    pub fn assistant(content: &str) -> (r: Message)
        ensures
            r@ == assistant_message(content@),
    {
        Message { role: "assistant".to_owned(), content: content.to_owned() }
    }
}

/// A copy of the messages from position `from` on.
pub fn copy_messages(messages: &Vec<Message>, from: usize) -> (r: Vec<Message>)
    requires
        from <= messages@.len(),
    ensures
        views(r@) == views(messages@).skip(from as int),
{
    let ghost model = views(messages@).skip(from as int);
    let mut out: Vec<Message> = Vec::new();
    let mut i: usize = from;
    while i < messages.len()
        invariant
            from <= i <= messages@.len(),
            model == views(messages@).skip(from as int),
            views(out@) == model.take(i - from),
        decreases messages.len() - i,
    {
        let copy = messages[i].clone();
        proof {
            assert(model.take(i - from).push(copy@) =~= model.take(i - from + 1));
        }
        out.push(copy);
        i += 1;
    }
    proof {
        assert(model.take(i - from) =~= model);
    }
    out
}

/// A copy of the first `count` messages.
pub fn copy_first(messages: &Vec<Message>, count: usize) -> (r: Vec<Message>)
    requires
        count <= messages@.len(),
    ensures
        views(r@) == views(messages@).take(count as int),
{
    let ghost model = views(messages@);
    let mut out: Vec<Message> = Vec::new();
    let mut i: usize = 0;
    while i < count
        invariant
            i <= count <= messages@.len(),
            model == views(messages@),
            views(out@) == model.take(i as int),
        decreases count - i,
    {
        let copy = messages[i].clone();
        proof {
            assert(model.take(i as int).push(copy@) =~= model.take(i + 1));
        }
        out.push(copy);
        i += 1;
    }
    out
}

/// A copy of all messages.
pub fn copy_all(messages: &Vec<Message>) -> (r: Vec<Message>)
    ensures
        views(r@) == views(messages@),
{
    let out = copy_messages(messages, 0);
    proof {
        assert(views(messages@).skip(0) =~= views(messages@));
    }
    out
}

// Titles.

/// A text with single spaces, cut off after `max` characters with a mark.
pub open spec fn cut(text: Seq<char>, max: nat) -> Seq<char> {
    if text.len() > max {
        prefix_of(text, max).push('…')
    } else {
        text
    }
}

/// The first `max_chars` characters of a text, with a mark where it was cut.
pub fn truncate(value: &str, max_chars: usize) -> (r: String)
    ensures
        r@ == cut(value@, max_chars as nat),
{
    if value.unicode_len() > max_chars {
        let mut out = take_chars(value, max_chars);
        out.push('…');
        out
    } else {
        value.to_owned()
    }
}

/// The greatest number of characters of a title.
pub const TITLE_CHARS: usize = 48;

/// The title of a session whose first message this is.
pub open spec fn title_of(content: Seq<char>) -> Seq<char> {
    cut(join(words(content), " "@), TITLE_CHARS as nat)
}

/// The title of a session whose first message this is.
pub fn session_title(content: &str) -> (r: String)
    ensures
        r@ == title_of(content@),
{
    let parts = split_words(content);
    let compact = joined(parts.as_slice(), " ");
    truncate(compact.as_str(), TITLE_CHARS)
}

// The text form of a history.

/// The first line of a history of `n` messages.
pub open spec fn history_header(n: nat) -> Seq<char> {
    "messages["@ + decimal(n) + "]{role,content}:"@
}

/// The line of a message.
pub open spec fn message_line(message: MessageModel) -> Seq<char> {
    "  "@ + message.role + ","@ + json_string(message.content)
}

/// The lines of a history.
pub open spec fn history_lines(messages: Seq<MessageModel>) -> Seq<Seq<char>> {
    seq![history_header(messages.len())] + Seq::new(
        messages.len(),
        |i: int| message_line(messages[i]),
    )
}

/// The text of a history.
pub open spec fn history_text(messages: Seq<MessageModel>) -> Seq<char> {
    join(history_lines(messages), "\n"@)
}

/// The number of messages that a header declares.
pub open spec fn declared_count(header: Seq<char>) -> Result<nat, Seq<char>> {
    match after_prefix(header, "messages["@) {
        None => Err("неверный заголовок истории TOON"@),
        Some(rest) => match before_suffix(rest, "]{role,content}:"@) {
            None => Err("неверный заголовок истории TOON"@),
            Some(digits) => match bounded_natural_of(digits, usize::MAX as nat) {
                None => Err("неверное число сообщений в истории TOON"@),
                Some(n) => Ok(n),
            },
        },
    }
}

/// Whether a role is one that a dialogue has.
pub open spec fn is_role(role: Seq<char>) -> bool {
    role == "user"@ || role == "assistant"@
}

/// The message of a line.
pub open spec fn decoded_message(line: Seq<char>) -> Result<MessageModel, Seq<char>> {
    match split_at_char(trim_start(line), ',') {
        None => Err("повреждена строка истории TOON"@),
        Some(parts) => if !is_role(parts.0) {
            Err("неизвестная роль в истории TOON: "@ + parts.0)
        } else {
            match json_node(parts.1) {
                Ok(NodeModel::Text(content)) => Ok(MessageModel { role: parts.0, content }),
                _ => Err("повреждено содержимое сообщения TOON"@),
            }
        },
    }
}

/// The messages of the lines, blank ones left out; or what is wrong with the first bad line.
pub open spec fn decoded_messages(ls: Seq<Seq<char>>) -> Result<Seq<MessageModel>, Seq<char>>
    decreases ls.len(),
{
    if ls.len() == 0 {
        Ok(Seq::empty())
    } else {
        match decoded_messages(ls.drop_last()) {
            Err(message) => Err(message),
            Ok(head) => if trim(ls.last()).len() == 0 {
                Ok(head)
            } else {
                match decoded_message(ls.last()) {
                    Err(message) => Err(message),
                    Ok(message) => Ok(head.push(message)),
                }
            },
        }
    }
}

/// The history that a text stands for.
pub open spec fn decoded_history(input: Seq<char>) -> Result<Seq<MessageModel>, Seq<char>> {
    let ls = lines(input);
    if ls.len() == 0 {
        Err("пустая история TOON"@)
    } else {
        match declared_count(ls[0]) {
            Err(message) => Err(message),
            Ok(count) => match decoded_messages(ls.skip(1)) {
                Err(message) => Err(message),
                Ok(messages) => if messages.len() != count {
                    Err(
                        "число сообщений в истории TOON не совпадает: ожидалось "@ + decimal(count)
                            + ", найдено "@ + decimal(messages.len()),
                    )
                } else {
                    Ok(messages)
                },
            },
        }
    }
}

/// A list of messages shows what a mathematical result says.
pub open spec fn agrees_messages(
    r: Result<Vec<Message>, String>,
    s: Result<Seq<MessageModel>, Seq<char>>,
) -> bool {
    match (r, s) {
        (Ok(messages), Ok(model)) => views(messages@) == model,
        (Err(message), Err(model)) => message@ == model,
        _ => false,
    }
}

proof fn lemma_messages_error(ls: Seq<Seq<char>>, n: int)
    requires
        0 <= n <= ls.len(),
        decoded_messages(ls.take(n)) is Err,
    ensures
        decoded_messages(ls) == decoded_messages(ls.take(n)),
    decreases ls.len(),
{
    if n == ls.len() {
        assert(ls.take(n) =~= ls);
    } else {
        assert(ls.drop_last().take(n) =~= ls.take(n));
        lemma_messages_error(ls.drop_last(), n);
    }
}

fn decode_message(line: &str) -> (r: Result<Message, String>)
    ensures
        agrees(r, decoded_message(line@)),
{
    let start = trimmed_start(line);
    match split_once_char(start.as_str(), ',') {
        None => Err("повреждена строка истории TOON".to_owned()),
        Some((role, quoted)) => {
            if !same(role.as_str(), "user") && !same(role.as_str(), "assistant") {
                return Err("неизвестная роль в истории TOON: ".to_owned().concat(role.as_str()));
            }
            match read_node(quoted.as_str()) {
                Ok(JsonNode::Text(content)) => Ok(Message { role, content }),
                _ => Err("повреждено содержимое сообщения TOON".to_owned()),
            }
        },
    }
}

/// Reads a history from its text.
pub fn decode_messages_toon(input: &str) -> (r: Result<Vec<Message>, String>)
    ensures
        agrees_messages(r, decoded_history(input@)),
{
    let all = split_lines(input);
    if all.len() == 0 {
        return Err("пустая история TOON".to_owned());
    }
    let declared = match without_prefix(all[0].as_str(), "messages[") {
        None => return Err("неверный заголовок истории TOON".to_owned()),
        Some(rest) => match without_suffix(rest.as_str(), "]{role,content}:") {
            None => return Err("неверный заголовок истории TOON".to_owned()),
            Some(digits) => match parse_usize(digits.as_str()) {
                None => return Err("неверное число сообщений в истории TOON".to_owned()),
                Some(n) => n,
            },
        },
    };
    let ghost ls = views(all@).skip(1);
    let mut messages: Vec<Message> = Vec::new();
    let mut i: usize = 1;
    proof {
        assert(ls.take(0).len() == 0);
        assert(views(messages@) =~= Seq::<MessageModel>::empty());
    }
    while i < all.len()
        invariant
            1 <= i <= all@.len(),
            ls == views(all@).skip(1),
            views(all@) == lines(input@),
            declared_count(views(all@)[0]) == Ok::<nat, Seq<char>>(declared as nat),
            decoded_messages(ls.take(i - 1)) == Ok::<Seq<MessageModel>, Seq<char>>(
                views(messages@),
            ),
        decreases all.len() - i,
    {
        proof {
            assert(ls.take(i as int).drop_last() =~= ls.take(i - 1));
            assert(ls.take(i as int).last() == views(all@)[i as int]);
        }
        if !is_blank(all[i].as_str()) {
            match decode_message(all[i].as_str()) {
                Err(message) => {
                    proof {
                        lemma_messages_error(ls, i as int);
                    }
                    return Err(message);
                },
                Ok(message) => {
                    messages.push(message);
                },
            }
        }
        i += 1;
    }
    proof {
        assert(ls.take(i - 1) =~= ls);
    }
    if messages.len() != declared {
        return Err(
            "число сообщений в истории TOON не совпадает: ожидалось ".to_owned().concat(
                size_text(declared).as_str(),
            ).concat(", найдено ").concat(size_text(messages.len()).as_str()),
        );
    }
    Ok(messages)
}

/// A history of a dialogue: every message has one of its two roles.
pub open spec fn is_dialogue(messages: Seq<MessageModel>) -> bool {
    forall|i: int| 0 <= i < messages.len() ==> is_role((#[trigger] messages[i]).role)
}

/// The contents of the messages are read back from their JSON strings.
pub open spec fn contents_read_back(messages: Seq<MessageModel>) -> bool {
    forall|i: int|
        0 <= i < messages.len() ==> reads_as_text(
            json_string((#[trigger] messages[i]).content),
            messages[i].content,
        )
}

proof fn lemma_role_plain(role: Seq<char>)
    requires
        is_role(role),
    ensures
        role.len() > 0,
        !is_white(role[0]),
        forall|i: int| 0 <= i < role.len() ==> #[trigger] role[i] != ',' && role[i] != '\n',
{
    reveal_strlit("user");
    reveal_strlit("assistant");
}

proof fn lemma_message_round_trip(message: MessageModel)
    requires
        is_role(message.role),
        reads_as_text(json_string(message.content), message.content),
    ensures
        decoded_message(message_line(message)) == Ok::<MessageModel, Seq<char>>(message),
        is_line(message_line(message)),
        trim(message_line(message)).len() > 0,
{
    let role = message.role;
    let quoted = json_string(message.content);
    let line = message_line(message);
    let body = role + ","@ + quoted;
    lemma_role_plain(role);
    lemma_json_string_plain(message.content);
    reveal_strlit("  ");
    reveal_strlit(",");
    assert(line =~= "  "@ + body);
    assert(body[0] == role[0]);
    assert(line.skip(1).skip(1) =~= body);
    assert(trim_start(body) == body);
    assert(line[0] == ' ' && line.skip(1)[0] == ' ');
    assert(trim_start(line.skip(1)) == trim_start(line.skip(1).skip(1)));
    assert(trim_start(line) == body);
    assert forall|i: int| 0 <= i < role.len() implies #[trigger] body[i] != ',' by {
        assert(body[i] == role[i]);
    }
    assert(body[role.len() as int] == ',');
    lemma_index_unique(body, ',', role.len() as int);
    assert(body.take(role.len() as int) =~= role);
    assert(body.skip(role.len() as int + 1) =~= quoted);
    assert(body.last() == quoted.last());
    lemma_trim_fixed(body);
    assert(trim(line) == trim_end(body));
    assert forall|i: int| 0 <= i < line.len() implies #[trigger] line[i] != '\n' by {
        if 2 <= i < 2 + role.len() {
            assert(line[i] == role[i - 2]);
        } else if i > 2 + role.len() {
            assert(line[i] == quoted[i - 3 - role.len()]);
        }
    }
    assert(line.last() == quoted.last());
}

proof fn lemma_history_round_trip(messages: Seq<MessageModel>)
    requires
        messages.len() <= usize::MAX,
        is_dialogue(messages),
        contents_read_back(messages),
    ensures
        decoded_history(history_text(messages)) == Ok::<Seq<MessageModel>, Seq<char>>(messages),
{
    let ls = history_lines(messages);
    let n = messages.len();
    let header = history_header(n);
    lemma_decimal_value(n);
    lemma_decimal_round_trip(n);
    reveal_strlit("messages[");
    reveal_strlit("]{role,content}:");
    let digits = decimal(n);
    assert(header.len() == 9 + digits.len() + 16);
    assert forall|i: int| 0 <= i < header.len() implies #[trigger] header[i] != '\n' by {
        if 9 <= i < 9 + digits.len() {
            assert(header[i] == digits[i - 9]);
            assert(is_digit(digits[i - 9]));
        } else if i >= 9 + digits.len() {
            assert(header[i] == "]{role,content}:"@[i - 9 - digits.len()]);
        }
    }
    assert(header.last() == "]{role,content}:"@[15]);
    assert(is_line(header));
    assert forall|i: int| 0 <= i < ls.len() implies is_line(#[trigger] ls[i]) by {
        if i > 0 {
            assert(ls[i] == message_line(messages[i - 1]));
            lemma_message_round_trip(messages[i - 1]);
        }
    }
    lemma_lines_of_join(ls);
    let rest = digits + "]{role,content}:"@;
    assert(header.take(9) =~= "messages["@);
    assert(header.skip(9) =~= rest);
    assert(rest.subrange(rest.len() - 16, rest.len() as int) =~= "]{role,content}:"@);
    assert(rest.take(rest.len() - 16) =~= digits);
    lemma_messages_round_trip(messages, messages.len());
    let tail = Seq::new(messages.len(), |i: int| message_line(messages[i]));
    assert(ls.skip(1) =~= tail);
    assert(tail.take(n as int) =~= tail);
    assert(messages.take(n as int) =~= messages);
}

proof fn lemma_messages_round_trip(messages: Seq<MessageModel>, n: nat)
    requires
        n <= messages.len(),
        is_dialogue(messages),
        contents_read_back(messages),
    ensures
        decoded_messages(
            Seq::new(messages.len(), |i: int| message_line(messages[i])).take(n as int),
        ) == Ok::<Seq<MessageModel>, Seq<char>>(messages.take(n as int)),
    decreases n,
{
    let ls = Seq::new(messages.len(), |i: int| message_line(messages[i]));
    if n == 0 {
        assert(ls.take(0).len() == 0);
        assert(messages.take(0) =~= Seq::empty());
    } else {
        lemma_messages_round_trip(messages, (n - 1) as nat);
        assert(ls.take(n as int).drop_last() =~= ls.take(n - 1));
        assert(ls.take(n as int).last() == message_line(messages[n - 1]));
        lemma_message_round_trip(messages[n - 1]);
        assert(messages.take(n - 1).push(messages[n - 1]) =~= messages.take(n as int));
    }
}

/// Writes a history as text. A history of a dialogue is read back from its text unchanged.
pub fn encode_messages_toon(messages: &Vec<Message>) -> (r: String)
    ensures
        r@ == history_text(views(messages@)),
        is_dialogue(views(messages@)) ==> decoded_history(r@) == Ok::<
            Seq<MessageModel>,
            Seq<char>,
        >(views(messages@)),
{
    let ghost model = views(messages@);
    let ghost all = history_lines(model);
    let mut lines: Vec<String> = Vec::new();
    lines.push(
        "messages[".to_owned().concat(size_text(messages.len()).as_str()).concat(
            "]{role,content}:",
        ),
    );
    proof {
        assert(views(lines@) =~= all.take(1));
    }
    let mut i: usize = 0;
    while i < messages.len()
        invariant
            i <= messages@.len(),
            model == views(messages@),
            all == history_lines(model),
            views(lines@) == all.take(i + 1),
            forall|k: int|
                0 <= k < i ==> reads_as_text(
                    json_string((#[trigger] model[k]).content),
                    model[k].content,
                ),
        decreases messages.len() - i,
    {
        let quoted = quote(messages[i].content.as_str());
        let line = "  ".to_owned().concat(messages[i].role.as_str()).concat(",").concat(
            quoted.as_str(),
        );
        proof {
            assert(line@ == message_line(model[i as int]));
            assert(all.take(i + 1).push(line@) =~= all.take(i + 2));
        }
        lines.push(line);
        i += 1;
    }
    proof {
        assert(all.take(i + 1) =~= all);
        if is_dialogue(model) {
            lemma_history_round_trip(model);
        }
    }
    joined(lines.as_slice(), "\n")
}

// Facts about a dialogue.

/// The entries of a map after setting each of `members`, whose values have to be texts.
pub open spec fn facts_set(members: Seq<(Seq<char>, Seq<char>)>) -> Option<
    Seq<(Seq<char>, Seq<char>)>,
>
    decreases members.len(),
{
    if members.len() == 0 {
        Some(Seq::empty())
    } else {
        match facts_set(members.drop_last()) {
            None => None,
            Some(entries) => match json_node(members.last().1) {
                Ok(NodeModel::Text(value)) => Some(map_set(entries, members.last().0, value)),
                _ => None,
            },
        }
    }
}

/// The facts that a JSON text stands for: an object whose values are texts.
pub open spec fn facts_in(json: Seq<char>) -> Option<Seq<(Seq<char>, Seq<char>)>> {
    match json_node(json) {
        Ok(NodeModel::Object(members)) => facts_set(members),
        _ => None,
    }
}

proof fn lemma_facts_set_none(members: Seq<(Seq<char>, Seq<char>)>, n: int)
    requires
        0 <= n <= members.len(),
        facts_set(members.take(n)) is None,
    ensures
        facts_set(members) is None,
    decreases members.len(),
{
    if n == members.len() {
        assert(members.take(n) =~= members);
    } else {
        assert(members.drop_last().take(n) =~= members.take(n));
        lemma_facts_set_none(members.drop_last(), n);
    }
}

/// Reads facts from a JSON object whose values are texts.
pub fn read_facts(json: &str) -> (r: Option<TextMap>)
    ensures
        view_option(r) == facts_in(json@),
        r is Some ==> r->Some_0.wf(),
{
    match read_node(json) {
        Ok(JsonNode::Object(members)) => {
            let ghost model = views(members@);
            let mut facts = TextMap::new();
            let mut i: usize = 0;
            proof {
                assert(model.take(0).len() == 0);
            }
            while i < members.len()
                invariant
                    i <= members@.len(),
                    model == views(members@),
                    json_node(json@) == Ok::<NodeModel, Seq<char>>(NodeModel::Object(model)),
                    facts.wf(),
                    facts_set(model.take(i as int)) == Some(facts@),
                decreases members.len() - i,
            {
                proof {
                    assert(model.take(i + 1).drop_last() =~= model.take(i as int));
                    assert(model.take(i + 1).last() == model[i as int]);
                }
                match read_node(members[i].1.as_str()) {
                    Ok(JsonNode::Text(value)) => {
                        facts.insert(members[i].0.clone(), value);
                    },
                    _ => {
                        proof {
                            lemma_facts_set_none(model, i + 1);
                        }
                        return None;
                    },
                }
                i += 1;
            }
            proof {
                assert(model.take(i as int) =~= model);
            }
            Some(facts)
        },
        _ => None,
    }
}

/// The JSON text inside an answer that may be fenced as a code block.
pub open spec fn fenced_json(input: Seq<char>) -> Option<Seq<char>> {
    let text = trim(input);
    if "```"@.is_prefix_of(text) {
        let inner = match after_prefix(text, "```json"@) {
            Some(rest) => Some(rest),
            None => after_prefix(text, "```"@),
        };
        match inner {
            Some(rest) => match before_suffix(rest, "```"@) {
                Some(body) => Some(trim(body)),
                None => None,
            },
            None => None,
        }
    } else {
        Some(text)
    }
}

/// The facts that an answer stands for, or why it stands for none.
pub open spec fn answer_facts(input: Seq<char>) -> Result<Seq<(Seq<char>, Seq<char>)>, Seq<char>> {
    match fenced_json(input) {
        None => Err("модель вернула некорректный блок facts"@),
        Some(json) => match facts_in(json) {
            None => Err("модель вернула facts не в формате JSON key-value"@),
            Some(facts) => Ok(facts),
        },
    }
}

/// Reads the facts that the model answered with.
pub fn parse_facts(input: &str) -> (r: Result<TextMap, String>)
    ensures
        agrees(r, answer_facts(input@)),
        r is Ok ==> r->Ok_0.wf(),
{
    let text = trimmed(input);
    let json = if starts_with_text(text.as_str(), "```") {
        let inner = match without_prefix(text.as_str(), "```json") {
            Some(rest) => Some(rest),
            None => without_prefix(text.as_str(), "```"),
        };
        match inner {
            Some(rest) => match without_suffix(rest.as_str(), "```") {
                Some(body) => trimmed(body.as_str()),
                None => return Err("модель вернула некорректный блок facts".to_owned()),
            },
            None => return Err("модель вернула некорректный блок facts".to_owned()),
        }
    } else {
        text
    };
    match read_facts(json.as_str()) {
        Some(facts) => Ok(facts),
        None => Err("модель вернула facts не в формате JSON key-value".to_owned()),
    }
}

proof fn lemma_facts_read_back(entries: Seq<(Seq<char>, Seq<char>)>, n: nat)
    requires
        is_text_map(entries),
        n <= entries.len(),
        forall|i: int|
            0 <= i < entries.len() ==> reads_as_text(
                json_string((#[trigger] entries[i]).1),
                entries[i].1,
            ),
    ensures
        facts_set(quoted_entries(entries).take(n as int)) == Some(entries.take(n as int)),
    decreases n,
{
    let quoted = quoted_entries(entries);
    if n == 0 {
        assert(quoted.take(0).len() == 0);
        assert(entries.take(0) =~= Seq::empty());
    } else {
        lemma_facts_read_back(entries, (n - 1) as nat);
        let head = entries.take(n - 1);
        let key = entries[n - 1].0;
        assert(quoted.take(n as int).drop_last() =~= quoted.take(n - 1));
        assert(quoted.take(n as int).last() == (key, json_string(entries[n - 1].1)));
        let keys = keys_of(entries);
        assert forall|i: int, j: int| 0 <= i < j < keys_of(head).len() implies before(
            #[trigger] keys_of(head)[i],
            #[trigger] keys_of(head)[j],
        ) by {
            assert(before(keys[i], keys[j]));
        }
        lemma_key_place(head, key);
        let at = key_place(head, key) as int;
        if at < head.len() {
            assert(!before(head[at].0, key));
            assert(before(keys[at], keys[n - 1]));
        }
        assert(head.insert(at, (key, entries[n - 1].1)) =~= entries.take(n as int));
    }
}

/// Writes facts as a JSON object, from which they are read back unchanged.
pub fn write_facts(facts: &TextMap) -> (r: String)
    requires
        facts.wf(),
    ensures
        r@ == map_text(facts@),
        facts_in(r@) == Some(facts@),
{
    let r = write_map(facts.entries());
    proof {
        facts.lemma_wf();
        let entries = facts@;
        lemma_facts_read_back(entries, entries.len());
        assert(quoted_entries(entries).take(entries.len() as int) =~= quoted_entries(entries));
        assert(entries.take(entries.len() as int) =~= entries);
    }
    r
}

/// A value with a key is the last one that an object gives it.
pub open spec fn last_value(
    members: Seq<(Seq<char>, Seq<char>)>,
    key: Seq<char>,
) -> Option<Seq<char>>
    decreases members.len(),
{
    if members.len() == 0 {
        None
    } else if members.last().0 == key {
        Some(members.last().1)
    } else {
        last_value(members.drop_last(), key)
    }
}

proof fn lemma_facts_are_a_map(members: Seq<(Seq<char>, Seq<char>)>)
    ensures
        facts_set(members) matches Some(facts) ==> is_text_map(facts),
    decreases members.len(),
{
    if members.len() > 0 {
        lemma_facts_are_a_map(members.drop_last());
        match (facts_set(members.drop_last()), json_node(members.last().1)) {
            (Some(entries), Ok(NodeModel::Text(value))) => {
                lemma_map_set(entries, members.last().0, value);
            },
            _ => {},
        }
    }
}

/// The facts of an object are its members: facts are read exactly where every value is a text, and a
/// key then has the text that the object gives it last, or none where the object does not name it.
pub proof fn law_facts_are_the_members(members: Seq<(Seq<char>, Seq<char>)>, key: Seq<char>)
    ensures
        facts_set(members) is Some <==> forall|i: int|
            0 <= i < members.len() ==> (json_node((#[trigger] members[i]).1) matches Ok(
                NodeModel::Text(_),
            )),
        facts_set(members) matches Some(facts) ==> is_text_map(facts) && (match last_value(
            members,
            key,
        ) {
            Some(text) => json_node(text) matches Ok(NodeModel::Text(value)) && map_get(facts, key)
                == Some(value),
            None => map_get(facts, key) is None,
        }),
    decreases members.len(),
{
    lemma_facts_are_a_map(members);
    if members.len() == 0 {
        lemma_key_place(Seq::empty(), key);
    } else {
        let head = members.drop_last();
        let last = members.last();
        law_facts_are_the_members(head, key);
        lemma_facts_are_a_map(head);
        assert forall|i: int| 0 <= i < head.len() implies head[i] == #[trigger] members[i] by {}
        assert(members[members.len() - 1] == last);
        if facts_set(members) is Some {
            assert forall|i: int| 0 <= i < members.len() implies (json_node(
                (#[trigger] members[i]).1,
            ) matches Ok(NodeModel::Text(_))) by {
                if i < head.len() {
                    assert(head[i] == members[i]);
                }
            }
            match (facts_set(head), json_node(last.1)) {
                (Some(entries), Ok(NodeModel::Text(value))) => {
                    law_map_get_after_set(entries, last.0, value, key);
                },
                _ => {},
            }
        } else if forall|i: int|
            0 <= i < members.len() ==> (json_node((#[trigger] members[i]).1) matches Ok(
                NodeModel::Text(_),
            )) {
            assert forall|i: int| 0 <= i < head.len() implies (json_node(
                (#[trigger] head[i]).1,
            ) matches Ok(NodeModel::Text(_))) by {
                assert(head[i] == members[i]);
            }
            assert(json_node(members[members.len() - 1].1) matches Ok(NodeModel::Text(_)));
        }
    }
}

/// The facts of an answer are those of the JSON object in it, fenced as a code block or not.
pub proof fn law_fences_make_no_difference(json: Seq<char>)
    requires
        json.len() > 0,
        !is_white(json[0]),
        !is_white(json.last()),
        json[0] != '`',
    ensures
        answer_facts(json) == match json_node(json) {
            Ok(NodeModel::Object(members)) => match facts_set(members) {
                Some(facts) => Ok(facts),
                None => Err("модель вернула facts не в формате JSON key-value"@),
            },
            _ => Err("модель вернула facts не в формате JSON key-value"@),
        },
        answer_facts("```json\n"@ + json + "\n```"@) == answer_facts(json),
        answer_facts("```\n"@ + json + "\n```"@) == answer_facts(json),
        json.last() != '`' ==> answer_facts("```json\n"@ + json) is Err,
{
    reveal_strlit("```json\n");
    reveal_strlit("\n```");
    reveal_strlit("```\n");
    reveal_strlit("```");
    reveal_strlit("```json");
    lemma_trim_fixed(json);
    assert(!"```"@.is_prefix_of(json)) by {
        if "```"@.is_prefix_of(json) {
            assert("```"@[0] == json[0]);
        }
    }
    let body = "\n"@ + json + "\n"@;
    reveal_strlit("\n");
    assert(trim(body) == json) by {
        assert(body[0] == '\n');
        assert(body.skip(1) =~= json + "\n"@);
        assert((json + "\n"@)[0] == json[0]);
        assert(trim_start(json + "\n"@) == json + "\n"@);
        assert(trim_start(body) == json + "\n"@);
        assert((json + "\n"@).last() == '\n');
        assert((json + "\n"@).drop_last() =~= json);
        assert(trim_end(json + "\n"@) == trim_end(json));
    }
    let tagged = "```json\n"@ + json + "\n```"@;
    lemma_trim_fixed(tagged);
    assert("```"@ =~= tagged.take(3));
    assert(tagged.take(7) =~= "```json"@);
    assert(tagged.skip(7) =~= body + "```"@);
    let rest = body + "```"@;
    assert(rest.subrange(rest.len() - 3, rest.len() as int) =~= "```"@);
    assert(rest.take(rest.len() - 3) =~= body);
    let plain = "```\n"@ + json + "\n```"@;
    lemma_trim_fixed(plain);
    assert("```"@ =~= plain.take(3));
    assert(!"```json"@.is_prefix_of(plain)) by {
        if "```json"@.is_prefix_of(plain) {
            assert("```json"@[3] == plain[3]);
        }
    }
    assert(plain.skip(3) =~= rest);
    let open = "```json\n"@ + json;
    lemma_trim_fixed(open);
    assert("```"@ =~= open.take(3));
    assert(open.take(7) =~= "```json"@);
    assert(open.skip(7) =~= "\n"@ + json);
    if json.last() != '`' {
        let tail = "\n"@ + json;
        assert(!"```"@.is_suffix_of(tail)) by {
            if "```"@.is_suffix_of(tail) {
                assert("```"@.last() == tail.last());
            }
        }
    }
}

} // verus!
