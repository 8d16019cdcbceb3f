//! The text form of TODO lists, as it is stored and as the model sees it.

use vstd::prelude::*;

use crate::json::{
    json_node, json_string, lemma_json_string_plain, quote, read_node, reads_as_text, JsonNode,
    NodeModel,
};
use crate::memory::{
    described_todo, has_duplicate, has_key, memory_text, text_key, validate_memory_text, ItemModel,
    TaskTodo, TodoItem, TodoModel, TASK_FACTS_MAX, TASK_FACT_MAX_CHARS, TASK_ITEMS_MAX,
    TASK_ITEM_MAX_CHARS,
};
use crate::numbers::{
    bounded_natural_of, decimal, decimal_text, is_digit, lemma_decimal_round_trip,
    lemma_decimal_value, parse_u64, parse_usize, size_text,
};
use crate::tasks::{is_stored_text, valid_facts, valid_items, valid_todo};
use crate::text::{
    after_prefix, agrees, before_suffix, is_blank, is_line, is_white, join, joined,
    lemma_index_unique, lemma_join_front, lemma_lines_of_join, lemma_trim_idempotent,
    lemma_views_push, lines, same, split_at_char, split_lines, split_once_char, starts_with_text,
    trim, trim_start, trimmed_start, view_option, views, without_prefix, without_suffix,
};

verus! {

broadcast use lemma_views_push;

// Writing.

/// The line of a fact.
pub open spec fn fact_line(fact: Seq<char>) -> Seq<char> {
    "  "@ + json_string(fact)
}

/// The flag of a point: `1` when it is done.
pub open spec fn done_flag(done: bool) -> Seq<char> {
    if done {
        "1"@
    } else {
        "0"@
    }
}

/// The line of a point.
pub open spec fn item_line(item: ItemModel) -> Seq<char> {
    "  "@ + decimal(item.id as nat) + ","@ + done_flag(item.done) + ","@ + json_string(item.text)
}

/// The line before `n` facts or points.
pub open spec fn header_line(prefix: Seq<char>, n: nat, suffix: Seq<char>) -> Seq<char> {
    prefix + decimal(n) + suffix
}

/// The lines of the facts.
pub open spec fn fact_lines(facts: Seq<Seq<char>>) -> Seq<Seq<char>> {
    Seq::new(facts.len(), |i: int| fact_line(facts[i]))
}

/// The lines of the points.
pub open spec fn item_lines(items: Seq<ItemModel>) -> Seq<Seq<char>> {
    Seq::new(items.len(), |i: int| item_line(items[i]))
}

/// The lines of a TODO list.
pub open spec fn todo_lines(todo: TodoModel) -> Seq<Seq<char>> {
    seq![header_line("f["@, todo.facts.len(), "]:"@)] + fact_lines(todo.facts) + seq![
        header_line("e["@, todo.execution.len(), "]{id,x,text}:"@),
    ] + item_lines(todo.execution) + seq![
        header_line("v["@, todo.validation.len(), "]{id,x,text}:"@),
    ] + item_lines(todo.validation)
}

/// The text of a TODO list.
pub open spec fn todo_text(todo: TodoModel) -> Seq<char> {
    join(todo_lines(todo), "\n"@)
}

// Reading.

/// The number in a header line.
pub open spec fn header_count(header: Seq<char>, prefix: Seq<char>, suffix: Seq<char>) -> Result<
    nat,
    Seq<char>,
> {
    match after_prefix(header, prefix) {
        None => Err("неверный заголовок TODO TOON"@),
        Some(rest) => match before_suffix(rest, suffix) {
            None => Err("неверный заголовок TODO TOON"@),
            Some(digits) => match bounded_natural_of(digits, usize::MAX as nat) {
                None => Err("неверное число элементов TODO TOON"@),
                Some(n) => Ok(n),
            },
        },
    }
}

/// The fact of a line, after the facts `prior`.
pub open spec fn decoded_fact(line: Seq<char>, prior: Seq<Seq<char>>) -> Result<
    Seq<char>,
    Seq<char>,
> {
    match json_node(trim_start(line)) {
        Ok(NodeModel::Text(text)) => match memory_text(
            text,
            "факт задачи"@,
            TASK_FACT_MAX_CHARS as nat,
        ) {
            Err(message) => Err(message),
            Ok(fact) => if has_key(prior, fact) {
                Err("повторяющийся факт TODO"@)
            } else {
                Ok(fact)
            },
        },
        _ => Err("повреждён факт TODO TOON"@),
    }
}

/// The facts of `count` lines from position `from` on.
pub open spec fn decoded_facts(ls: Seq<Seq<char>>, from: int, count: nat) -> Result<
    Seq<Seq<char>>,
    Seq<char>,
>
    decreases count,
{
    if count == 0 {
        Ok(Seq::empty())
    } else {
        match decoded_facts(ls, from, (count - 1) as nat) {
            Err(message) => Err(message),
            Ok(prior) => if from + count - 1 >= ls.len() {
                Err("TODO TOON оборван"@)
            } else {
                match decoded_fact(ls[from + count - 1], prior) {
                    Err(message) => Err(message),
                    Ok(fact) => Ok(prior.push(fact)),
                }
            },
        }
    }
}

/// The part before the first comma, and the part after it if there is one.
pub open spec fn comma_split(s: Seq<char>) -> (Seq<char>, Option<Seq<char>>) {
    match split_at_char(s, ',') {
        Some(parts) => (parts.0, Some(parts.1)),
        None => (s, None),
    }
}

/// Whether one of the points has this identifier.
pub open spec fn has_id(items: Seq<ItemModel>, id: u64) -> bool {
    exists|i: int| 0 <= i < items.len() && (#[trigger] items[i]).id == id
}

/// The point made of an identifier and what follows its comma.
pub open spec fn decoded_point(
    id: u64,
    rest: Seq<char>,
    label: Seq<char>,
    prior: Seq<ItemModel>,
) -> Result<ItemModel, Seq<char>> {
    let flag = comma_split(rest).0;
    if flag != "0"@ && flag != "1"@ {
        Err("неверный флаг TODO TOON"@)
    } else {
        match comma_split(rest).1 {
            None => Err("в TODO TOON отсутствует текст пункта"@),
            Some(quoted) => match json_node(quoted) {
                Ok(NodeModel::Text(text)) => match memory_text(
                    text,
                    label,
                    TASK_ITEM_MAX_CHARS as nat,
                ) {
                    Err(message) => Err(message),
                    Ok(text) => if has_id(prior, id) {
                        Err("повторяющийся ID TODO"@)
                    } else {
                        Ok(ItemModel { id, done: flag == "1"@, text })
                    },
                },
                _ => Err("повреждён текст пункта TODO TOON"@),
            },
        }
    }
}

/// The point of a line, after the points `prior`.
pub open spec fn decoded_item(line: Seq<char>, label: Seq<char>, prior: Seq<ItemModel>) -> Result<
    ItemModel,
    Seq<char>,
> {
    let parts = comma_split(trim_start(line));
    match bounded_natural_of(parts.0, u64::MAX as nat) {
        None => Err("неверный ID TODO TOON"@),
        Some(id) => if id == 0 {
            Err("ID TODO должен быть положительным"@)
        } else {
            match parts.1 {
                None => Err("в TODO TOON отсутствует флаг"@),
                Some(rest) => decoded_point(id as u64, rest, label, prior),
            }
        },
    }
}

/// The points of `count` lines from position `from` on.
pub open spec fn decoded_items(
    ls: Seq<Seq<char>>,
    from: int,
    count: nat,
    label: Seq<char>,
) -> Result<Seq<ItemModel>, Seq<char>>
    decreases count,
{
    if count == 0 {
        Ok(Seq::empty())
    } else {
        match decoded_items(ls, from, (count - 1) as nat, label) {
            Err(message) => Err(message),
            Ok(prior) => if from + count - 1 >= ls.len() {
                Err("TODO TOON оборван"@)
            } else {
                match decoded_item(ls[from + count - 1], label, prior) {
                    Err(message) => Err(message),
                    Ok(item) => Ok(prior.push(item)),
                }
            },
        }
    }
}

/// Whether only blank lines stand from position `from` on.
pub open spec fn blank_from(ls: Seq<Seq<char>>, from: int) -> bool {
    forall|i: int| from <= i < ls.len() ==> trim(#[trigger] ls[i]).len() == 0
}

/// A section of points whose header stands at position `at`.
pub open spec fn decoded_section(
    ls: Seq<Seq<char>>,
    at: int,
    prefix: Seq<char>,
    name: Seq<char>,
) -> Result<Seq<ItemModel>, Seq<char>> {
    if at >= ls.len() {
        Err("нет секции "@ + name + " TODO"@)
    } else {
        match header_count(ls[at], prefix, "]{id,x,text}:"@) {
            Err(message) => Err(message),
            Ok(count) => if count > TASK_ITEMS_MAX {
                Err("слишком много "@ + name + "-пунктов"@)
            } else {
                decoded_items(ls, at + 1, count, name + " TODO"@)
            },
        }
    }
}

/// The facts of a TODO list whose header stands in the first line.
pub open spec fn decoded_fact_section(ls: Seq<Seq<char>>) -> Result<Seq<Seq<char>>, Seq<char>> {
    if ls.len() == 0 {
        Err("пустой TODO TOON"@)
    } else {
        match header_count(ls[0], "f["@, "]:"@) {
            Err(message) => Err(message),
            Ok(count) => if count > TASK_FACTS_MAX {
                Err("слишком много фактов задачи"@)
            } else {
                decoded_facts(ls, 1, count)
            },
        }
    }
}

/// The TODO list that stands in these lines, or the first thing that is wrong with them.
pub open spec fn decoded_lines(ls: Seq<Seq<char>>) -> Result<TodoModel, Seq<char>> {
    match decoded_fact_section(ls) {
        Err(message) => Err(message),
        Ok(facts) => {
            let at = 1 + facts.len();
            match decoded_section(ls, at as int, "e["@, "execution"@) {
                Err(message) => Err(message),
                Ok(execution) => {
                    let next = at + 1 + execution.len();
                    match decoded_section(ls, next as int, "v["@, "validation"@) {
                        Err(message) => Err(message),
                        Ok(validation) => if blank_from(ls, (next + 1 + validation.len()) as int) {
                            Ok(TodoModel { facts, execution, validation })
                        } else {
                            Err("лишние строки TODO TOON"@)
                        },
                    }
                },
            }
        },
    }
}

/// The TODO list that a text stands for. A text that does not start like a list is a description.
pub open spec fn decoded_todo(input: Seq<char>) -> Result<TodoModel, Seq<char>> {
    if "f["@.is_prefix_of(input) {
        decoded_lines(lines(input))
    } else {
        described_todo(input)
    }
}

/// The number in a header line.
pub fn parse_count(header: &str, prefix: &str, suffix: &str) -> (r: Result<usize, String>)
    ensures
        match (r, header_count(header@, prefix@, suffix@)) {
            (Ok(n), Ok(model)) => n == model,
            (Err(message), Err(model)) => message@ == model,
            _ => false,
        },
{
    match without_prefix(header, prefix) {
        None => Err("неверный заголовок TODO TOON".to_owned()),
        Some(rest) => match without_suffix(rest.as_str(), suffix) {
            None => Err("неверный заголовок TODO TOON".to_owned()),
            Some(digits) => match parse_usize(digits.as_str()) {
                None => Err("неверное число элементов TODO TOON".to_owned()),
                Some(n) => Ok(n),
            },
        },
    }
}

proof fn lemma_facts_stop(ls: Seq<Seq<char>>, from: int, n: nat, count: nat)
    requires
        n <= count,
        decoded_facts(ls, from, n) is Err,
    ensures
        decoded_facts(ls, from, count) == decoded_facts(ls, from, n),
    decreases count,
{
    if n < count {
        lemma_facts_stop(ls, from, n, (count - 1) as nat);
    }
}

proof fn lemma_items_stop(ls: Seq<Seq<char>>, from: int, n: nat, count: nat, label: Seq<char>)
    requires
        n <= count,
        decoded_items(ls, from, n, label) is Err,
    ensures
        decoded_items(ls, from, count, label) == decoded_items(ls, from, n, label),
    decreases count,
{
    if n < count {
        lemma_items_stop(ls, from, n, (count - 1) as nat, label);
    }
}

fn decode_fact(line: &str, prior: &Vec<String>) -> (r: Result<String, String>)
    ensures
        agrees(r, decoded_fact(line@, views(prior@))),
{
    let quoted = trimmed_start(line);
    match read_node(quoted.as_str()) {
        Ok(JsonNode::Text(text)) => match validate_memory_text(
            text.as_str(),
            "факт задачи",
            TASK_FACT_MAX_CHARS,
        ) {
            Err(message) => Err(message),
            Ok(fact) => if has_duplicate(prior, fact.as_str()) {
                Err("повторяющийся факт TODO".to_owned())
            } else {
                Ok(fact)
            },
        },
        _ => Err("повреждён факт TODO TOON".to_owned()),
    }
}

fn split_comma(s: &str) -> (r: (String, Option<String>))
    ensures
        (r.0@, view_option(r.1)) == comma_split(s@),
{
    match split_once_char(s, ',') {
        Some(parts) => (parts.0, Some(parts.1)),
        None => (s.to_owned(), None),
    }
}

fn holds_id(items: &Vec<TodoItem>, id: u64) -> (r: bool)
    ensures
        r == has_id(views(items@), id),
{
    let ghost model = views(items@);
    let mut i: usize = 0;
    while i < items.len()
        invariant
            i <= items@.len(),
            model == views(items@),
            forall|k: int| 0 <= k < i ==> (#[trigger] model[k]).id != id,
        decreases items.len() - i,
    {
        if items[i].id == id {
            proof {
                assert(model[i as int].id == id);
            }
            return true;
        }
        i += 1;
    }
    false
}

fn decode_item(line: &str, label: &str, prior: &Vec<TodoItem>) -> (r: Result<TodoItem, String>)
    ensures
        agrees(r, decoded_item(line@, label@, views(prior@))),
{
    let start = trimmed_start(line);
    let (id_text, after_id) = split_comma(start.as_str());
    let id: u64 = match parse_u64(id_text.as_str()) {
        None => return Err("неверный ID TODO TOON".to_owned()),
        Some(id) => id,
    };
    if id == 0 {
        return Err("ID TODO должен быть положительным".to_owned());
    }
    let rest = match after_id {
        None => return Err("в TODO TOON отсутствует флаг".to_owned()),
        Some(rest) => rest,
    };
    let (flag, after_flag) = split_comma(rest.as_str());
    let done = same(flag.as_str(), "1");
    if !done && !same(flag.as_str(), "0") {
        return Err("неверный флаг TODO TOON".to_owned());
    }
    let quoted = match after_flag {
        None => return Err("в TODO TOON отсутствует текст пункта".to_owned()),
        Some(quoted) => quoted,
    };
    match read_node(quoted.as_str()) {
        Ok(JsonNode::Text(text)) => match validate_memory_text(
            text.as_str(),
            label,
            TASK_ITEM_MAX_CHARS,
        ) {
            Err(message) => Err(message),
            Ok(text) => if holds_id(prior, id) {
                Err("повторяющийся ID TODO".to_owned())
            } else {
                Ok(TodoItem { id, done, text })
            },
        },
        _ => Err("повреждён текст пункта TODO TOON".to_owned()),
    }
}

/// Reads `count` points from the lines that start at `from`.
pub fn decode_items(lines: &Vec<String>, from: usize, count: usize, label: &str) -> (r: Result<
    Vec<TodoItem>,
    String,
>)
    requires
        from <= lines@.len(),
    ensures
        match (r, decoded_items(views(lines@), from as int, count as nat, label@)) {
            (Ok(items), Ok(model)) => views(items@) == model && items@.len() == count && from
                + count <= lines@.len(),
            (Err(message), Err(model)) => message@ == model,
            _ => false,
        },
{
    let ghost ls = views(lines@);
    let mut items: Vec<TodoItem> = Vec::new();
    let mut i: usize = 0;
    proof {
        assert(views(items@) =~= Seq::<ItemModel>::empty());
    }
    while i < count
        invariant
            i <= count,
            from + i <= lines@.len(),
            items@.len() == i,
            ls == views(lines@),
            decoded_items(ls, from as int, i as nat, label@) == Ok::<Seq<ItemModel>, Seq<char>>(
                views(items@),
            ),
        decreases count - i,
    {
        if i >= lines.len() - from {
            proof {
                lemma_items_stop(ls, from as int, (i + 1) as nat, count as nat, label@);
            }
            return Err("TODO TOON оборван".to_owned());
        }
        match decode_item(lines[from + i].as_str(), label, &items) {
            Err(message) => {
                proof {
                    lemma_items_stop(ls, from as int, (i + 1) as nat, count as nat, label@);
                }
                return Err(message);
            },
            Ok(item) => {
                items.push(item);
            },
        }
        i += 1;
    }
    Ok(items)
}

fn decode_facts(lines: &Vec<String>, count: usize) -> (r: Result<Vec<String>, String>)
    requires
        lines@.len() > 0,
    ensures
        match (r, decoded_facts(views(lines@), 1, count as nat)) {
            (Ok(facts), Ok(model)) => views(facts@) == model && facts@.len() == count && 1 + count
                <= lines@.len(),
            (Err(message), Err(model)) => message@ == model,
            _ => false,
        },
{
    let ghost ls = views(lines@);
    let mut facts: Vec<String> = Vec::new();
    let mut i: usize = 0;
    proof {
        assert(views(facts@) =~= Seq::<Seq<char>>::empty());
    }
    while i < count
        invariant
            i <= count,
            1 + i <= lines@.len(),
            facts@.len() == i,
            ls == views(lines@),
            decoded_facts(ls, 1, i as nat) == Ok::<Seq<Seq<char>>, Seq<char>>(views(facts@)),
        decreases count - i,
    {
        if i >= lines.len() - 1 {
            proof {
                lemma_facts_stop(ls, 1, (i + 1) as nat, count as nat);
            }
            return Err("TODO TOON оборван".to_owned());
        }
        match decode_fact(lines[1 + i].as_str(), &facts) {
            Err(message) => {
                proof {
                    lemma_facts_stop(ls, 1, (i + 1) as nat, count as nat);
                }
                return Err(message);
            },
            Ok(fact) => {
                facts.push(fact);
            },
        }
        i += 1;
    }
    Ok(facts)
}

fn decode_section(lines: &Vec<String>, at: usize, prefix: &str, name: &str) -> (r: Result<
    Vec<TodoItem>,
    String,
>)
    requires
        at <= lines@.len(),
    ensures
        match (r, decoded_section(views(lines@), at as int, prefix@, name@)) {
            (Ok(items), Ok(model)) => views(items@) == model && at + 1 + items@.len()
                <= lines@.len(),
            (Err(message), Err(model)) => message@ == model,
            _ => false,
        },
{
    if at == lines.len() {
        return Err("нет секции ".to_owned().concat(name).concat(" TODO"));
    }
    let count = match parse_count(lines[at].as_str(), prefix, "]{id,x,text}:") {
        Err(message) => return Err(message),
        Ok(count) => count,
    };
    if count > TASK_ITEMS_MAX {
        return Err("слишком много ".to_owned().concat(name).concat("-пунктов"));
    }
    let label = name.to_owned().concat(" TODO");
    decode_items(lines, at + 1, count, label.as_str())
}

fn only_blank(lines: &Vec<String>, from: usize) -> (r: bool)
    ensures
        r == blank_from(views(lines@), from as int),
{
    let ghost ls = views(lines@);
    let mut i: usize = from;
    while i < lines.len()
        invariant
            from <= i,
            ls == views(lines@),
            forall|k: int| from <= k < i && k < ls.len() ==> trim(#[trigger] ls[k]).len() == 0,
        decreases lines.len() - i,
    {
        if !is_blank(lines[i].as_str()) {
            proof {
                assert(trim(ls[i as int]).len() != 0);
            }
            return false;
        }
        i += 1;
    }
    true
}

/// Reads a TODO list from its text. A text in another form becomes the description of the task.
pub fn decode_task_todo(input: &str) -> (r: Result<TaskTodo, String>)
    ensures
        agrees(r, decoded_todo(input@)),
{
    if !starts_with_text(input, "f[") {
        return TaskTodo::from_description(input);
    }
    let lines = split_lines(input);
    if lines.len() == 0 {
        return Err("пустой TODO TOON".to_owned());
    }
    let count = match parse_count(lines[0].as_str(), "f[", "]:") {
        Err(message) => return Err(message),
        Ok(count) => count,
    };
    if count > TASK_FACTS_MAX {
        return Err("слишком много фактов задачи".to_owned());
    }
    let facts = match decode_facts(&lines, count) {
        Err(message) => return Err(message),
        Ok(facts) => facts,
    };
    let at = 1 + count;
    let execution = match decode_section(&lines, at, "e[", "execution") {
        Err(message) => return Err(message),
        Ok(items) => items,
    };
    let next = at + 1 + execution.len();
    let validation = match decode_section(&lines, next, "v[", "validation") {
        Err(message) => return Err(message),
        Ok(items) => items,
    };
    if !only_blank(&lines, next + 1 + validation.len()) {
        return Err("лишние строки TODO TOON".to_owned());
    }
    Ok(TaskTodo { facts, execution, validation })
}

// Reading back what was written.

/// Every text of the list is read back from its JSON string.
pub open spec fn texts_read_back(todo: TodoModel) -> bool {
    &&& forall|i: int|
        0 <= i < todo.facts.len() ==> reads_as_text(
            json_string(#[trigger] todo.facts[i]),
            todo.facts[i],
        )
    &&& items_read_back(todo.execution)
    &&& items_read_back(todo.validation)
}

/// Every text of the points is read back from its JSON string.
pub open spec fn items_read_back(items: Seq<ItemModel>) -> bool {
    forall|i: int|
        0 <= i < items.len() ==> reads_as_text(
            json_string((#[trigger] items[i]).text),
            items[i].text,
        )
}

proof fn lemma_trim_indent(s: Seq<char>)
    requires
        s.len() > 0,
        !is_white(s[0]),
    ensures
        trim_start("  "@ + s) == s,
{
    reveal_strlit("  ");
    let whole = "  "@ + s;
    assert(whole.skip(1).skip(1) =~= s);
    assert(trim_start(s) == s);
    assert(whole[0] == ' ');
    assert(whole.skip(1)[0] == ' ');
    assert(trim_start(whole.skip(1)) == trim_start(whole.skip(1).skip(1)));
}

proof fn lemma_header(prefix: Seq<char>, n: nat, suffix: Seq<char>)
    requires
        n <= usize::MAX,
    ensures
        header_count(header_line(prefix, n, suffix), prefix, suffix) == Ok::<nat, Seq<char>>(n),
{
    let header = header_line(prefix, n, suffix);
    let rest = decimal(n) + suffix;
    assert(header =~= prefix + rest);
    assert(header.take(prefix.len() as int) =~= prefix);
    assert(header.skip(prefix.len() as int) =~= rest);
    assert(rest.skip(rest.len() - suffix.len()) =~= suffix);
    assert(rest.subrange(rest.len() - suffix.len(), rest.len() as int) =~= suffix);
    assert(rest.take(rest.len() - suffix.len()) =~= decimal(n));
    lemma_decimal_round_trip(n);
}

proof fn lemma_fact_decodes(fact: Seq<char>, prior: Seq<Seq<char>>)
    requires
        is_stored_text(fact, TASK_FACT_MAX_CHARS as nat),
        reads_as_text(json_string(fact), fact),
        !has_key(prior, fact),
    ensures
        decoded_fact(fact_line(fact), prior) == Ok::<Seq<char>, Seq<char>>(fact),
{
    lemma_json_string_plain(fact);
    lemma_trim_indent(json_string(fact));
}

proof fn lemma_comma(a: Seq<char>, b: Seq<char>)
    requires
        forall|i: int| 0 <= i < a.len() ==> #[trigger] a[i] != ',',
    ensures
        comma_split(a + ","@ + b) == (a, Some(b)),
{
    reveal_strlit(",");
    let whole = a + ","@ + b;
    assert(whole[a.len() as int] == ',');
    assert forall|i: int| 0 <= i < a.len() implies #[trigger] whole[i] != ',' by {
        assert(whole[i] == a[i]);
    }
    lemma_index_unique(whole, ',', a.len() as int);
    assert(whole.take(a.len() as int) =~= a);
    assert(whole.skip(a.len() as int + 1) =~= b);
}

proof fn lemma_item_decodes(item: ItemModel, label: Seq<char>, prior: Seq<ItemModel>)
    requires
        item.id > 0,
        is_stored_text(item.text, TASK_ITEM_MAX_CHARS as nat),
        reads_as_text(json_string(item.text), item.text),
        !has_id(prior, item.id),
    ensures
        decoded_item(item_line(item), label, prior) == Ok::<ItemModel, Seq<char>>(item),
{
    let digits = decimal(item.id as nat);
    let flag = done_flag(item.done);
    let quoted = json_string(item.text);
    let rest = flag + ","@ + quoted;
    let body = digits + ","@ + rest;
    lemma_decimal_value(item.id as nat);
    lemma_decimal_round_trip(item.id as nat);
    assert(item_line(item) =~= "  "@ + body);
    assert(is_digit(digits[0]));
    assert(body[0] == digits[0]);
    lemma_trim_indent(body);
    assert forall|i: int| 0 <= i < digits.len() implies #[trigger] digits[i] != ',' by {
        assert(is_digit(digits[i]));
    }
    lemma_comma(digits, rest);
    reveal_strlit("0");
    reveal_strlit("1");
    assert("1"@[0] == '1' && "0"@[0] == '0');
    lemma_comma(flag, quoted);
}

proof fn lemma_facts_decode(facts: Seq<Seq<char>>, ls: Seq<Seq<char>>, from: int, n: nat)
    requires
        0 <= from,
        n <= facts.len(),
        from + facts.len() <= ls.len(),
        valid_facts(facts),
        forall|i: int|
            0 <= i < facts.len() ==> reads_as_text(json_string(#[trigger] facts[i]), facts[i]),
        forall|i: int|
            0 <= i < facts.len() ==> ls[from + i] == fact_line(#[trigger] facts[i]),
    ensures
        decoded_facts(ls, from, n) == Ok::<Seq<Seq<char>>, Seq<char>>(facts.take(n as int)),
    decreases n,
{
    if n == 0 {
        assert(facts.take(0) =~= Seq::empty());
    } else {
        lemma_facts_decode(facts, ls, from, (n - 1) as nat);
        let prior = facts.take(n - 1);
        let fact = facts[n - 1];
        assert(!has_key(prior, fact)) by {
            if has_key(prior, fact) {
                let k = choose|k: int|
                    0 <= k < prior.len() && text_key(#[trigger] prior[k]) == text_key(fact);
                assert(prior[k] == facts[k]);
            }
        }
        lemma_fact_decodes(fact, prior);
        assert(ls[from + (n - 1)] == fact_line(facts[n - 1]));
        assert(prior.push(fact) =~= facts.take(n as int));
    }
}

proof fn lemma_items_decode(
    items: Seq<ItemModel>,
    ls: Seq<Seq<char>>,
    from: int,
    n: nat,
    label: Seq<char>,
)
    requires
        0 <= from,
        n <= items.len(),
        from + items.len() <= ls.len(),
        valid_items(items),
        items_read_back(items),
        forall|i: int|
            0 <= i < items.len() ==> ls[from + i] == item_line(#[trigger] items[i]),
    ensures
        decoded_items(ls, from, n, label) == Ok::<Seq<ItemModel>, Seq<char>>(items.take(n as int)),
    decreases n,
{
    if n == 0 {
        assert(items.take(0) =~= Seq::empty());
    } else {
        lemma_items_decode(items, ls, from, (n - 1) as nat, label);
        let prior = items.take(n - 1);
        let item = items[n - 1];
        assert(!has_id(prior, item.id)) by {
            if has_id(prior, item.id) {
                let k = choose|k: int|
                    0 <= k < prior.len() && (#[trigger] prior[k]).id == item.id;
                assert(prior[k] == items[k]);
            }
        }
        lemma_item_decodes(item, label, prior);
        assert(ls[from + (n - 1)] == item_line(items[n - 1]));
        assert(prior.push(item) =~= items.take(n as int));
    }
}

proof fn lemma_header_is_line(prefix: Seq<char>, n: nat, suffix: Seq<char>)
    requires
        is_line(prefix),
        is_line(suffix),
    ensures
        is_line(header_line(prefix, n, suffix)),
{
    lemma_decimal_value(n);
    let header = header_line(prefix, n, suffix);
    assert forall|i: int| 0 <= i < header.len() implies #[trigger] header[i] != '\n' by {
        if i < prefix.len() {
            assert(header[i] == prefix[i]);
        } else if i < prefix.len() + decimal(n).len() {
            assert(header[i] == decimal(n)[i - prefix.len()]);
            assert(is_digit(decimal(n)[i - prefix.len()]));
        } else {
            assert(header[i] == suffix[i - prefix.len() - decimal(n).len()]);
        }
    }
    assert(header.last() == suffix.last());
}

proof fn lemma_quoted_is_line(head: Seq<char>, text: Seq<char>)
    requires
        forall|i: int| 0 <= i < head.len() ==> #[trigger] head[i] != '\n',
    ensures
        is_line(head + json_string(text)),
{
    lemma_json_string_plain(text);
    let whole = head + json_string(text);
    assert forall|i: int| 0 <= i < whole.len() implies #[trigger] whole[i] != '\n' by {
        if i < head.len() {
            assert(whole[i] == head[i]);
        } else {
            assert(whole[i] == json_string(text)[i - head.len()]);
        }
    }
    assert(whole.last() == json_string(text).last());
}

proof fn lemma_item_line_is_line(item: ItemModel)
    ensures
        is_line(item_line(item)),
{
    reveal_strlit("  ");
    reveal_strlit(",");
    reveal_strlit("0");
    reveal_strlit("1");
    lemma_decimal_value(item.id as nat);
    let digits = decimal(item.id as nat);
    let head = "  "@ + digits + ","@ + done_flag(item.done) + ","@;
    assert forall|i: int| 0 <= i < head.len() implies #[trigger] head[i] != '\n' by {
        if 2 <= i < 2 + digits.len() {
            assert(head[i] == digits[i - 2]);
            assert(is_digit(digits[i - 2]));
        }
    }
    lemma_quoted_is_line(head, item.text);
}

proof fn lemma_todo_lines(todo: TodoModel)
    ensures
        forall|i: int| 0 <= i < todo_lines(todo).len() ==> is_line(#[trigger] todo_lines(todo)[i]),
{
    reveal_strlit("f[");
    reveal_strlit("e[");
    reveal_strlit("v[");
    reveal_strlit("]:");
    reveal_strlit("]{id,x,text}:");
    reveal_strlit("  ");
    lemma_header_is_line("f["@, todo.facts.len(), "]:"@);
    lemma_header_is_line("e["@, todo.execution.len(), "]{id,x,text}:"@);
    lemma_header_is_line("v["@, todo.validation.len(), "]{id,x,text}:"@);
    let ls = todo_lines(todo);
    let nf = todo.facts.len() as int;
    let ne = todo.execution.len() as int;
    assert forall|i: int| 0 <= i < ls.len() implies is_line(#[trigger] ls[i]) by {
        if 1 <= i < 1 + nf {
            assert(ls[i] == fact_line(todo.facts[i - 1]));
            lemma_quoted_is_line("  "@, todo.facts[i - 1]);
        } else if nf + 2 <= i < nf + 2 + ne {
            assert(ls[i] == item_line(todo.execution[i - nf - 2]));
            lemma_item_line_is_line(todo.execution[i - nf - 2]);
        } else if nf + ne + 3 <= i {
            assert(ls[i] == item_line(todo.validation[i - nf - ne - 3]));
            lemma_item_line_is_line(todo.validation[i - nf - ne - 3]);
        }
    }
}

proof fn lemma_todo_round_trip(todo: TodoModel)
    requires
        valid_todo(todo),
        texts_read_back(todo),
    ensures
        decoded_todo(todo_text(todo)) == Ok::<TodoModel, Seq<char>>(todo),
{
    let ls = todo_lines(todo);
    let nf = todo.facts.len();
    let ne = todo.execution.len();
    let nv = todo.validation.len();
    lemma_todo_lines(todo);
    lemma_lines_of_join(ls);
    assert("f["@.is_prefix_of(todo_text(todo))) by {
        reveal_strlit("f[");
        reveal_strlit("\n");
        let tail = ls.skip(1);
        assert(ls =~= seq![ls[0]] + tail);
        lemma_join_front(ls[0], tail, "\n"@);
        assert(ls[0] == header_line("f["@, nf, "]:"@));
        assert(todo_text(todo).take(2) =~= "f["@);
    }
    lemma_header("f["@, nf, "]:"@);
    lemma_header("e["@, ne, "]{id,x,text}:"@);
    lemma_header("v["@, nv, "]{id,x,text}:"@);
    assert(ls[0] == header_line("f["@, nf, "]:"@));
    assert forall|i: int| 0 <= i < nf implies ls[1 + i] == fact_line(#[trigger] todo.facts[i]) by {}
    lemma_facts_decode(todo.facts, ls, 1, nf);
    assert(todo.facts.take(nf as int) =~= todo.facts);
    let at = 1 + nf as int;
    assert(ls[at] == header_line("e["@, ne, "]{id,x,text}:"@));
    assert forall|i: int| 0 <= i < ne implies ls[at + 1 + i] == item_line(
        #[trigger] todo.execution[i],
    ) by {}
    lemma_items_decode(todo.execution, ls, at + 1, ne, "execution"@ + " TODO"@);
    assert(todo.execution.take(ne as int) =~= todo.execution);
    let next = at + 1 + ne as int;
    assert(ls[next] == header_line("v["@, nv, "]{id,x,text}:"@));
    assert forall|i: int| 0 <= i < nv implies ls[next + 1 + i] == item_line(
        #[trigger] todo.validation[i],
    ) by {}
    lemma_items_decode(todo.validation, ls, next + 1, nv, "validation"@ + " TODO"@);
    assert(todo.validation.take(nv as int) =~= todo.validation);
    assert(ls.len() == next + 1 + nv);
}

proof fn lemma_decoded_facts_valid(ls: Seq<Seq<char>>, from: int, count: nat)
    requires
        count <= TASK_FACTS_MAX,
        decoded_facts(ls, from, count) is Ok,
    ensures
        valid_facts(decoded_facts(ls, from, count)->Ok_0),
        decoded_facts(ls, from, count)->Ok_0.len() == count,
    decreases count,
{
    if count > 0 {
        lemma_decoded_facts_valid(ls, from, (count - 1) as nat);
        let prior = decoded_facts(ls, from, (count - 1) as nat)->Ok_0;
        let facts = decoded_facts(ls, from, count)->Ok_0;
        let fact = facts.last();
        let text = json_node(trim_start(ls[from + count - 1]))->Ok_0->Text_0;
        lemma_trim_idempotent(text);
        assert(facts =~= prior.push(fact));
        assert forall|i: int, j: int| 0 <= i < j < facts.len() implies text_key(
            #[trigger] facts[i],
        ) != text_key(#[trigger] facts[j]) by {
            assert(facts[i] == prior[i]);
            if j == prior.len() {
                assert(text_key(prior[i]) != text_key(fact));
            }
        }
    }
}

proof fn lemma_decoded_items_valid(
    ls: Seq<Seq<char>>,
    from: int,
    count: nat,
    label: Seq<char>,
)
    requires
        count <= TASK_ITEMS_MAX,
        decoded_items(ls, from, count, label) is Ok,
    ensures
        valid_items(decoded_items(ls, from, count, label)->Ok_0),
        decoded_items(ls, from, count, label)->Ok_0.len() == count,
    decreases count,
{
    if count > 0 {
        lemma_decoded_items_valid(ls, from, (count - 1) as nat, label);
        let prior = decoded_items(ls, from, (count - 1) as nat, label)->Ok_0;
        let items = decoded_items(ls, from, count, label)->Ok_0;
        let item = items.last();
        let rest = comma_split(trim_start(ls[from + count - 1])).1->Some_0;
        let text = json_node(comma_split(rest).1->Some_0)->Ok_0->Text_0;
        lemma_trim_idempotent(text);
        assert(items =~= prior.push(item));
        assert forall|i: int, j: int| 0 <= i < j < items.len() implies (#[trigger] items[i]).id
            != (#[trigger] items[j]).id by {
            assert(items[i] == prior[i]);
            if j == prior.len() {
                assert(prior[i].id != item.id);
            }
        }
    }
}

/// Whatever is read from a text can be stored: the bounds hold and identifiers are different.
pub proof fn law_decoded_todo_is_valid(input: Seq<char>)
    requires
        decoded_todo(input) is Ok,
    ensures
        valid_todo(decoded_todo(input)->Ok_0),
{
    let todo = decoded_todo(input)->Ok_0;
    if "f["@.is_prefix_of(input) {
        let ls = lines(input);
        let nf = header_count(ls[0], "f["@, "]:"@)->Ok_0;
        lemma_decoded_facts_valid(ls, 1, nf);
        let at = 1 + todo.facts.len() as int;
        let ne = header_count(ls[at], "e["@, "]{id,x,text}:"@)->Ok_0;
        lemma_decoded_items_valid(ls, at + 1, ne, "execution"@ + " TODO"@);
        let next = at + 1 + todo.execution.len() as int;
        let nv = header_count(ls[next], "v["@, "]{id,x,text}:"@)->Ok_0;
        lemma_decoded_items_valid(ls, next + 1, nv, "validation"@ + " TODO"@);
    } else {
        lemma_trim_idempotent(input);
    }
}

fn write_items(lines: &mut Vec<String>, items: &Vec<TodoItem>)
    ensures
        views(final(lines)@) == views(old(lines)@) + item_lines(views(items@)),
        items_read_back(views(items@)),
{
    let ghost before = views(lines@);
    let ghost model = views(items@);
    let mut i: usize = 0;
    proof {
        assert(before + item_lines(model).take(0) =~= before);
    }
    while i < items.len()
        invariant
            i <= items@.len(),
            model == views(items@),
            before == views(old(lines)@),
            views(lines@) == before + item_lines(model).take(i as int),
            forall|k: int|
                0 <= k < i ==> reads_as_text(
                    json_string((#[trigger] model[k]).text),
                    model[k].text,
                ),
        decreases items.len() - i,
    {
        let flag = if items[i].done {
            "1"
        } else {
            "0"
        };
        let quoted = quote(items[i].text.as_str());
        let line = "  ".to_owned().concat(decimal_text(items[i].id).as_str()).concat(",").concat(
            flag,
        ).concat(",").concat(quoted.as_str());
        proof {
            assert(line@ == item_line(model[i as int]));
            assert((before + item_lines(model).take(i as int)).push(line@) =~= before + item_lines(
                model,
            ).take(i + 1));
        }
        lines.push(line);
        i += 1;
    }
    proof {
        assert(item_lines(model).take(i as int) =~= item_lines(model));
    }
}

/// Writes a TODO list as text. A list that can be stored is read back from its text unchanged.
pub fn encode_task_todo(todo: &TaskTodo) -> (r: String)
    ensures
        r@ == todo_text(todo@),
        valid_todo(todo@) ==> decoded_todo(r@) == Ok::<TodoModel, Seq<char>>(todo@),
{
    let ghost model = todo@;
    let mut lines: Vec<String> = Vec::new();
    let head = "f[".to_owned().concat(size_text(todo.facts.len()).as_str()).concat("]:");
    lines.push(head);
    let ghost first = seq![header_line("f["@, model.facts.len(), "]:"@)];
    proof {
        assert(views(lines@) =~= first);
        assert(first + fact_lines(model.facts).take(0) =~= first);
    }
    let mut i: usize = 0;
    while i < todo.facts.len()
        invariant
            i <= todo.facts@.len(),
            model == todo@,
            views(lines@) == first + fact_lines(model.facts).take(i as int),
            forall|k: int|
                0 <= k < i ==> reads_as_text(
                    json_string(#[trigger] model.facts[k]),
                    model.facts[k],
                ),
        decreases todo.facts.len() - i,
    {
        let quoted = quote(todo.facts[i].as_str());
        let line = "  ".to_owned().concat(quoted.as_str());
        proof {
            assert(line@ == fact_line(model.facts[i as int]));
            assert((first + fact_lines(model.facts).take(i as int)).push(line@) =~= first
                + fact_lines(model.facts).take(i + 1));
        }
        lines.push(line);
        i += 1;
    }
    let ghost with_facts = views(lines@);
    let middle = "e[".to_owned().concat(size_text(todo.execution.len()).as_str()).concat(
        "]{id,x,text}:",
    );
    lines.push(middle);
    write_items(&mut lines, &todo.execution);
    let last = "v[".to_owned().concat(size_text(todo.validation.len()).as_str()).concat(
        "]{id,x,text}:",
    );
    lines.push(last);
    write_items(&mut lines, &todo.validation);
    proof {
        assert(fact_lines(model.facts).take(i as int) =~= fact_lines(model.facts));
        assert(views(lines@) =~= todo_lines(model));
        if valid_todo(model) {
            lemma_todo_round_trip(model);
        }
    }
    joined(lines.as_slice(), "\n")
}

} // verus!
