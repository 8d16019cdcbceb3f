//! Working and long-term memory: tasks with their phases and TODO lists, profiles and facts.

use vstd::prelude::*;

use crate::numbers::{decimal, size_text};
use crate::text::{
    agrees, copy_texts, join, joined, lemma_trim_idempotent, lemma_views_push, lowercase_text, same,
    split_words, to_lowercase, trim, trimmed, views, words,
};

verus! {

broadcast use lemma_views_push;

pub const MEMORY_NAME_MAX_CHARS: usize = 80;

pub const MEMORY_ENTRY_MAX_CHARS: usize = 1000;

pub const PROFILE_INSTRUCTIONS_MAX_CHARS: usize = 2000;

pub const TASK_TITLE_MAX_CHARS: usize = 120;

pub const TASK_TODO_MAX_CHARS: usize = 2000;

pub const TASK_FACT_MAX_CHARS: usize = 2000;

pub const TASK_ITEM_MAX_CHARS: usize = 1000;

pub const TASK_FACTS_MAX: usize = 64;

pub const TASK_ITEMS_MAX: usize = 128;

/// A personalisation profile.
#[derive(Debug, PartialEq, Eq)]
pub struct Profile {
    pub id: i64,
    pub name: String,
    pub instructions: String,
}

/// A profile, mathematically.
pub ghost struct ProfileModel {
    pub id: i64,
    pub name: Seq<char>,
    pub instructions: Seq<char>,
}

impl View for Profile {
    type V = ProfileModel;

    open spec fn view(&self) -> ProfileModel {
        ProfileModel { id: self.id, name: self.name@, instructions: self.instructions@ }
    }
}

impl Clone for Profile {
    fn clone(&self) -> (r: Self)
        ensures
            r@ == self@,
    {
        Profile { id: self.id, name: self.name.clone(), instructions: self.instructions.clone() }
    }
}

/// A long-term fact.
#[derive(Debug, PartialEq, Eq)]
pub struct MemoryEntry {
    pub id: i64,
    pub content: String,
}

/// A long-term fact, mathematically.
pub ghost struct EntryModel {
    pub id: i64,
    pub content: Seq<char>,
}

impl View for MemoryEntry {
    type V = EntryModel;

    open spec fn view(&self) -> EntryModel {
        EntryModel { id: self.id, content: self.content@ }
    }
}

impl Clone for MemoryEntry {
    fn clone(&self) -> (r: Self)
        ensures
            r@ == self@,
    {
        MemoryEntry { id: self.id, content: self.content.clone() }
    }
}

/// The stage a task is in. The stages follow one another in this order.
#[derive(Debug, Clone, Copy, PartialEq, Eq, Structural)]
pub enum TaskPhase {
    Planning,
    Execution,
    Validation,
    Done,
}

/// The position of a phase in the order of phases.
pub open spec fn phase_rank(phase: TaskPhase) -> int {
    match phase {
        TaskPhase::Planning => 0,
        TaskPhase::Execution => 1,
        TaskPhase::Validation => 2,
        TaskPhase::Done => 3,
    }
}

/// The phase after `phase`.
pub open spec fn next_phase(phase: TaskPhase) -> Option<TaskPhase> {
    match phase {
        TaskPhase::Planning => Some(TaskPhase::Execution),
        TaskPhase::Execution => Some(TaskPhase::Validation),
        TaskPhase::Validation => Some(TaskPhase::Done),
        TaskPhase::Done => None,
    }
}

/// The name of a phase.
pub open spec fn phase_name(phase: TaskPhase) -> Seq<char> {
    match phase {
        TaskPhase::Planning => "planning"@,
        TaskPhase::Execution => "execution"@,
        TaskPhase::Validation => "validation"@,
        TaskPhase::Done => "done"@,
    }
}

/// The phase that has this name.
pub open spec fn phase_named(name: Seq<char>) -> Result<TaskPhase, Seq<char>> {
    if name == "planning"@ {
        Ok(TaskPhase::Planning)
    } else if name == "execution"@ {
        Ok(TaskPhase::Execution)
    } else if name == "validation"@ {
        Ok(TaskPhase::Validation)
    } else if name == "done"@ {
        Ok(TaskPhase::Done)
    } else {
        Err("неизвестная фаза задачи: "@ + name)
    }
}

/// What the model is told in a phase.
pub open spec fn phase_instructions(phase: TaskPhase) -> Seq<char> {
    match phase {
        TaskPhase::Planning => PLANNING_INSTRUCTIONS@,
        TaskPhase::Execution => EXECUTION_INSTRUCTIONS@,
        TaskPhase::Validation => VALIDATION_INSTRUCTIONS@,
        TaskPhase::Done => DONE_INSTRUCTIONS@,
    }
}

pub const PLANNING_INSTRUCTIONS: &'static str = "Сейчас этап planning: уточняй факты и сформируй отдельные пункты execution и validation, но не выполняй их и не переходи к выполнению. ОБЯЗАТЕЛЬНО сохрани план последней строкой TASK_UPDATE с непустыми массивами e и v; обычный текст ответа в TODO не сохраняется. Формат без Markdown: TASK_UPDATE:{\"f\":[\"факт\"],\"e\":[\"шаг выполнения\"],\"v\":[\"проверка\"]}. Когда план готов, можешь предложить пользователю /task next.";

pub const EXECUTION_INSTRUCTIONS: &'static str = "Сейчас этап execution: выполняй согласованный TODO, а в нём первый применимый незавершённый пункт e. Только после фактического завершения добавь его ID в ключ ed последней строки TASK_UPDATE JSON и короткий итог в s. Полный видимый ответ будет сохранён как результат пункта. Не изменяй facts и списки. Когда все пункты e завершены, можешь предложить /task next.";

pub const VALIDATION_INSTRUCTIONS: &'static str = "Сейчас этап validation: проверяй результат выполнения по сохранённому полному тексту, а не только по отметкам TODO. Выполняй первый применимый незавершённый пункт v. Только после полученного результата проверки добавь его ID в ключ vd последней строки TASK_UPDATE JSON и короткий итог в s. Полный видимый ответ будет сохранён как результат проверки. Не изменяй facts и списки. Когда все пункты v завершены, можешь предложить /task next.";

pub const DONE_INSTRUCTIONS: &'static str = "Задача находится в терминальном этапе done. Не добавляй TASK_UPDATE. Следующего этапа нет, и предлагать смену фазы нельзя.";

impl TaskPhase {
    /// The phase that follows.
    pub fn next(self) -> (r: Option<TaskPhase>)
        ensures
            r == next_phase(self),
    {
        match self {
            TaskPhase::Planning => Some(TaskPhase::Execution),
            TaskPhase::Execution => Some(TaskPhase::Validation),
            TaskPhase::Validation => Some(TaskPhase::Done),
            TaskPhase::Done => None,
        }
    }

    /// What the model is told in this phase.
    pub fn instructions(self) -> (r: &'static str)
        ensures
            r@ == phase_instructions(self),
    {
        match self {
            TaskPhase::Planning => PLANNING_INSTRUCTIONS,
            TaskPhase::Execution => EXECUTION_INSTRUCTIONS,
            TaskPhase::Validation => VALIDATION_INSTRUCTIONS,
            TaskPhase::Done => DONE_INSTRUCTIONS,
        }
    }

    /// The name of this phase.
    pub fn name(self) -> (r: &'static str)
        ensures
            r@ == phase_name(self),
    {
        match self {
            TaskPhase::Planning => "planning",
            TaskPhase::Execution => "execution",
            TaskPhase::Validation => "validation",
            TaskPhase::Done => "done",
        }
    }

    /// The phase that has this name.
    pub fn parse(value: &str) -> (r: Result<TaskPhase, String>)
        ensures
            match (r, phase_named(value@)) {
                (Ok(phase), Ok(model)) => phase == model,
                (Err(message), Err(model)) => message@ == model,
                _ => false,
            },
    {
        if same(value, "planning") {
            Ok(TaskPhase::Planning)
        } else if same(value, "execution") {
            Ok(TaskPhase::Execution)
        } else if same(value, "validation") {
            Ok(TaskPhase::Validation)
        } else if same(value, "done") {
            Ok(TaskPhase::Done)
        } else {
            Err("неизвестная фаза задачи: ".to_owned().concat(value))
        }
    }
}

impl std::str::FromStr for TaskPhase {
    type Err = String;

    fn from_str(value: &str) -> Result<TaskPhase, String> {
        TaskPhase::parse(value)
    }
}

/// The phases follow one another without gaps, and the last has no successor.
pub proof fn law_phases_are_sequential(phase: TaskPhase)
    ensures
        match next_phase(phase) {
            Some(next) => phase_rank(next) == phase_rank(phase) + 1,
            None => phase_rank(phase) == 3,
        },
{
}

/// The name of a phase names that phase and no other.
pub proof fn law_phase_name_round_trip(phase: TaskPhase)
    ensures
        phase_named(phase_name(phase)) == Ok::<TaskPhase, Seq<char>>(phase),
{
    reveal_strlit("planning");
    reveal_strlit("execution");
    reveal_strlit("validation");
    reveal_strlit("done");
    assert("planning"@.len() == 8);
    assert("execution"@.len() == 9);
    assert("validation"@.len() == 10);
    assert("done"@.len() == 4);
}

// Validated text.

/// The trimmed text, or why it is refused: it is empty, or longer than `max` characters.
pub open spec fn memory_text(value: Seq<char>, label: Seq<char>, max: nat) -> Result<
    Seq<char>,
    Seq<char>,
> {
    let text = trim(value);
    if text.len() == 0 {
        Err(label + " не может быть пустым"@)
    } else if text.len() > max {
        Err(
            label + " слишком длинный: максимум "@ + decimal(max) + " символов, получено "@
                + decimal(text.len()),
        )
    } else {
        Ok(text)
    }
}

/// Trims a text and refuses it when it is empty or too long.
pub fn validate_memory_text(value: &str, label: &str, max_chars: usize) -> (r: Result<
    String,
    String,
>)
    ensures
        agrees(r, memory_text(value@, label@, max_chars as nat)),
{
    let text = trimmed(value);
    if text.as_str().is_empty() {
        return Err(label.to_owned().concat(" не может быть пустым"));
    }
    let length = text.as_str().unicode_len();
    if length > max_chars {
        return Err(
            label.to_owned().concat(" слишком длинный: максимум ").concat(
                size_text(max_chars).as_str(),
            ).concat(" символов, получено ").concat(size_text(length).as_str()),
        );
    }
    Ok(text)
}

/// Validating a validated text changes nothing.
pub proof fn law_memory_text_is_stable(value: Seq<char>, label: Seq<char>, max: nat)
    requires
        memory_text(value, label, max) is Ok,
    ensures
        memory_text(memory_text(value, label, max)->Ok_0, label, max) == memory_text(
            value,
            label,
            max,
        ),
{
    lemma_trim_idempotent(value);
}

/// A profile's name and instructions, or the message of the first that is refused.
pub open spec fn profile_texts(name: Seq<char>, instructions: Seq<char>) -> Result<
    (Seq<char>, Seq<char>),
    Seq<char>,
> {
    match memory_text(name, "название профиля"@, MEMORY_NAME_MAX_CHARS as nat) {
        Err(message) => Err(message),
        Ok(name) => match memory_text(
            instructions,
            "инструкции профиля"@,
            PROFILE_INSTRUCTIONS_MAX_CHARS as nat,
        ) {
            Err(message) => Err(message),
            Ok(instructions) => Ok((name, instructions)),
        },
    }
}

/// Validates a profile's name and instructions.
pub fn validate_profile(name: &str, instructions: &str) -> (r: Result<(String, String), String>)
    ensures
        agrees(r, profile_texts(name@, instructions@)),
{
    let name = match validate_memory_text(name, "название профиля", MEMORY_NAME_MAX_CHARS) {
        Ok(text) => text,
        Err(message) => return Err(message),
    };
    match validate_memory_text(
        instructions,
        "инструкции профиля",
        PROFILE_INSTRUCTIONS_MAX_CHARS,
    ) {
        Ok(text) => Ok((name, text)),
        Err(message) => Err(message),
    }
}

/// Validates a long-term fact.
pub fn validate_memory_entry(content: &str) -> (r: Result<String, String>)
    ensures
        agrees(
            r,
            memory_text(content@, "долговременный факт"@, MEMORY_ENTRY_MAX_CHARS as nat),
        ),
{
    validate_memory_text(content, "долговременный факт", MEMORY_ENTRY_MAX_CHARS)
}

/// The instructions of a profile in their fixed layout.
pub open spec fn profile_layout(
    style: Seq<char>,
    format: Seq<char>,
    constraints: Seq<char>,
) -> Seq<char> {
    "Стиль:\n"@ + style + "\n\nФормат:\n"@ + format + "\n\nОграничения:\n"@ + constraints
}

/// The instructions made of a style, a format and constraints, or the first refusal.
pub open spec fn profile_instructions(
    style: Seq<char>,
    format: Seq<char>,
    constraints: Seq<char>,
) -> Result<Seq<char>, Seq<char>> {
    let max = PROFILE_INSTRUCTIONS_MAX_CHARS as nat;
    match memory_text(style, "стиль ответа"@, max) {
        Err(message) => Err(message),
        Ok(style) => match memory_text(format, "формат ответа"@, max) {
            Err(message) => Err(message),
            Ok(format) => match memory_text(constraints, "ограничения ответа"@, max) {
                Err(message) => Err(message),
                Ok(constraints) => memory_text(
                    profile_layout(style, format, constraints),
                    "инструкции профиля"@,
                    max,
                ),
            },
        },
    }
}

/// Puts together the instructions of a profile.
pub fn compose_profile_instructions(
    response_style: &str,
    response_format: &str,
    constraints: &str,
) -> (r: Result<String, String>)
    ensures
        agrees(r, profile_instructions(response_style@, response_format@, constraints@)),
{
    let style = match validate_memory_text(
        response_style,
        "стиль ответа",
        PROFILE_INSTRUCTIONS_MAX_CHARS,
    ) {
        Ok(text) => text,
        Err(message) => return Err(message),
    };
    let format = match validate_memory_text(
        response_format,
        "формат ответа",
        PROFILE_INSTRUCTIONS_MAX_CHARS,
    ) {
        Ok(text) => text,
        Err(message) => return Err(message),
    };
    let constraints = match validate_memory_text(
        constraints,
        "ограничения ответа",
        PROFILE_INSTRUCTIONS_MAX_CHARS,
    ) {
        Ok(text) => text,
        Err(message) => return Err(message),
    };
    let layout = "Стиль:\n".to_owned().concat(style.as_str()).concat("\n\nФормат:\n").concat(
        format.as_str(),
    ).concat("\n\nОграничения:\n").concat(constraints.as_str());
    validate_memory_text(
        layout.as_str(),
        "инструкции профиля",
        PROFILE_INSTRUCTIONS_MAX_CHARS,
    )
}

// Lists of points.

/// One point of a TODO list.
#[derive(Debug, PartialEq, Eq)]
pub struct TodoItem {
    pub id: u64,
    pub done: bool,
    pub text: String,
}

/// One point of a TODO list, mathematically.
pub ghost struct ItemModel {
    pub id: u64,
    pub done: bool,
    pub text: Seq<char>,
}

impl View for TodoItem {
    type V = ItemModel;

    open spec fn view(&self) -> ItemModel {
        ItemModel { id: self.id, done: self.done, text: self.text@ }
    }
}

impl Clone for TodoItem {
    fn clone(&self) -> (r: Self)
        ensures
            r@ == self@,
    {
        TodoItem { id: self.id, done: self.done, text: self.text.clone() }
    }
}

/// The facts of a task and its points of execution and validation.
#[derive(Debug, PartialEq, Eq)]
pub struct TaskTodo {
    pub facts: Vec<String>,
    pub execution: Vec<TodoItem>,
    pub validation: Vec<TodoItem>,
}

/// A TODO list, mathematically.
pub ghost struct TodoModel {
    pub facts: Seq<Seq<char>>,
    pub execution: Seq<ItemModel>,
    pub validation: Seq<ItemModel>,
}

impl View for TaskTodo {
    type V = TodoModel;

    open spec fn view(&self) -> TodoModel {
        TodoModel {
            facts: views(self.facts@),
            execution: views(self.execution@),
            validation: views(self.validation@),
        }
    }
}

/// A copy of a list of points.
pub fn copy_items(items: &Vec<TodoItem>) -> (r: Vec<TodoItem>)
    ensures
        views(r@) == views(items@),
{
    let out = items.clone();
    proof {
        assert(views(out@) =~= views(items@));
    }
    out
}

impl Clone for TaskTodo {
    fn clone(&self) -> (r: Self)
        ensures
            r@ == self@,
    {
        TaskTodo {
            facts: copy_texts(self.facts.as_slice()),
            execution: copy_items(&self.execution),
            validation: copy_items(&self.validation),
        }
    }
}

impl Default for TaskTodo {
    fn default() -> (r: Self)
        ensures
            r@ == empty_todo(),
    {
        let r = TaskTodo { facts: Vec::new(), execution: Vec::new(), validation: Vec::new() };
        proof {
            assert(r@.facts =~= Seq::empty());
            assert(r@.execution =~= Seq::empty());
            assert(r@.validation =~= Seq::empty());
        }
        r
    }
}

/// The TODO list with nothing in it.
pub open spec fn empty_todo() -> TodoModel {
    TodoModel { facts: Seq::empty(), execution: Seq::empty(), validation: Seq::empty() }
}

/// The TODO list of a task that has only a description.
pub open spec fn described_todo(description: Seq<char>) -> Result<TodoModel, Seq<char>> {
    match memory_text(description, "исходное описание задачи"@, TASK_TODO_MAX_CHARS as nat) {
        Ok(fact) => Ok(
            TodoModel { facts: seq![fact], execution: Seq::empty(), validation: Seq::empty() },
        ),
        Err(message) => Err(message),
    }
}

/// Two texts with the same key count as the same: case and spacing do not matter.
pub open spec fn text_key(value: Seq<char>) -> Seq<char> {
    lowercase_text(join(words(value), " "@))
}

/// Whether one of the texts has the key of `text`.
pub open spec fn has_key(texts: Seq<Seq<char>>, text: Seq<char>) -> bool {
    exists|i: int| 0 <= i < texts.len() && text_key(#[trigger] texts[i]) == text_key(text)
}

/// The greatest identifier, or zero.
pub open spec fn greatest_id(items: Seq<ItemModel>) -> nat
    decreases items.len(),
{
    if items.len() == 0 {
        0
    } else {
        let before = greatest_id(items.drop_last());
        if items.last().id > before {
            items.last().id as nat
        } else {
            before
        }
    }
}

/// The texts of the points.
pub open spec fn item_texts(items: Seq<ItemModel>) -> Seq<Seq<char>> {
    Seq::new(items.len(), |i: int| items[i].text)
}

/// The facts after adding one, and whether it was new; or why it is refused.
pub open spec fn fact_added(facts: Seq<Seq<char>>, fact: Seq<char>) -> Result<
    (Seq<Seq<char>>, bool),
    Seq<char>,
> {
    match memory_text(fact, "факт задачи"@, TASK_FACT_MAX_CHARS as nat) {
        Err(message) => Err(message),
        Ok(text) => if has_key(facts, text) {
            Ok((facts, false))
        } else if facts.len() >= TASK_FACTS_MAX {
            Err("слишком много фактов задачи"@)
        } else {
            Ok((facts.push(text), true))
        },
    }
}

/// The points after adding one, and whether it was new; or why it is refused.
pub open spec fn item_added(items: Seq<ItemModel>, text: Seq<char>, label: Seq<char>) -> Result<
    (Seq<ItemModel>, bool),
    Seq<char>,
> {
    match memory_text(text, label, TASK_ITEM_MAX_CHARS as nat) {
        Err(message) => Err(message),
        Ok(text) => if has_key(item_texts(items), text) {
            Ok((items, false))
        } else if items.len() >= TASK_ITEMS_MAX {
            Err("слишком много пунктов "@ + label)
        } else if greatest_id(items) == u64::MAX {
            Err("закончились идентификаторы пунктов TODO"@)
        } else {
            Ok(
                (
                    items.push(
                        ItemModel { id: (greatest_id(items) + 1) as u64, done: false, text },
                    ),
                    true,
                ),
            )
        },
    }
}

/// The number of points that are not done.
pub open spec fn open_items(items: Seq<ItemModel>) -> nat
    decreases items.len(),
{
    if items.len() == 0 {
        0
    } else {
        open_items(items.drop_last()) + if items.last().done {
            0nat
        } else {
            1nat
        }
    }
}

/// The position of the first point that is not done, or the number of points.
pub open spec fn first_open(items: Seq<ItemModel>) -> nat
    decreases items.len(),
{
    if items.len() == 0 || !items[0].done {
        0
    } else {
        1 + first_open(items.skip(1))
    }
}

/// The points that a phase works on.
pub open spec fn phase_items(todo: TodoModel, phase: TaskPhase) -> Seq<ItemModel> {
    match phase {
        TaskPhase::Execution => todo.execution,
        TaskPhase::Validation => todo.validation,
        _ => Seq::empty(),
    }
}

proof fn lemma_first_open(items: Seq<ItemModel>, at: int)
    requires
        0 <= at <= items.len(),
        at < items.len() ==> !items[at].done,
        forall|i: int| 0 <= i < at ==> (#[trigger] items[i]).done,
    ensures
        first_open(items) == at,
    decreases items.len(),
{
    if at > 0 {
        assert(items[0].done);
        assert forall|i: int| 0 <= i < at - 1 implies (#[trigger] items.skip(1)[i]).done by {
            assert(items.skip(1)[i] == items[i + 1]);
        }
        lemma_first_open(items.skip(1), at - 1);
    }
}

/// `first_open` is the least position of a point that is not done.
pub proof fn lemma_first_open_least(items: Seq<ItemModel>)
    ensures
        first_open(items) <= items.len(),
        first_open(items) < items.len() ==> !items[first_open(items) as int].done,
        forall|i: int| 0 <= i < first_open(items) ==> (#[trigger] items[i]).done,
    decreases items.len(),
{
    if items.len() > 0 && items[0].done {
        lemma_first_open_least(items.skip(1));
        assert forall|i: int| 0 <= i < first_open(items) implies (#[trigger] items[i]).done by {
            if i > 0 {
                assert(items[i] == items.skip(1)[i - 1]);
            }
        }
    }
}

fn count_open(items: &Vec<TodoItem>) -> (r: usize)
    ensures
        r == open_items(views(items@)),
{
    let ghost model = views(items@);
    let mut count: usize = 0;
    let mut i: usize = 0;
    proof {
        assert(model.take(0).len() == 0);
    }
    while i < items.len()
        invariant
            i <= items@.len(),
            count <= i,
            model == views(items@),
            count == open_items(model.take(i as int)),
        decreases items.len() - i,
    {
        proof {
            assert(model.take(i + 1).drop_last() =~= model.take(i as int));
            assert(model.take(i + 1).last() == items@[i as int]@);
        }
        if !items[i].done {
            count += 1;
        }
        i += 1;
    }
    proof {
        assert(model.take(i as int) =~= model);
    }
    count
}

fn find_open(items: &Vec<TodoItem>) -> (r: Option<&TodoItem>)
    ensures
        ({
            let at = first_open(views(items@)) as int;
            match r {
                Some(item) => at < items@.len() && item@ == views(items@)[at],
                None => at == items@.len(),
            }
        }),
{
    let ghost model = views(items@);
    let mut i: usize = 0;
    while i < items.len()
        invariant
            i <= items@.len(),
            model == views(items@),
            forall|k: int| 0 <= k < i ==> (#[trigger] model[k]).done,
        decreases items.len() - i,
    {
        if !items[i].done {
            proof {
                lemma_first_open(model, i as int);
            }
            return Some(&items[i]);
        }
        proof {
            assert(model[i as int].done);
        }
        i += 1;
    }
    proof {
        lemma_first_open(model, i as int);
    }
    None
}

impl TaskTodo {
    /// The TODO list of a task that has only a description.
    pub fn from_description(description: &str) -> (r: Result<TaskTodo, String>)
        ensures
            agrees(r, described_todo(description@)),
    {
        match validate_memory_text(description, "исходное описание задачи", TASK_TODO_MAX_CHARS) {
            Ok(fact) => {
                let mut facts: Vec<String> = Vec::new();
                facts.push(fact);
                let r = TaskTodo { facts, execution: Vec::new(), validation: Vec::new() };
                proof {
                    assert(r@.facts =~= seq![fact@]);
                    assert(r@.execution =~= Seq::empty());
                    assert(r@.validation =~= Seq::empty());
                }
                Ok(r)
            },
            Err(message) => Err(message),
        }
    }

    /// The identifier of the next point: one more than the greatest so far.
    pub fn next_id(items: &Vec<TodoItem>) -> (r: Result<u64, String>)
        ensures
            match r {
                Ok(id) => id == greatest_id(views(items@)) + 1,
                Err(message) => greatest_id(views(items@)) == u64::MAX && message@
                    == "закончились идентификаторы пунктов TODO"@,
            },
    {
        let ghost model = views(items@);
        let mut greatest: u64 = 0;
        let mut i: usize = 0;
        proof {
            assert(model.take(0).len() == 0);
        }
        while i < items.len()
            invariant
                i <= items@.len(),
                model == views(items@),
                greatest == greatest_id(model.take(i as int)),
            decreases items.len() - i,
        {
            proof {
                assert(model.take(i + 1).drop_last() =~= model.take(i as int));
                assert(model.take(i + 1).last() == items@[i as int]@);
            }
            if items[i].id > greatest {
                greatest = items[i].id;
            }
            i += 1;
        }
        proof {
            assert(model.take(i as int) =~= model);
        }
        if greatest == u64::MAX {
            Err("закончились идентификаторы пунктов TODO".to_owned())
        } else {
            Ok(greatest + 1)
        }
    }

    /// The key under which texts count as the same.
    pub fn duplicate_key(value: &str) -> (r: String)
        ensures
            r@ == text_key(value@),
    {
        let parts = split_words(value);
        let spaced = joined(parts.as_slice(), " ");
        to_lowercase(spaced.as_str())
    }

    /// Adds a fact unless it is there already.
    pub fn add_fact(&mut self, fact: &str) -> (r: Result<bool, String>)
        ensures
            match (r, fact_added(old(self)@.facts, fact@)) {
                (Ok(added), Ok(model)) => added == model.1 && final(self)@ == (TodoModel {
                    facts: model.0,
                    ..old(self)@
                }),
                (Err(message), Err(model)) => message@ == model && final(self)@ == old(self)@,
                _ => false,
            },
    {
        let fact = match validate_memory_text(fact, "факт задачи", TASK_FACT_MAX_CHARS) {
            Ok(text) => text,
            Err(message) => return Err(message),
        };
        if has_duplicate(&self.facts, fact.as_str()) {
            return Ok(false);
        }
        if self.facts.len() >= TASK_FACTS_MAX {
            return Err("слишком много фактов задачи".to_owned());
        }
        self.facts.push(fact);
        Ok(true)
    }

    /// Adds a point to a list unless it is there already.
    pub fn add_item(items: &mut Vec<TodoItem>, text: &str, label: &str) -> (r: Result<bool, String>)
        ensures
            match (r, item_added(views(old(items)@), text@, label@)) {
                (Ok(added), Ok(model)) => added == model.1 && views(final(items)@) == model.0,
                (Err(message), Err(model)) => message@ == model && views(final(items)@) == views(
                    old(items)@,
                ),
                _ => false,
            },
    {
        let text = match validate_memory_text(text, label, TASK_ITEM_MAX_CHARS) {
            Ok(text) => text,
            Err(message) => return Err(message),
        };
        if has_duplicate_item(items, text.as_str()) {
            return Ok(false);
        }
        if items.len() >= TASK_ITEMS_MAX {
            return Err("слишком много пунктов ".to_owned().concat(label));
        }
        let id = match TaskTodo::next_id(items) {
            Ok(id) => id,
            Err(message) => return Err(message),
        };
        items.push(TodoItem { id, done: false, text });
        Ok(true)
    }

    /// Adds a point of execution unless it is there already.
    pub fn add_execution(&mut self, text: &str) -> (r: Result<bool, String>)
        ensures
            match (r, item_added(old(self)@.execution, text@, "execution TODO"@)) {
                (Ok(added), Ok(model)) => added == model.1 && final(self)@ == (TodoModel {
                    execution: model.0,
                    ..old(self)@
                }),
                (Err(message), Err(model)) => message@ == model && final(self)@ == old(self)@,
                _ => false,
            },
    {
        TaskTodo::add_item(&mut self.execution, text, "execution TODO")
    }

    /// Adds a point of validation unless it is there already.
    pub fn add_validation(&mut self, text: &str) -> (r: Result<bool, String>)
        ensures
            match (r, item_added(old(self)@.validation, text@, "validation TODO"@)) {
                (Ok(added), Ok(model)) => added == model.1 && final(self)@ == (TodoModel {
                    validation: model.0,
                    ..old(self)@
                }),
                (Err(message), Err(model)) => message@ == model && final(self)@ == old(self)@,
                _ => false,
            },
    {
        TaskTodo::add_item(&mut self.validation, text, "validation TODO")
    }

    /// How many points of a phase are not done.
    pub fn pending_for(&self, phase: TaskPhase) -> (r: usize)
        ensures
            r == open_items(phase_items(self@, phase)),
    {
        match phase {
            TaskPhase::Planning => 0,
            TaskPhase::Execution => count_open(&self.execution),
            TaskPhase::Validation => count_open(&self.validation),
            TaskPhase::Done => 0,
        }
    }

    /// The first point of a phase that is not done, with the letter of its list.
    pub fn current_for(&self, phase: TaskPhase) -> (r: Option<(&'static str, &TodoItem)>)
        ensures
            ({
                let items = phase_items(self@, phase);
                let at = first_open(items) as int;
                match r {
                    Some(current) => at < items.len() && current.1@ == items[at] && current.0@ == (
                    if phase == TaskPhase::Execution {
                        "e"@
                    } else {
                        "v"@
                    }),
                    None => at == items.len(),
                }
            }),
    {
        match phase {
            TaskPhase::Execution => match find_open(&self.execution) {
                Some(item) => Some(("e", item)),
                None => None,
            },
            TaskPhase::Validation => match find_open(&self.validation) {
                Some(item) => Some(("v", item)),
                None => None,
            },
            TaskPhase::Planning => None,
            TaskPhase::Done => None,
        }
    }
}

pub(crate) fn has_duplicate(texts: &Vec<String>, text: &str) -> (r: bool)
    ensures
        r == has_key(views(texts@), text@),
{
    let key = TaskTodo::duplicate_key(text);
    let mut i: usize = 0;
    while i < texts.len()
        invariant
            i <= texts@.len(),
            key@ == text_key(text@),
            forall|k: int| 0 <= k < i ==> text_key(#[trigger] views(texts@)[k]) != text_key(text@),
        decreases texts.len() - i,
    {
        if TaskTodo::duplicate_key(texts[i].as_str()) == key {
            proof {
                assert(text_key(views(texts@)[i as int]) == text_key(text@));
            }
            return true;
        }
        i += 1;
    }
    false
}

fn has_duplicate_item(items: &Vec<TodoItem>, text: &str) -> (r: bool)
    ensures
        r == has_key(item_texts(views(items@)), text@),
{
    let key = TaskTodo::duplicate_key(text);
    let ghost texts = item_texts(views(items@));
    let mut i: usize = 0;
    while i < items.len()
        invariant
            i <= items@.len(),
            key@ == text_key(text@),
            texts == item_texts(views(items@)),
            forall|k: int| 0 <= k < i ==> text_key(#[trigger] texts[k]) != text_key(text@),
        decreases items.len() - i,
    {
        if TaskTodo::duplicate_key(items[i].text.as_str()) == key {
            proof {
                assert(text_key(texts[i as int]) == text_key(text@));
            }
            return true;
        }
        i += 1;
    }
    false
}

/// A task's title and TODO list, or the first refusal.
pub open spec fn task_parts(title: Seq<char>, todo: Seq<char>) -> Result<
    (Seq<char>, TodoModel),
    Seq<char>,
> {
    match memory_text(title, "название задачи"@, TASK_TITLE_MAX_CHARS as nat) {
        Err(message) => Err(message),
        Ok(title) => match described_todo(todo) {
            Err(message) => Err(message),
            Ok(todo) => Ok((title, todo)),
        },
    }
}

/// Validates a new task's title and description.
pub fn validate_task(title: &str, todo: &str) -> (r: Result<(String, TaskTodo), String>)
    ensures
        agrees(r, task_parts(title@, todo@)),
{
    let title = match validate_memory_text(title, "название задачи", TASK_TITLE_MAX_CHARS) {
        Ok(text) => text,
        Err(message) => return Err(message),
    };
    match TaskTodo::from_description(todo) {
        Ok(todo) => Ok((title, todo)),
        Err(message) => Err(message),
    }
}

/// A text is taken without the white space around it, exactly where something is left of it and it is
/// not longer than it may be.
pub proof fn law_memory_text_is_trimmed_and_bounded(
    value: Seq<char>,
    label: Seq<char>,
    max: nat,
)
    ensures
        match memory_text(value, label, max) {
            Ok(text) => text == trim(value) && 0 < text.len() <= max,
            Err(_) => trim(value).len() == 0 || trim(value).len() > max,
        },
{
}

/// A fact that a list does not know yet is added at its end; one that it knows in another case or with
/// other spaces changes nothing.
pub proof fn law_facts_are_kept_once(facts: Seq<Seq<char>>, fact: Seq<char>)
    requires
        0 < trim(fact).len() <= TASK_FACT_MAX_CHARS,
    ensures
        (exists|i: int|
            0 <= i < facts.len() && text_key(#[trigger] facts[i]) == text_key(trim(fact)))
            ==> fact_added(facts, fact) == Ok::<(Seq<Seq<char>>, bool), Seq<char>>((facts, false)),
        !(exists|i: int|
            0 <= i < facts.len() && text_key(#[trigger] facts[i]) == text_key(trim(fact)))
            && facts.len() < TASK_FACTS_MAX ==> fact_added(facts, fact) == Ok::<
            (Seq<Seq<char>>, bool),
            Seq<char>,
        >((facts.push(trim(fact)), true)),
{
}

/// A point that a list does not know yet is added at its end, open and with a number that no point of
/// the list has; one that it knows changes nothing.
pub proof fn law_points_are_kept_once(items: Seq<ItemModel>, text: Seq<char>, label: Seq<char>)
    ensures
        item_added(items, text, label) matches Ok(done) ==> {
            let (after, added) = done;
            &&& added ==> {
                &&& after.len() == items.len() + 1
                &&& items.is_prefix_of(after)
                &&& after.last().text == trim(text)
                &&& !after.last().done
                &&& forall|i: int| 0 <= i < items.len() ==> (#[trigger] items[i]).id
                    < after.last().id
            }
            &&& !added ==> after == items && exists|i: int|
                0 <= i < items.len() && text_key((#[trigger] items[i]).text) == text_key(
                    trim(text),
                )
        },
{
    lemma_ids_are_bounded(items);
    if let Ok(done) = item_added(items, text, label) {
        if done.1 {
            assert(items =~= done.0.take(items.len() as int));
        } else {
            let texts = item_texts(items);
            let i = choose|i: int|
                0 <= i < texts.len() && text_key(#[trigger] texts[i]) == text_key(trim(text));
            assert(text_key(items[i].text) == text_key(trim(text)));
        }
    }
}

proof fn lemma_ids_are_bounded(items: Seq<ItemModel>)
    ensures
        forall|i: int| 0 <= i < items.len() ==> (#[trigger] items[i]).id <= greatest_id(items),
        greatest_id(items) <= u64::MAX,
    decreases items.len(),
{
    if items.len() > 0 {
        let head = items.drop_last();
        lemma_ids_are_bounded(head);
        assert forall|i: int| 0 <= i < items.len() implies (#[trigger] items[i]).id <= greatest_id(
            items,
        ) by {
            if i < head.len() {
                assert(head[i] == items[i]);
            }
        }
    }
}

/// The instructions of a profile hold its style, its format and its constraints.
pub proof fn law_profile_holds_its_parts(
    style: Seq<char>,
    format: Seq<char>,
    constraints: Seq<char>,
)
    ensures
        profile_instructions(style, format, constraints) matches Ok(text) ==> {
            &&& text == trim(
                "Стиль:\n"@ + trim(style) + "\n\nФормат:\n"@ + trim(format) + "\n\nОграничения:\n"@
                    + trim(constraints),
            )
            &&& trim(style).len() > 0
            &&& trim(format).len() > 0
            &&& trim(constraints).len() > 0
        },
        profile_texts(style, format) matches Ok(texts) ==> texts == (trim(style), trim(format)),
{
}

/// A new task has the description of it as its first fact, and no points yet.
pub proof fn law_new_task_knows_its_description(title: Seq<char>, todo: Seq<char>)
    ensures
        task_parts(title, todo) matches Ok(parts) ==> {
            &&& parts.0 == trim(title)
            &&& parts.1.facts == seq![trim(todo)]
            &&& parts.1.execution.len() == 0
            &&& parts.1.validation.len() == 0
        },
        task_parts(title, todo) is Ok <==> 0 < trim(title).len() <= TASK_TITLE_MAX_CHARS && 0
            < trim(todo).len() <= TASK_TODO_MAX_CHARS,
{
}

/// The phases follow each other: planning, execution, validation, done.
pub proof fn law_phases_have_their_order(phase: TaskPhase)
    ensures
        next_phase(TaskPhase::Planning) == Some(TaskPhase::Execution),
        next_phase(TaskPhase::Execution) == Some(TaskPhase::Validation),
        next_phase(TaskPhase::Validation) == Some(TaskPhase::Done),
        next_phase(phase) is None <==> phase == TaskPhase::Done,
{
}

} // verus!
