//! The commands of the user: their table, completion and hints, and what each line of input asks
//! for.

use vstd::prelude::*;

use crate::config::{
    agrees_check, parse_compression_strategy, strategy_name, strategy_named, CompressionStrategy,
    CONTEXT_MESSAGES_MAX,
};
use crate::memory::{phase_name, Profile, ProfileModel};
use crate::numbers::{
    bounded_natural_of, decimal, i64_of, parse_i64, parse_usize, signed_decimal, signed_text,
    size_text,
};
use crate::tasks::{Invariant, RuleModel, Task, TaskModel};
use crate::text::{
    after_prefix, agrees, chars_of, has_part, is_blank, is_plain_word, is_white, is_whitespace,
    lemma_first_word, lemma_grown, lemma_index_unique, lemma_trim_ends, lemma_trim_fixed,
    lemma_views_push, same, split_at_char, split_once_char, split_words, starts_with_text, trim,
    trim_start, trimmed, view_option, views, without_prefix, words,
};

verus! {

broadcast use lemma_views_push;

// The table of commands.

/// The commands that are always there, mathematically.
pub open spec fn basic_table() -> Seq<(Seq<char>, Seq<char>)> {
    seq![
        ("/provider"@, "сменить провайдера"@),
        ("/model"@, "выбрать модель текущего провайдера"@),
        ("/mode"@, "выбрать или создать режим ответа"@),
        ("/compression"@, "выбрать стратегию управления контекстом"@),
        ("/temperature"@, "изменить температуру ответов"@),
        ("/mcp"@, "подключить MCP-сервер и выбрать инструменты"@),
        ("/profile"@, "выбрать профиль персонализации"@),
        ("/task"@, "управлять текущей задачей"@),
        ("/remember"@, "сохранить долговременный факт"@),
        ("/invariant"@, "управлять глобальными инвариантами"@),
        ("/forget"@, "удалить долговременный факт"@),
        ("/memory"@, "показать три слоя памяти"@),
        ("/new"@, "начать новую сессию"@),
        ("/sessions"@, "открыть сохранённую сессию"@),
        ("/help"@, "показать подсказку"@),
        ("/quit"@, "выйти"@),
    ]
}

/// The commands that are there where branches are used, mathematically.
pub open spec fn branching_table() -> Seq<(Seq<char>, Seq<char>)> {
    seq![
        ("/checkpoint"@, "сохранить точку и ожидать новую ветку"@),
        ("/load"@, "вернуться к checkpoint и ожидать новую ветку"@),
        ("/switch"@, "выбрать активную ветку"@),
        ("/branches"@, "показать ветки диалога"@),
    ]
}

/// The commands that are there, mathematically.
pub open spec fn command_table(branching: bool) -> Seq<(Seq<char>, Seq<char>)> {
    if branching {
        basic_table() + branching_table()
    } else {
        basic_table()
    }
}

/// The commands that are there.
pub fn available_commands(branching_enabled: bool) -> (r: Vec<(&'static str, &'static str)>)
    ensures
        views(r@) == command_table(branching_enabled),
{
    let mut commands: Vec<(&'static str, &'static str)> = Vec::new();
    commands.push(("/provider", "сменить провайдера"));
    commands.push(("/model", "выбрать модель текущего провайдера"));
    commands.push(("/mode", "выбрать или создать режим ответа"));
    commands.push(("/compression", "выбрать стратегию управления контекстом"));
    commands.push(("/temperature", "изменить температуру ответов"));
    commands.push(("/mcp", "подключить MCP-сервер и выбрать инструменты"));
    commands.push(("/profile", "выбрать профиль персонализации"));
    commands.push(("/task", "управлять текущей задачей"));
    commands.push(("/remember", "сохранить долговременный факт"));
    commands.push(("/invariant", "управлять глобальными инвариантами"));
    commands.push(("/forget", "удалить долговременный факт"));
    commands.push(("/memory", "показать три слоя памяти"));
    commands.push(("/new", "начать новую сессию"));
    commands.push(("/sessions", "открыть сохранённую сессию"));
    commands.push(("/help", "показать подсказку"));
    commands.push(("/quit", "выйти"));
    proof {
        assert(views(commands@) =~= basic_table());
    }
    if branching_enabled {
        commands.push(("/checkpoint", "сохранить точку и ожидать новую ветку"));
        commands.push(("/load", "вернуться к checkpoint и ожидать новую ветку"));
        commands.push(("/switch", "выбрать активную ветку"));
        commands.push(("/branches", "показать ветки диалога"));
        proof {
            assert(views(commands@) =~= basic_table() + branching_table());
        }
    }
    commands
}

/// What helps the user to type commands.
#[derive(Debug, Clone, Copy, PartialEq, Eq, Structural)]
pub struct CommandHelper {
    pub branching_enabled: bool,
}

/// Whether a text holds white space.
pub open spec fn has_white(s: Seq<char>) -> bool {
    exists|i: int| 0 <= i < s.len() && is_white(#[trigger] s[i])
}

/// Whether a text can be the beginning of a command: it starts with a slash and is one word.
pub open spec fn is_command_word(s: Seq<char>) -> bool {
    s.len() > 0 && s[0] == '/' && !has_white(s)
}

/// The commands of a table that start with a text.
pub open spec fn matching(table: Seq<(Seq<char>, Seq<char>)>, start: Seq<char>) -> Seq<
    (Seq<char>, Seq<char>),
>
    decreases table.len(),
{
    if table.len() == 0 {
        Seq::empty()
    } else if start.is_prefix_of(table.last().0) {
        matching(table.drop_last(), start).push(table.last())
    } else {
        matching(table.drop_last(), start)
    }
}

/// Whether a table holds a command.
pub open spec fn in_table(table: Seq<(Seq<char>, Seq<char>)>, command: Seq<char>) -> bool {
    exists|i: int| 0 <= i < table.len() && (#[trigger] table[i]).0 == command
}

/// A text with spaces behind it, up to a width.
pub open spec fn padded(s: Seq<char>, width: nat) -> Seq<char>
    decreases width - s.len(),
{
    if s.len() >= width {
        s
    } else {
        padded(s.push(' '), width)
    }
}

/// What is shown of a command and what it completes to.
pub open spec fn completion(entry: (Seq<char>, Seq<char>)) -> (Seq<char>, Seq<char>) {
    (padded(entry.0, 12) + " "@ + entry.1, entry.0)
}

/// The completions of what was typed.
pub open spec fn completions(typed: Seq<char>, branching: bool) -> Seq<(Seq<char>, Seq<char>)> {
    if is_command_word(typed) {
        let found = matching(command_table(branching), typed);
        Seq::new(found.len(), |i: int| completion(found[i]))
    } else {
        Seq::empty()
    }
}

/// The one command that what was typed can mean.
pub open spec fn only_match(typed: Seq<char>, branching: bool) -> Option<Seq<char>> {
    let found = matching(command_table(branching), typed);
    if is_command_word(typed) && !in_table(command_table(branching), typed) && found.len() == 1 {
        Some(found[0].0)
    } else {
        None
    }
}

/// The rest of the one command that what was typed can mean.
pub open spec fn hint_for(typed: Seq<char>, branching: bool) -> Option<Seq<char>> {
    match only_match(typed, branching) {
        Some(command) => Some(command.skip(typed.len() as int)),
        None => None,
    }
}

/// What was typed, as the command it means.
pub open spec fn expanded(typed: Seq<char>, branching: bool) -> Seq<char> {
    match only_match(typed, branching) {
        Some(command) => command,
        None => typed,
    }
}

fn holds_white(s: &str) -> (r: bool)
    ensures
        r == has_white(s@),
{
    let chars = chars_of(s);
    let mut i: usize = 0;
    while i < chars.len()
        invariant
            i <= chars@.len(),
            chars@ == s@,
            forall|k: int| 0 <= k < i ==> !is_white(#[trigger] chars@[k]),
        decreases chars.len() - i,
    {
        if is_whitespace(chars[i]) {
            return true;
        }
        i += 1;
    }
    false
}

fn is_word(s: &str) -> (r: bool)
    ensures
        r == is_command_word(s@),
{
    proof {
        reveal_strlit("/");
        assert("/"@.is_prefix_of(s@) <==> s@.len() > 0 && s@[0] == '/') by {
            if s@.len() > 0 && s@[0] == '/' {
                assert(s@.subrange(0, 1) =~= "/"@);
            }
            if "/"@.is_prefix_of(s@) {
                assert(s@.subrange(0, 1)[0] == "/"@[0]);
            }
        }
    }
    starts_with_text(s, "/") && !holds_white(s)
}

fn pad(s: &str, width: usize) -> (r: String)
    ensures
        r@ == padded(s@, width as nat),
{
    let mut text = s.to_owned();
    let mut len: usize = s.unicode_len();
    while len < width
        invariant
            len == text@.len(),
            padded(s@, width as nat) == padded(text@, width as nat),
        decreases width - len,
    {
        text.push(' ');
        len += 1;
    }
    text
}

fn find_matching(commands: &Vec<(&'static str, &'static str)>, start: &str) -> (r: Vec<
    (&'static str, &'static str),
>)
    ensures
        views(r@) == matching(views(commands@), start@),
{
    let ghost model = views(commands@);
    let mut out: Vec<(&'static str, &'static str)> = Vec::new();
    let mut i: usize = 0;
    proof {
        assert(model.take(0).len() == 0);
        assert(views(out@) =~= Seq::<(Seq<char>, Seq<char>)>::empty());
    }
    while i < commands.len()
        invariant
            i <= commands@.len(),
            model == views(commands@),
            views(out@) == matching(model.take(i as int), start@),
        decreases commands.len() - i,
    {
        proof {
            assert(model.take(i + 1).drop_last() =~= model.take(i as int));
            assert(model.take(i + 1).last() == model[i as int]);
        }
        let entry = commands[i];
        if starts_with_text(entry.0, start) {
            out.push(entry);
        }
        i += 1;
    }
    proof {
        assert(model.take(i as int) =~= model);
    }
    out
}

fn holds_command(commands: &Vec<(&'static str, &'static str)>, command: &str) -> (r: bool)
    ensures
        r == in_table(views(commands@), command@),
{
    let ghost model = views(commands@);
    let mut i: usize = 0;
    while i < commands.len()
        invariant
            i <= commands@.len(),
            model == views(commands@),
            forall|k: int| 0 <= k < i ==> (#[trigger] model[k]).0 != command@,
        decreases commands.len() - i,
    {
        if same(commands[i].0, command) {
            proof {
                assert(model[i as int].0 == command@);
            }
            return true;
        }
        proof {
            assert(model[i as int].0 == commands@[i as int].0@);
        }
        i += 1;
    }
    false
}

fn find_only(typed: &str, branching: bool) -> (r: Option<&'static str>)
    ensures
        match r {
            Some(command) => only_match(typed@, branching) == Some(command@),
            None => only_match(typed@, branching) is None,
        },
{
    if !is_word(typed) {
        return None;
    }
    let commands = available_commands(branching);
    if holds_command(&commands, typed) {
        return None;
    }
    let found = find_matching(&commands, typed);
    if found.len() == 1 {
        proof {
            assert(views(found@)[0].0 == found@[0].0@);
        }
        Some(found[0].0)
    } else {
        None
    }
}

proof fn lemma_only_match(typed: Seq<char>, branching: bool)
    ensures
        only_match(typed, branching) matches Some(command) ==> typed.is_prefix_of(command),
{
    lemma_matching(command_table(branching), typed);
}

proof fn lemma_matching(table: Seq<(Seq<char>, Seq<char>)>, start: Seq<char>)
    ensures
        forall|i: int|
            0 <= i < matching(table, start).len() ==> start.is_prefix_of(
                (#[trigger] matching(table, start)[i]).0,
            ),
    decreases table.len(),
{
    if table.len() > 0 {
        lemma_matching(table.drop_last(), start);
        let before = matching(table.drop_last(), start);
        assert forall|i: int| 0 <= i < matching(table, start).len() implies start.is_prefix_of(
            (#[trigger] matching(table, start)[i]).0,
        ) by {
            if i < before.len() {
                assert(matching(table, start)[i] == before[i]);
            }
        }
    }
}

impl CommandHelper {
    /// A helper that knows the commands for branches, or does not.
    pub fn new(branching_enabled: bool) -> (r: CommandHelper)
        ensures
            r.branching_enabled == branching_enabled,
    {
        CommandHelper { branching_enabled }
    }

    /// The commands that are there.
    pub fn commands(&self) -> (r: Vec<(&'static str, &'static str)>)
        ensures
            views(r@) == command_table(self.branching_enabled),
    {
        available_commands(self.branching_enabled)
    }

    /// What was typed before the cursor can be completed to these: what is shown, and what replaces
    /// the line.
    pub fn complete(&self, typed: &str) -> (r: Vec<(String, String)>)
        ensures
            views(r@) == completions(typed@, self.branching_enabled),
    {
        let mut out: Vec<(String, String)> = Vec::new();
        if !is_word(typed) {
            proof {
                assert(views(out@) =~= Seq::<(Seq<char>, Seq<char>)>::empty());
            }
            return out;
        }
        let found = find_matching(&self.commands(), typed);
        let ghost model = views(found@);
        let ghost all = completions(typed@, self.branching_enabled);
        let mut i: usize = 0;
        while i < found.len()
            invariant
                i <= found@.len(),
                model == views(found@),
                all == Seq::new(model.len(), |i: int| completion(model[i])),
                views(out@) == all.take(i as int),
            decreases found.len() - i,
        {
            let entry = found[i];
            proof {
                assert(model[i as int] == (entry.0@, entry.1@));
            }
            let shown = pad(entry.0, 12).concat(" ").concat(entry.1);
            let pair = (shown, entry.0.to_owned());
            proof {
                assert(all.take(i as int).push((pair.0@, pair.1@)) =~= all.take(i + 1));
            }
            out.push(pair);
            i += 1;
        }
        proof {
            assert(all.take(i as int) =~= all);
        }
        out
    }

    /// What is missing of the one command that the line can mean. `at_end` says that the cursor is
    /// behind the line.
    pub fn hint(&self, line: &str, at_end: bool) -> (r: Option<String>)
        ensures
            view_option(r) == if at_end {
                hint_for(line@, self.branching_enabled)
            } else {
                None
            },
    {
        if !at_end {
            return None;
        }
        match find_only(line, self.branching_enabled) {
            Some(command) => {
                proof {
                    lemma_only_match(line@, self.branching_enabled);
                }
                without_prefix(command, line)
            },
            None => None,
        }
    }
}

/// A hint as it is shown.
pub fn highlighted_hint(hint: &str) -> (r: String)
    ensures
        r@ == "\x1b[2m"@ + hint@ + "\x1b[0m"@,
{
    "\x1b[2m".to_owned().concat(hint).concat("\x1b[0m")
}

/// What was typed, as the command it means.
pub fn expand_command_hint(input: &str, branching_enabled: bool) -> (r: String)
    ensures
        r@ == expanded(input@, branching_enabled),
{
    match find_only(input, branching_enabled) {
        Some(command) => command.to_owned(),
        None => input.to_owned(),
    }
}

/// A hint completes what was typed to the command that the line is expanded to.
pub proof fn law_hint_completes_expansion(typed: Seq<char>, branching: bool)
    ensures
        hint_for(typed, branching) matches Some(hint) ==> typed + hint == expanded(
            typed,
            branching,
        ),
        hint_for(typed, branching) is None ==> expanded(typed, branching) == typed,
{
    lemma_only_match(typed, branching);
    match only_match(typed, branching) {
        Some(command) => {
            assert(typed + command.skip(typed.len() as int) =~= command);
        },
        None => {},
    }
}

/// Every completion is a command that starts with what was typed.
pub proof fn law_completions_extend_input(typed: Seq<char>, branching: bool, i: int)
    requires
        0 <= i < completions(typed, branching).len(),
    ensures
        typed.is_prefix_of(completions(typed, branching)[i].1),
{
    lemma_matching(command_table(branching), typed);
}

// What a line of input asks for.

/// What a line of input asks for.
#[derive(Debug, PartialEq, Eq)]
pub enum Command {
    Quit,
    NewSession,
    Sessions,
    Provider,
    Model,
    Mode,
    Temperature,
    Mcp,
    Profile,
    Task,
    Remember,
    Invariants,
    Forget,
    Memory,
    Compression,
    Branching,
    Help,
    Unknown,
    Message,
}

/// Whether a line is a command, alone or with arguments.
pub open spec fn is_command(line: Seq<char>, name: Seq<char>) -> bool {
    line == name || (name + " "@).is_prefix_of(line)
}

/// What a line of input asks for.
pub open spec fn command_in(line: Seq<char>, branching: bool) -> Command {
    if line == "/quit"@ {
        Command::Quit
    } else if line == "/new"@ {
        Command::NewSession
    } else if line == "/sessions"@ {
        Command::Sessions
    } else if line == "/provider"@ {
        Command::Provider
    } else if line == "/model"@ {
        Command::Model
    } else if line == "/mode"@ {
        Command::Mode
    } else if line == "/temperature"@ {
        Command::Temperature
    } else if line == "/mcp"@ {
        Command::Mcp
    } else if is_command(line, "/profile"@) {
        Command::Profile
    } else if is_command(line, "/task"@) {
        Command::Task
    } else if is_command(line, "/remember"@) {
        Command::Remember
    } else if is_command(line, "/invariant"@) {
        Command::Invariants
    } else if is_command(line, "/forget"@) {
        Command::Forget
    } else if line == "/memory"@ {
        Command::Memory
    } else if is_command(line, "/compression"@) || is_command(line, "/compresson"@) {
        Command::Compression
    } else if branching && (line == "/checkpoint"@ || line == "/load"@ || line == "/branches"@
        || is_command(line, "/switch"@)) {
        Command::Branching
    } else if line == "/help"@ {
        Command::Help
    } else if "/"@.is_prefix_of(line) {
        Command::Unknown
    } else {
        Command::Message
    }
}

fn names_command(line: &str, name: &str) -> (r: bool)
    ensures
        r == is_command(line@, name@),
{
    same(line, name) || starts_with_text(line, name.to_owned().concat(" ").as_str())
}

/// What a line of input asks for. The commands for branches count only where branches are used.
pub fn command_of(line: &str, branching: bool) -> (r: Command)
    ensures
        r == command_in(line@, branching),
{
    if same(line, "/quit") {
        Command::Quit
    } else if same(line, "/new") {
        Command::NewSession
    } else if same(line, "/sessions") {
        Command::Sessions
    } else if same(line, "/provider") {
        Command::Provider
    } else if same(line, "/model") {
        Command::Model
    } else if same(line, "/mode") {
        Command::Mode
    } else if same(line, "/temperature") {
        Command::Temperature
    } else if same(line, "/mcp") {
        Command::Mcp
    } else if names_command(line, "/profile") {
        Command::Profile
    } else if names_command(line, "/task") {
        Command::Task
    } else if names_command(line, "/remember") {
        Command::Remember
    } else if names_command(line, "/invariant") {
        Command::Invariants
    } else if names_command(line, "/forget") {
        Command::Forget
    } else if same(line, "/memory") {
        Command::Memory
    } else if names_command(line, "/compression") || names_command(line, "/compresson") {
        Command::Compression
    } else if branching && (same(line, "/checkpoint") || same(line, "/load") || same(
        line,
        "/branches",
    ) || names_command(line, "/switch")) {
        Command::Branching
    } else if same(line, "/help") {
        Command::Help
    } else if starts_with_text(line, "/") {
        Command::Unknown
    } else {
        Command::Message
    }
}

/// Only a line that does not start with a slash is sent to the model.
pub proof fn law_commands_are_not_sent(line: Seq<char>, branching: bool)
    ensures
        command_in(line, branching) == Command::Message ==> !"/"@.is_prefix_of(line),
{
}

/// The arguments of a command.
pub open spec fn arguments_in(line: Seq<char>, name: Seq<char>) -> Seq<char> {
    match after_prefix(line, name) {
        Some(rest) => trim(rest),
        None => Seq::empty(),
    }
}

fn arguments_of(line: &str, name: &str) -> (r: String)
    ensures
        r@ == arguments_in(line@, name@),
{
    match without_prefix(line, name) {
        Some(rest) => trimmed(rest.as_str()),
        None => String::new(),
    }
}

/// The arguments as an action and what follows it.
pub open spec fn action_in(arguments: Seq<char>) -> (Seq<char>, Seq<char>) {
    match split_at_char(arguments, ' ') {
        Some(parts) => parts,
        None => (arguments, Seq::empty()),
    }
}

fn action_of(arguments: &str) -> (r: (String, String))
    ensures
        (r.0@, r.1@) == action_in(arguments@),
{
    match split_once_char(arguments, ' ') {
        Some(parts) => parts,
        None => (arguments.to_owned(), String::new()),
    }
}

// Profiles and tasks.

/// What is asked of a profile or of a task.
#[derive(Debug, PartialEq, Eq)]
pub enum RecordAction {
    Show,
    Off,
    Use(String),
    Create,
    Next,
    Choose,
}

/// What is asked of a profile or of a task, mathematically.
pub ghost enum RecordModel {
    Show,
    Off,
    Use(Seq<char>),
    Create,
    Next,
    Choose,
}

impl View for RecordAction {
    type V = RecordModel;

    open spec fn view(&self) -> RecordModel {
        match self {
            RecordAction::Show => RecordModel::Show,
            RecordAction::Off => RecordModel::Off,
            RecordAction::Use(query) => RecordModel::Use(query@),
            RecordAction::Create => RecordModel::Create,
            RecordAction::Next => RecordModel::Next,
            RecordAction::Choose => RecordModel::Choose,
        }
    }
}

/// What `/profile` is used for.
pub const PROFILE_USAGE: &'static str = "используйте /profile, /profile show, /profile new, /profile use <id|имя> или /profile off";

/// What `/task` is used for.
pub const TASK_USAGE: &'static str = "используйте /task, /task show, /task new, /task use <id|имя>, /task next или /task off";

/// What is asked of a profile.
pub open spec fn profile_action_in(line: Seq<char>) -> Result<RecordModel, Seq<char>> {
    let parts = action_in(arguments_in(line, "/profile"@));
    if parts.0 == "show"@ {
        Ok(RecordModel::Show)
    } else if parts.0 == "off"@ {
        Ok(RecordModel::Off)
    } else if parts.0 == "use"@ && trim(parts.1).len() > 0 {
        Ok(RecordModel::Use(trim(parts.1)))
    } else if parts.0 == "new"@ {
        Ok(RecordModel::Create)
    } else if parts.0.len() == 0 {
        Ok(RecordModel::Choose)
    } else {
        Err(PROFILE_USAGE@)
    }
}

/// Reads what is asked of a profile.
pub fn profile_action(line: &str) -> (r: Result<RecordAction, String>)
    ensures
        agrees(r, profile_action_in(line@)),
{
    let (action, value) = action_of(arguments_of(line, "/profile").as_str());
    if same(action.as_str(), "show") {
        Ok(RecordAction::Show)
    } else if same(action.as_str(), "off") {
        Ok(RecordAction::Off)
    } else if same(action.as_str(), "use") && !is_blank(value.as_str()) {
        Ok(RecordAction::Use(trimmed(value.as_str())))
    } else if same(action.as_str(), "new") {
        Ok(RecordAction::Create)
    } else if action.as_str().is_empty() {
        Ok(RecordAction::Choose)
    } else {
        Err(PROFILE_USAGE.to_owned())
    }
}

/// What is asked of a task.
pub open spec fn task_action_in(line: Seq<char>) -> Result<RecordModel, Seq<char>> {
    let parts = action_in(arguments_in(line, "/task"@));
    if parts.0 == "show"@ {
        Ok(RecordModel::Show)
    } else if parts.0 == "off"@ {
        Ok(RecordModel::Off)
    } else if parts.0 == "use"@ && trim(parts.1).len() > 0 {
        Ok(RecordModel::Use(trim(parts.1)))
    } else if parts.0 == "new"@ {
        Ok(RecordModel::Create)
    } else if parts.0 == "next"@ {
        Ok(RecordModel::Next)
    } else if parts.0.len() == 0 {
        Ok(RecordModel::Choose)
    } else {
        Err(TASK_USAGE@)
    }
}

/// Reads what is asked of a task.
pub fn task_action(line: &str) -> (r: Result<RecordAction, String>)
    ensures
        agrees(r, task_action_in(line@)),
{
    let (action, value) = action_of(arguments_of(line, "/task").as_str());
    if same(action.as_str(), "show") {
        Ok(RecordAction::Show)
    } else if same(action.as_str(), "off") {
        Ok(RecordAction::Off)
    } else if same(action.as_str(), "use") && !is_blank(value.as_str()) {
        Ok(RecordAction::Use(trimmed(value.as_str())))
    } else if same(action.as_str(), "new") {
        Ok(RecordAction::Create)
    } else if same(action.as_str(), "next") {
        Ok(RecordAction::Next)
    } else if action.as_str().is_empty() {
        Ok(RecordAction::Choose)
    } else {
        Err(TASK_USAGE.to_owned())
    }
}

/// How a saved record is looked up: by its number, or else by its name.
#[derive(Debug, Clone, Copy, PartialEq, Eq, Structural)]
pub enum RecordQuery {
    Number(i64),
    Name,
}

/// How a saved record is looked up.
pub fn record_query(query: &str) -> (r: RecordQuery)
    ensures
        match r {
            RecordQuery::Number(id) => i64_of(query@) == Some(id as int),
            RecordQuery::Name => i64_of(query@) is None,
        },
{
    match parse_i64(query) {
        Some(id) => RecordQuery::Number(id),
        None => RecordQuery::Name,
    }
}

/// The position of the first profile with a name, or the number of profiles.
pub open spec fn profile_index(profiles: Seq<ProfileModel>, name: Seq<char>) -> nat
    decreases profiles.len(),
{
    if profiles.len() == 0 || profiles[0].name == name {
        0
    } else {
        1 + profile_index(profiles.skip(1), name)
    }
}

/// The position of the first task with a title, or the number of tasks.
pub open spec fn task_index(tasks: Seq<TaskModel>, title: Seq<char>) -> nat
    decreases tasks.len(),
{
    if tasks.len() == 0 || tasks[0].title == title {
        0
    } else {
        1 + task_index(tasks.skip(1), title)
    }
}

/// The position of the first profile with a name.
pub fn find_profile(profiles: &Vec<Profile>, query: &str) -> (r: Result<usize, String>)
    ensures
        ({
            let at = profile_index(views(profiles@), query@);
            match r {
                Ok(found) => found == at && at < profiles@.len(),
                Err(message) => at == profiles@.len() && message@ == "профиль «"@ + query@
                    + "» не найден"@,
            }
        }),
{
    let ghost model = views(profiles@);
    let mut i: usize = 0;
    proof {
        assert(model.skip(0) =~= model);
    }
    while i < profiles.len()
        invariant
            i <= profiles@.len(),
            model == views(profiles@),
            profile_index(model, query@) == i + profile_index(model.skip(i as int), query@),
        decreases profiles.len() - i,
    {
        if same(profiles[i].name.as_str(), query) {
            return Ok(i);
        }
        proof {
            assert(model.skip(i as int).skip(1) =~= model.skip(i + 1));
        }
        i += 1;
    }
    Err("профиль «".to_owned().concat(query).concat("» не найден"))
}

/// The position of the first task with a title.
pub fn find_task(tasks: &Vec<Task>, query: &str) -> (r: Result<usize, String>)
    ensures
        ({
            let at = task_index(views(tasks@), query@);
            match r {
                Ok(found) => found == at && at < tasks@.len(),
                Err(message) => at == tasks@.len() && message@ == "задача «"@ + query@
                    + "» не найдена"@,
            }
        }),
{
    let ghost model = views(tasks@);
    let mut i: usize = 0;
    proof {
        assert(model.skip(0) =~= model);
    }
    while i < tasks.len()
        invariant
            i <= tasks@.len(),
            model == views(tasks@),
            task_index(model, query@) == i + task_index(model.skip(i as int), query@),
        decreases tasks.len() - i,
    {
        if same(tasks[i].title.as_str(), query) {
            return Ok(i);
        }
        proof {
            assert(model.skip(i as int).skip(1) =~= model.skip(i + 1));
        }
        i += 1;
    }
    Err("задача «".to_owned().concat(query).concat("» не найдена"))
}

/// The line of a profile in a menu.
pub fn profile_label(profile: &Profile) -> (r: String)
    ensures
        r@ == "#"@ + signed_decimal(profile.id as int) + " · "@ + profile.name@,
{
    "#".to_owned().concat(signed_text(profile.id).as_str()).concat(" · ").concat(
        profile.name.as_str(),
    )
}

/// The line of a task in a menu.
pub fn task_label(task: &Task) -> (r: String)
    ensures
        r@ == "#"@ + signed_decimal(task.id as int) + " · "@ + phase_name(task.phase) + " · "@
            + task.title@,
{
    "#".to_owned().concat(signed_text(task.id).as_str()).concat(" · ").concat(
        task.phase.name(),
    ).concat(" · ").concat(task.title.as_str())
}

/// The position of the first occurrence of a name, or the number of names.
pub open spec fn name_index(names: Seq<Seq<char>>, name: Seq<char>) -> nat
    decreases names.len(),
{
    if names.len() == 0 || names[0] == name {
        0
    } else {
        1 + name_index(names.skip(1), name)
    }
}

/// The item that a menu starts at: the current one, or the first where the current one is not
/// there.
pub fn initial_choice(names: &Vec<String>, current: &str) -> (r: usize)
    ensures
        ({
            let at = name_index(views(names@), current@);
            r == if at < names@.len() {
                at
            } else {
                0
            }
        }),
{
    let ghost model = views(names@);
    let mut i: usize = 0;
    proof {
        assert(model.skip(0) =~= model);
    }
    while i < names.len()
        invariant
            i <= names@.len(),
            model == views(names@),
            name_index(model, current@) == i + name_index(model.skip(i as int), current@),
        decreases names.len() - i,
    {
        if same(names[i].as_str(), current) {
            return i;
        }
        proof {
            assert(model.skip(i as int).skip(1) =~= model.skip(i + 1));
        }
        i += 1;
    }
    0
}

// Long-term facts.

/// The text that `/remember` was given, if there is one.
pub fn remember_text(line: &str) -> (r: Option<String>)
    ensures
        view_option(r) == if arguments_in(line@, "/remember"@).len() > 0 {
            Some(arguments_in(line@, "/remember"@))
        } else {
            None
        },
{
    let arguments = arguments_of(line, "/remember");
    if arguments.as_str().is_empty() {
        None
    } else {
        Some(arguments)
    }
}

/// The number that `/forget` was given.
pub fn forget_id(line: &str) -> (r: Result<i64, String>)
    ensures
        match (r, i64_of(arguments_in(line@, "/forget"@))) {
            (Ok(id), Some(n)) => id == n,
            (Err(message), None) => message@ == "используйте /forget <id>"@,
            _ => false,
        },
{
    match parse_i64(arguments_of(line, "/forget").as_str()) {
        Some(id) => Ok(id),
        None => Err("используйте /forget <id>".to_owned()),
    }
}

// Rules.

/// What is asked of the rules.
#[derive(Debug, PartialEq, Eq)]
pub enum InvariantAction {
    Choose,
    List,
    Ask,
    Add(String),
    Enable(i64),
    Disable(i64),
    Remove(i64),
}

/// What is asked of the rules, mathematically.
pub ghost enum InvariantModel {
    Choose,
    List,
    Ask,
    Add(Seq<char>),
    Enable(i64),
    Disable(i64),
    Remove(i64),
}

impl View for InvariantAction {
    type V = InvariantModel;

    open spec fn view(&self) -> InvariantModel {
        match self {
            InvariantAction::Choose => InvariantModel::Choose,
            InvariantAction::List => InvariantModel::List,
            InvariantAction::Ask => InvariantModel::Ask,
            InvariantAction::Add(text) => InvariantModel::Add(text@),
            InvariantAction::Enable(id) => InvariantModel::Enable(*id),
            InvariantAction::Disable(id) => InvariantModel::Disable(*id),
            InvariantAction::Remove(id) => InvariantModel::Remove(*id),
        }
    }
}

/// What `/invariant` is used for.
pub const INVARIANT_USAGE: &'static str = "используйте /invariant, /invariant add <текст>, /invariant list, /invariant enable <id>, /invariant disable <id> или /invariant remove <id>";

/// What is asked of the rules.
pub open spec fn invariant_action_in(line: Seq<char>) -> Result<InvariantModel, Seq<char>> {
    let parts = action_in(arguments_in(line, "/invariant"@));
    if parts.0.len() == 0 {
        Ok(InvariantModel::Choose)
    } else if parts.0 == "list"@ && trim(parts.1).len() == 0 {
        Ok(InvariantModel::List)
    } else if parts.0 == "add"@ {
        if trim(parts.1).len() == 0 {
            Ok(InvariantModel::Ask)
        } else {
            Ok(InvariantModel::Add(parts.1))
        }
    } else if parts.0 == "enable"@ || parts.0 == "disable"@ || parts.0 == "remove"@ {
        match i64_of(trim(parts.1)) {
            None => Err("используйте /invariant "@ + parts.0 + " <id>"@),
            Some(id) => if parts.0 == "enable"@ {
                Ok(InvariantModel::Enable(id as i64))
            } else if parts.0 == "disable"@ {
                Ok(InvariantModel::Disable(id as i64))
            } else {
                Ok(InvariantModel::Remove(id as i64))
            },
        }
    } else {
        Err(INVARIANT_USAGE@)
    }
}

/// Reads what is asked of the rules.
pub fn invariant_action(line: &str) -> (r: Result<InvariantAction, String>)
    ensures
        agrees(r, invariant_action_in(line@)),
{
    let (action, value) = action_of(arguments_of(line, "/invariant").as_str());
    let enable = same(action.as_str(), "enable");
    let disable = same(action.as_str(), "disable");
    if action.as_str().is_empty() {
        Ok(InvariantAction::Choose)
    } else if same(action.as_str(), "list") && is_blank(value.as_str()) {
        Ok(InvariantAction::List)
    } else if same(action.as_str(), "add") {
        if is_blank(value.as_str()) {
            Ok(InvariantAction::Ask)
        } else {
            Ok(InvariantAction::Add(value))
        }
    } else if enable || disable || same(action.as_str(), "remove") {
        match parse_i64(trimmed(value.as_str()).as_str()) {
            None => Err(
                "используйте /invariant ".to_owned().concat(action.as_str()).concat(" <id>"),
            ),
            Some(id) => if enable {
                Ok(InvariantAction::Enable(id))
            } else if disable {
                Ok(InvariantAction::Disable(id))
            } else {
                Ok(InvariantAction::Remove(id))
            },
        }
    } else {
        Err(INVARIANT_USAGE.to_owned())
    }
}

/// What is done with a rule that is chosen from a list.
#[derive(Debug, Clone, Copy, PartialEq, Eq, Structural)]
pub enum RuleChange {
    Enable,
    Disable,
    Remove,
}

/// Whether a rule can be changed so: only a disabled one is enabled, only an enabled one disabled.
pub open spec fn is_candidate(rule: RuleModel, change: RuleChange) -> bool {
    match change {
        RuleChange::Enable => !rule.enabled,
        RuleChange::Disable => rule.enabled,
        RuleChange::Remove => true,
    }
}

/// The rules that can be changed so.
pub open spec fn candidates(rules: Seq<RuleModel>, change: RuleChange) -> Seq<RuleModel>
    decreases rules.len(),
{
    if rules.len() == 0 {
        Seq::empty()
    } else if is_candidate(rules.last(), change) {
        candidates(rules.drop_last(), change).push(rules.last())
    } else {
        candidates(rules.drop_last(), change)
    }
}

/// The rules that can be changed so.
pub fn invariant_candidates(rules: &Vec<Invariant>, change: RuleChange) -> (r: Vec<Invariant>)
    ensures
        views(r@) == candidates(views(rules@), change),
{
    let ghost model = views(rules@);
    let mut out: Vec<Invariant> = Vec::new();
    let mut i: usize = 0;
    proof {
        assert(model.take(0).len() == 0);
        assert(views(out@) =~= Seq::<RuleModel>::empty());
    }
    while i < rules.len()
        invariant
            i <= rules@.len(),
            model == views(rules@),
            views(out@) == candidates(model.take(i as int), change),
        decreases rules.len() - i,
    {
        proof {
            assert(model.take(i + 1).drop_last() =~= model.take(i as int));
            assert(model.take(i + 1).last() == model[i as int]);
        }
        let fits = match change {
            RuleChange::Enable => !rules[i].enabled,
            RuleChange::Disable => rules[i].enabled,
            RuleChange::Remove => true,
        };
        if fits {
            out.push(rules[i].clone());
        }
        i += 1;
    }
    proof {
        assert(model.take(i as int) =~= model);
    }
    out
}

/// The line of a rule, with whether it is enabled.
pub open spec fn rule_label(rule: RuleModel, mark: Seq<char>) -> Seq<char> {
    "#"@ + signed_decimal(rule.id as int) + " · "@ + (if rule.enabled {
        "включён"@
    } else {
        "выключен"@
    }) + mark + rule.content
}

/// The line of a rule in the list of rules, or in a menu.
pub fn invariant_label(rule: &Invariant, mark: &str) -> (r: String)
    ensures
        r@ == rule_label(rule@, mark@),
{
    let state = if rule.enabled {
        "включён"
    } else {
        "выключен"
    };
    "#".to_owned().concat(signed_text(rule.id).as_str()).concat(" · ").concat(state).concat(
        mark,
    ).concat(rule.content.as_str())
}

// Compression.

/// The size of a window that a text gives.
pub open spec fn window_in(value: Seq<char>) -> Result<usize, Seq<char>> {
    match bounded_natural_of(value, usize::MAX as nat) {
        None => Err("ожидалось целое число"@),
        Some(n) => if n <= CONTEXT_MESSAGES_MAX {
            Ok(n as usize)
        } else {
            Err("размер вне диапазона"@)
        },
    }
}

/// Reads the size of a window.
pub fn parse_context_messages(value: &str) -> (r: Result<usize, String>)
    ensures
        match (r, window_in(value@)) {
            (Ok(size), Ok(model)) => size == model,
            (Err(message), Err(model)) => message@ == model,
            _ => false,
        },
{
    match parse_usize(value) {
        None => Err("ожидалось целое число".to_owned()),
        Some(size) => if size <= CONTEXT_MESSAGES_MAX {
            Ok(size)
        } else {
            Err("размер вне диапазона".to_owned())
        },
    }
}

/// What comes next when the compression is changed.
#[derive(Debug, PartialEq, Eq)]
pub enum CompressionStep {
    ChooseStrategy,
    AskWindow(CompressionStrategy),
    Apply(CompressionStrategy, usize),
    Refuse(String),
}

/// What comes next when the compression is changed, mathematically.
pub ghost enum CompressionModel {
    ChooseStrategy,
    AskWindow(CompressionStrategy),
    Apply(CompressionStrategy, usize),
    Refuse(Seq<char>),
}

impl View for CompressionStep {
    type V = CompressionModel;

    open spec fn view(&self) -> CompressionModel {
        match self {
            CompressionStep::ChooseStrategy => CompressionModel::ChooseStrategy,
            CompressionStep::AskWindow(strategy) => CompressionModel::AskWindow(*strategy),
            CompressionStep::Apply(strategy, count) => CompressionModel::Apply(*strategy, *count),
            CompressionStep::Refuse(message) => CompressionModel::Refuse(message@),
        }
    }
}

/// What comes next once the strategy is known; `window` is the size that was given with it.
pub open spec fn strategy_step(
    strategy: CompressionStrategy,
    window: Option<Seq<char>>,
    current: usize,
) -> CompressionModel {
    if strategy == CompressionStrategy::Branching {
        CompressionModel::Apply(strategy, current)
    } else {
        match window {
            None => CompressionModel::AskWindow(strategy),
            Some(value) => match window_in(value) {
                Err(_) => CompressionModel::Refuse("Укажите целое число от 1 до 1000."@),
                Ok(count) => if count == 0 && strategy != CompressionStrategy::Summary {
                    CompressionModel::Refuse(
                        "Нулевое окно доступно только для summary (полная история)."@,
                    )
                } else {
                    CompressionModel::Apply(strategy, count)
                },
            },
        }
    }
}

/// What the arguments of the command ask for.
pub open spec fn compression_in(arguments: Seq<char>, current: usize) -> CompressionModel {
    let parts = words(arguments);
    if parts.len() == 0 {
        CompressionModel::ChooseStrategy
    } else {
        match strategy_named(parts[0]) {
            Err(message) => CompressionModel::Refuse(message),
            Ok(strategy) => strategy_step(
                strategy,
                if parts.len() > 1 {
                    Some(parts[1])
                } else {
                    None
                },
                current,
            ),
        }
    }
}

fn compression_step(
    strategy: CompressionStrategy,
    window: Option<&str>,
    current: usize,
) -> (r: CompressionStep)
    ensures
        r@ == strategy_step(
            strategy,
            match window {
                Some(value) => Some(value@),
                None => None,
            },
            current,
        ),
{
    if strategy == CompressionStrategy::Branching {
        return CompressionStep::Apply(strategy, current);
    }
    match window {
        None => CompressionStep::AskWindow(strategy),
        Some(value) => match parse_context_messages(value) {
            Err(_) => CompressionStep::Refuse("Укажите целое число от 1 до 1000.".to_owned()),
            Ok(count) => if count == 0 && strategy != CompressionStrategy::Summary {
                CompressionStep::Refuse(
                    "Нулевое окно доступно только для summary (полная история).".to_owned(),
                )
            } else {
                CompressionStep::Apply(strategy, count)
            },
        },
    }
}

/// The arguments of the command that changes the compression; its name may be misspelt in the
/// usual way.
pub open spec fn compression_arguments_in(line: Seq<char>) -> Seq<char> {
    match after_prefix(line, "/compression"@) {
        Some(rest) => trim(rest),
        None => arguments_in(line, "/compresson"@),
    }
}

/// The arguments of the command that changes the compression.
pub fn compression_arguments(line: &str) -> (r: String)
    ensures
        r@ == compression_arguments_in(line@),
{
    match without_prefix(line, "/compression") {
        Some(rest) => trimmed(rest.as_str()),
        None => arguments_of(line, "/compresson"),
    }
}

/// Reads what the arguments of the command ask for; `current` is the size of the window so far.
pub fn compression_request(arguments: &str, current: usize) -> (r: CompressionStep)
    ensures
        r@ == compression_in(arguments@, current),
{
    let parts = split_words(arguments);
    if parts.len() == 0 {
        return CompressionStep::ChooseStrategy;
    }
    proof {
        assert(views(parts@)[0] == parts@[0]@);
    }
    match parse_compression_strategy(parts[0].as_str()) {
        Err(message) => CompressionStep::Refuse(message),
        Ok(strategy) => {
            if parts.len() > 1 {
                proof {
                    assert(views(parts@)[1] == parts@[1]@);
                }
                compression_step(strategy, Some(parts[1].as_str()), current)
            } else {
                compression_step(strategy, None, current)
            }
        },
    }
}

/// What comes next once a strategy was chosen from the menu.
pub fn compression_choice(strategy: CompressionStrategy, current: usize) -> (r: CompressionStep)
    ensures
        r@ == strategy_step(strategy, None, current),
{
    compression_step(strategy, None, current)
}

/// Why the size of a window is refused.
pub open spec fn window_error(strategy: CompressionStrategy, size: usize) -> Option<Seq<char>> {
    if size > CONTEXT_MESSAGES_MAX {
        Some("нужно число от 0 до 1000"@)
    } else if size == 0 && strategy != CompressionStrategy::Summary {
        Some("нулевое окно доступно только для summary"@)
    } else {
        None
    }
}

/// Checks the size of a window that the user typed.
pub fn check_window(strategy: CompressionStrategy, size: usize) -> (r: Result<(), String>)
    ensures
        agrees_check(r, window_error(strategy, size)),
{
    if size > CONTEXT_MESSAGES_MAX {
        Err("нужно число от 0 до 1000".to_owned())
    } else if size == 0 && strategy != CompressionStrategy::Summary {
        Err("нулевое окно доступно только для summary".to_owned())
    } else {
        Ok(())
    }
}

/// No command makes a window of no messages but that of the summary, nor one over the limit.
pub proof fn law_applied_window_is_valid(arguments: Seq<char>, current: usize)
    ensures
        compression_in(arguments, current) matches CompressionModel::Apply(strategy, count)
            ==> strategy != CompressionStrategy::Branching ==> window_error(strategy, count) is None,
{
}

/// The position of a strategy in the menu.
pub open spec fn strategy_place(strategy: CompressionStrategy) -> int {
    match strategy {
        CompressionStrategy::Summary => 0,
        CompressionStrategy::SlidingWindow => 1,
        CompressionStrategy::StickyFacts => 2,
        CompressionStrategy::Branching => 3,
    }
}

/// The position of a strategy in the menu.
pub fn strategy_position(strategy: CompressionStrategy) -> (r: usize)
    ensures
        r == strategy_place(strategy),
{
    match strategy {
        CompressionStrategy::Summary => 0,
        CompressionStrategy::SlidingWindow => 1,
        CompressionStrategy::StickyFacts => 2,
        CompressionStrategy::Branching => 3,
    }
}

/// The strategy at a position in the menu.
pub fn strategy_at(position: usize) -> (r: CompressionStrategy)
    requires
        position < 4,
    ensures
        strategy_place(r) == position,
{
    if position == 0 {
        CompressionStrategy::Summary
    } else if position == 1 {
        CompressionStrategy::SlidingWindow
    } else if position == 2 {
        CompressionStrategy::StickyFacts
    } else {
        CompressionStrategy::Branching
    }
}

/// What is shown when the compression was changed.
pub fn compression_text(strategy: CompressionStrategy, count: usize) -> (r: String)
    ensures
        r@ == if strategy == CompressionStrategy::Branching {
            "Стратегия контекста: "@ + strategy_name(strategy) + "."@
        } else {
            "Стратегия контекста: "@ + strategy_name(strategy) + ", окно "@ + decimal(count as nat)
                + "."@
        },
{
    let head = "Стратегия контекста: ".to_owned().concat(strategy.name());
    if strategy == CompressionStrategy::Branching {
        head.concat(".")
    } else {
        head.concat(", окно ").concat(size_text(count).as_str()).concat(".")
    }
}

// Branches.

/// What is asked of the branches.
#[derive(Debug, PartialEq, Eq)]
pub enum BranchingAction {
    Checkpoint,
    Load,
    ChooseBranch,
    Switch(String),
    List,
}

/// What is asked of the branches, mathematically.
pub ghost enum BranchingModel {
    Checkpoint,
    Load,
    ChooseBranch,
    Switch(Seq<char>),
    List,
}

impl View for BranchingAction {
    type V = BranchingModel;

    open spec fn view(&self) -> BranchingModel {
        match self {
            BranchingAction::Checkpoint => BranchingModel::Checkpoint,
            BranchingAction::Load => BranchingModel::Load,
            BranchingAction::ChooseBranch => BranchingModel::ChooseBranch,
            BranchingAction::Switch(name) => BranchingModel::Switch(name@),
            BranchingAction::List => BranchingModel::List,
        }
    }
}

/// The first word of a line, or nothing.
pub open spec fn first_word(line: Seq<char>) -> Seq<char> {
    if words(line).len() == 0 {
        Seq::empty()
    } else {
        words(line)[0]
    }
}

/// What is asked of the branches. The first word says it; what follows `/switch` is a name.
pub open spec fn branching_action_in(line: Seq<char>) -> Option<BranchingModel> {
    let word = first_word(line);
    if word == "/checkpoint"@ {
        Some(BranchingModel::Checkpoint)
    } else if word == "/load"@ {
        Some(BranchingModel::Load)
    } else if word == "/branches"@ {
        Some(BranchingModel::List)
    } else if word == "/switch"@ {
        let name = arguments_in(line, "/switch"@);
        if name.len() == 0 {
            Some(BranchingModel::ChooseBranch)
        } else {
            Some(BranchingModel::Switch(name))
        }
    } else {
        None
    }
}

/// Reads what is asked of the branches.
pub fn branching_action(line: &str) -> (r: Option<BranchingAction>)
    ensures
        view_option(r) == branching_action_in(line@),
{
    let all = split_words(line);
    let word = if all.len() == 0 {
        ""
    } else {
        all[0].as_str()
    };
    proof {
        reveal_strlit("");
        assert(""@ =~= Seq::<char>::empty());
        assert(word@ == first_word(line@));
    }
    if same(word, "/checkpoint") {
        Some(BranchingAction::Checkpoint)
    } else if same(word, "/load") {
        Some(BranchingAction::Load)
    } else if same(word, "/branches") {
        Some(BranchingAction::List)
    } else if same(word, "/switch") {
        let name = arguments_of(line, "/switch");
        if name.as_str().is_empty() {
            Some(BranchingAction::ChooseBranch)
        } else {
            Some(BranchingAction::Switch(name))
        }
    } else {
        None
    }
}

proof fn lemma_command_word(line: Seq<char>, name: Seq<char>)
    requires
        name.len() > 0,
        !has_white(name),
        is_command(line, name),
    ensures
        first_word(line) == name,
{
    let n = name.len() as int;
    if line != name {
        reveal_strlit(" ");
        assert(line.take(n + 1) =~= name + " "@);
        assert(line[n] == line.take(n + 1)[n]);
        assert forall|i: int| 0 <= i < n implies #[trigger] line[i] == name[i] by {
            assert(line[i] == line.take(n + 1)[i]);
        }
    }
    assert forall|i: int| 0 <= i < n implies !is_white(#[trigger] line[i]) by {
        assert(line[i] == name[i]);
        assert(!is_white(name[i]));
    }
    lemma_first_word(line, n);
    assert(line.take(n) =~= name);
}

/// Where branches are used, each line for branches asks for something.
pub proof fn law_branching_lines_are_understood(line: Seq<char>)
    ensures
        command_in(line, true) == Command::Branching ==> branching_action_in(line) is Some,
        command_in(line, false) != Command::Branching,
{
    reveal_strlit("/checkpoint");
    reveal_strlit("/load");
    reveal_strlit("/branches");
    reveal_strlit("/switch");
    if command_in(line, true) == Command::Branching {
        if line == "/checkpoint"@ {
            lemma_command_word(line, "/checkpoint"@);
        } else if line == "/load"@ {
            lemma_command_word(line, "/load"@);
        } else if line == "/branches"@ {
            lemma_command_word(line, "/branches"@);
        } else {
            lemma_command_word(line, "/switch"@);
        }
    }
}

/// The commands that a start can become are all those that begin with it, in their order.
pub proof fn law_all_matching_commands_are_offered(
    table: Seq<(Seq<char>, Seq<char>)>,
    start: Seq<char>,
)
    ensures
        matching(table, start) == table.filter(
            |entry: (Seq<char>, Seq<char>)| start.is_prefix_of(entry.0),
        ),
    decreases table.len(),
{
    reveal(Seq::filter);
    if table.len() > 0 {
        law_all_matching_commands_are_offered(table.drop_last(), start);
    }
}

/// Rules that are off can be switched on, rules that are on can be switched off, and every rule can be
/// taken away.
pub proof fn law_rules_are_offered_for_a_change(rules: Seq<RuleModel>)
    ensures
        candidates(rules, RuleChange::Enable) == rules.filter(|rule: RuleModel| !rule.enabled),
        candidates(rules, RuleChange::Disable) == rules.filter(|rule: RuleModel| rule.enabled),
        candidates(rules, RuleChange::Remove) == rules,
    decreases rules.len(),
{
    reveal(Seq::filter);
    if rules.len() > 0 {
        law_rules_are_offered_for_a_change(rules.drop_last());
        assert(rules.drop_last().push(rules.last()) =~= rules);
    }
}

/// What stands behind a command is what it is asked to do, and with what.
proof fn lemma_asked(name: Seq<char>, word: Seq<char>, rest: Seq<char>)
    requires
        word.len() > 0,
        forall|i: int| 0 <= i < word.len() ==> !is_white(#[trigger] word[i]),
        rest.len() > 0,
        trim(rest) == rest,
    ensures
        action_in(arguments_in(name + " "@ + word + " "@ + rest, name)) == (word, rest),
        action_in(arguments_in(name + " "@ + word, name)) == (word, Seq::<char>::empty()),
        action_in(arguments_in(name, name)) == (Seq::<char>::empty(), Seq::<char>::empty()),
{
    reveal_strlit(" ");
    lemma_trim_ends(rest);
    let line = name + " "@ + word + " "@ + rest;
    let asked = word + " "@ + rest;
    assert(line.skip(name.len() as int) =~= " "@ + asked);
    assert(line.subrange(0, name.len() as int) =~= name);
    assert(name.is_prefix_of(line));
    assert(asked[0] == word[0] && asked.last() == rest.last());
    lemma_behind_space(asked);
    assert forall|i: int| 0 <= i < word.len() implies #[trigger] asked[i] != ' ' by {
        assert(asked[i] == word[i]);
    }
    lemma_index_unique(asked, ' ', word.len() as int);
    assert(asked.take(word.len() as int) =~= word);
    assert(asked.skip(word.len() as int + 1) =~= rest);
    let short = name + " "@ + word;
    assert(short.skip(name.len() as int) =~= " "@ + word);
    assert(short.subrange(0, name.len() as int) =~= name);
    assert(name.is_prefix_of(short));
    lemma_behind_space(word);
    lemma_index_unique(word, ' ', word.len() as int);
    assert(name.skip(name.len() as int) =~= Seq::empty());
    assert(name.is_prefix_of(name));
    lemma_trim_fixed(Seq::empty());
    lemma_index_unique(Seq::<char>::empty(), ' ', 0);
}

/// A space before a text is trimmed away.
proof fn lemma_behind_space(text: Seq<char>)
    requires
        text.len() > 0,
        !is_white(text[0]),
        !is_white(text.last()),
    ensures
        trim(" "@ + text) == text,
{
    reveal_strlit(" ");
    assert((" "@ + text).skip(1) =~= text);
    assert(trim_start(" "@ + text) == trim_start(text));
    lemma_trim_fixed(text);
}

/// A profile and a task are chosen by what stands behind `use`; the other words ask for what they say.
pub proof fn law_records_are_asked_for(name: Seq<char>)
    requires
        name.len() > 0,
        trim(name) == name,
    ensures
        profile_action_in("/profile use "@ + name) == Ok::<RecordModel, Seq<char>>(
            RecordModel::Use(name),
        ),
        task_action_in("/task use "@ + name) == Ok::<RecordModel, Seq<char>>(
            RecordModel::Use(name),
        ),
        invariant_action_in("/invariant add "@ + name) == Ok::<InvariantModel, Seq<char>>(
            InvariantModel::Add(name),
        ),
        i64_of(name) matches Some(id) ==> {
            &&& invariant_action_in("/invariant enable "@ + name) == Ok::<
                InvariantModel,
                Seq<char>,
            >(InvariantModel::Enable(id as i64))
            &&& invariant_action_in("/invariant disable "@ + name) == Ok::<
                InvariantModel,
                Seq<char>,
            >(InvariantModel::Disable(id as i64))
            &&& invariant_action_in("/invariant remove "@ + name) == Ok::<
                InvariantModel,
                Seq<char>,
            >(InvariantModel::Remove(id as i64))
        },
{
    lemma_action_words();
    lemma_asked("/profile"@, "use"@, name);
    lemma_asked("/task"@, "use"@, name);
    lemma_asked("/invariant"@, "add"@, name);
    lemma_asked("/invariant"@, "enable"@, name);
    lemma_asked("/invariant"@, "disable"@, name);
    lemma_asked("/invariant"@, "remove"@, name);
}

/// The lines of commands are made of words, and the words differ.
proof fn lemma_action_words()
    ensures
        "/profile use "@ == "/profile"@ + " "@ + "use"@ + " "@,
        "/task use "@ == "/task"@ + " "@ + "use"@ + " "@,
        "/invariant add "@ == "/invariant"@ + " "@ + "add"@ + " "@,
        "/invariant enable "@ == "/invariant"@ + " "@ + "enable"@ + " "@,
        "/invariant disable "@ == "/invariant"@ + " "@ + "disable"@ + " "@,
        "/invariant remove "@ == "/invariant"@ + " "@ + "remove"@ + " "@,
        is_plain_word("use"@),
        is_plain_word("add"@),
        is_plain_word("enable"@),
        is_plain_word("disable"@),
        is_plain_word("remove"@),
        "use"@ != "show"@ && "use"@ != "off"@,
        "add"@ != "list"@,
        "enable"@ != "list"@ && "enable"@ != "add"@ && "enable"@ != "disable"@,
        "disable"@ != "list"@ && "disable"@ != "add"@,
        "remove"@ != "list"@ && "remove"@ != "add"@ && "remove"@ != "enable"@ && "remove"@
            != "disable"@,
{
    reveal_strlit("/profile use ");
    reveal_strlit("/profile");
    reveal_strlit("/task use ");
    reveal_strlit("/task");
    reveal_strlit("/invariant");
    reveal_strlit("/invariant add ");
    reveal_strlit("/invariant enable ");
    reveal_strlit("/invariant disable ");
    reveal_strlit("/invariant remove ");
    reveal_strlit(" ");
    reveal_strlit("use");
    reveal_strlit("add");
    reveal_strlit("enable");
    reveal_strlit("disable");
    reveal_strlit("remove");
    reveal_strlit("show");
    reveal_strlit("off");
    reveal_strlit("list");
    assert("/profile use "@ =~= "/profile"@ + " "@ + "use"@ + " "@);
    assert("/task use "@ =~= "/task"@ + " "@ + "use"@ + " "@);
    assert("/invariant add "@ =~= "/invariant"@ + " "@ + "add"@ + " "@);
    assert("/invariant enable "@ =~= "/invariant"@ + " "@ + "enable"@ + " "@);
    assert("/invariant disable "@ =~= "/invariant"@ + " "@ + "disable"@ + " "@);
    assert("/invariant remove "@ =~= "/invariant"@ + " "@ + "remove"@ + " "@);
    assert("use"@[0] == 'u' && "off"@[0] == 'o' && "enable"@[0] == 'e' && "remove"@[0] == 'r');
    assert("use"@.len() == 3 && "show"@.len() == 4 && "add"@.len() == 3 && "list"@.len() == 4
        && "enable"@.len() == 6 && "disable"@.len() == 7 && "remove"@.len() == 6);
}

/// A command with something behind it is that command, whatever follows.
pub proof fn law_commands_may_have_arguments(arguments: Seq<char>, branching: bool)
    ensures
        command_in("/profile "@ + arguments, branching) == Command::Profile,
        command_in("/task "@ + arguments, branching) == Command::Task,
        command_in("/remember "@ + arguments, branching) == Command::Remember,
        command_in("/invariant "@ + arguments, branching) == Command::Invariants,
        command_in("/forget "@ + arguments, branching) == Command::Forget,
        command_in("/compression "@ + arguments, branching) == Command::Compression,
        command_in("/switch "@ + arguments, true) == Command::Branching,
        command_in("/switch "@ + arguments, false) == Command::Unknown,
{
    lemma_command_names();
    lemma_names_before_arguments(arguments);
    lemma_own_command("/profile"@, arguments);
    lemma_own_command("/task"@, arguments);
    lemma_own_command("/remember"@, arguments);
    lemma_own_command("/invariant"@, arguments);
    lemma_own_command("/forget"@, arguments);
    lemma_own_command("/compression"@, arguments);
    lemma_own_command("/switch"@, arguments);
}

/// What a command with something behind it begins with.
proof fn lemma_names_before_arguments(arguments: Seq<char>)
    ensures
        "/profile "@ == "/profile"@ + " "@,
        "/task "@ == "/task"@ + " "@,
        "/remember "@ == "/remember"@ + " "@,
        "/invariant "@ == "/invariant"@ + " "@,
        "/forget "@ == "/forget"@ + " "@,
        "/compression "@ == "/compression"@ + " "@,
        "/switch "@ == "/switch"@ + " "@,
        "/"@.is_prefix_of("/switch "@ + arguments),
{
    reveal_strlit("/");
    reveal_strlit(" ");
    reveal_strlit("/profile");
    reveal_strlit("/profile ");
    reveal_strlit("/task");
    reveal_strlit("/task ");
    reveal_strlit("/remember");
    reveal_strlit("/remember ");
    reveal_strlit("/invariant");
    reveal_strlit("/invariant ");
    reveal_strlit("/forget");
    reveal_strlit("/forget ");
    reveal_strlit("/compression");
    reveal_strlit("/compression ");
    reveal_strlit("/switch");
    reveal_strlit("/switch ");
    assert("/profile "@ =~= "/profile"@ + " "@);
    assert("/task "@ =~= "/task"@ + " "@);
    assert("/remember "@ =~= "/remember"@ + " "@);
    assert("/invariant "@ =~= "/invariant"@ + " "@);
    assert("/forget "@ =~= "/forget"@ + " "@);
    assert("/compression "@ =~= "/compression"@ + " "@);
    assert("/switch "@ =~= "/switch"@ + " "@);
    assert(("/switch "@ + arguments).subrange(0, 1) =~= "/"@);
}

/// Whether a text holds no space.
spec fn is_bare(s: Seq<char>) -> bool {
    forall|i: int| 0 <= i < s.len() ==> #[trigger] s[i] != ' '
}

/// A name with something behind it is that command and no other.
proof fn lemma_own_command(name: Seq<char>, arguments: Seq<char>)
    requires
        is_bare(name),
    ensures
        is_command(name + " "@ + arguments, name),
        forall|other: Seq<char>| #[trigger]
            is_bare(other) ==> name + " "@ + arguments != other && (other != name ==> !is_command(
                name + " "@ + arguments,
                other,
            )),
{
    reveal_strlit(" ");
    let line = name + " "@ + arguments;
    let n = name.len() as int;
    assert(line.subrange(0, (name + " "@).len() as int) =~= name + " "@);
    assert(line[n] == ' ');
    assert forall|other: Seq<char>| #[trigger] is_bare(other) implies line != other && (other
        != name ==> !is_command(line, other)) by {
        if line == other {
            assert(other[n] == ' ');
        }
        if other != name && is_command(line, other) {
            let m = other.len() as int;
            let start = line.subrange(0, m + 1);
            assert(start =~= other + " "@);
            assert(start[m] == ' ');
            if m < n {
                assert(line[m] == name[m]);
            } else if n < m {
                assert(start[n] == other[n]);
            } else {
                assert forall|i: int| 0 <= i < n implies name[i] == other[i] by {
                    assert(start[i] == other[i]);
                    assert(line[i] == name[i]);
                }
                assert(name =~= other);
            }
        }
    }
}

/// The names of the commands are single words, and differ.
proof fn lemma_command_names()
    ensures
        is_bare("/quit"@),
        is_bare("/new"@),
        is_bare("/sessions"@),
        is_bare("/provider"@),
        is_bare("/model"@),
        is_bare("/mode"@),
        is_bare("/temperature"@),
        is_bare("/mcp"@),
        is_bare("/profile"@),
        is_bare("/task"@),
        is_bare("/remember"@),
        is_bare("/invariant"@),
        is_bare("/forget"@),
        is_bare("/memory"@),
        is_bare("/compression"@),
        is_bare("/compresson"@),
        is_bare("/checkpoint"@),
        is_bare("/load"@),
        is_bare("/branches"@),
        is_bare("/switch"@),
        is_bare("/help"@),
        "/profile"@ != "/quit"@ && "/profile"@ != "/new"@ && "/profile"@ != "/sessions"@
            && "/profile"@ != "/provider"@ && "/profile"@ != "/model"@ && "/profile"@ != "/mode"@
            && "/profile"@ != "/temperature"@ && "/profile"@ != "/mcp"@ && "/profile"@ != "/task"@
            && "/profile"@ != "/remember"@ && "/profile"@ != "/invariant"@
            && "/profile"@ != "/forget"@ && "/profile"@ != "/memory"@
            && "/profile"@ != "/compression"@ && "/profile"@ != "/compresson"@
            && "/profile"@ != "/checkpoint"@ && "/profile"@ != "/load"@
            && "/profile"@ != "/branches"@ && "/profile"@ != "/switch"@
            && "/profile"@ != "/help"@,
        "/task"@ != "/quit"@ && "/task"@ != "/new"@ && "/task"@ != "/sessions"@
            && "/task"@ != "/provider"@ && "/task"@ != "/model"@ && "/task"@ != "/mode"@
            && "/task"@ != "/temperature"@ && "/task"@ != "/mcp"@ && "/task"@ != "/profile"@
            && "/task"@ != "/remember"@ && "/task"@ != "/invariant"@ && "/task"@ != "/forget"@
            && "/task"@ != "/memory"@ && "/task"@ != "/compression"@ && "/task"@ != "/compresson"@
            && "/task"@ != "/checkpoint"@ && "/task"@ != "/load"@ && "/task"@ != "/branches"@
            && "/task"@ != "/switch"@ && "/task"@ != "/help"@,
        "/remember"@ != "/quit"@ && "/remember"@ != "/new"@ && "/remember"@ != "/sessions"@
            && "/remember"@ != "/provider"@ && "/remember"@ != "/model"@
            && "/remember"@ != "/mode"@ && "/remember"@ != "/temperature"@
            && "/remember"@ != "/mcp"@ && "/remember"@ != "/profile"@ && "/remember"@ != "/task"@
            && "/remember"@ != "/invariant"@ && "/remember"@ != "/forget"@
            && "/remember"@ != "/memory"@ && "/remember"@ != "/compression"@
            && "/remember"@ != "/compresson"@ && "/remember"@ != "/checkpoint"@
            && "/remember"@ != "/load"@ && "/remember"@ != "/branches"@
            && "/remember"@ != "/switch"@ && "/remember"@ != "/help"@,
        "/invariant"@ != "/quit"@ && "/invariant"@ != "/new"@ && "/invariant"@ != "/sessions"@
            && "/invariant"@ != "/provider"@ && "/invariant"@ != "/model"@
            && "/invariant"@ != "/mode"@ && "/invariant"@ != "/temperature"@
            && "/invariant"@ != "/mcp"@ && "/invariant"@ != "/profile"@
            && "/invariant"@ != "/task"@ && "/invariant"@ != "/remember"@
            && "/invariant"@ != "/forget"@ && "/invariant"@ != "/memory"@
            && "/invariant"@ != "/compression"@ && "/invariant"@ != "/compresson"@
            && "/invariant"@ != "/checkpoint"@ && "/invariant"@ != "/load"@
            && "/invariant"@ != "/branches"@ && "/invariant"@ != "/switch"@
            && "/invariant"@ != "/help"@,
        "/forget"@ != "/quit"@ && "/forget"@ != "/new"@ && "/forget"@ != "/sessions"@
            && "/forget"@ != "/provider"@ && "/forget"@ != "/model"@ && "/forget"@ != "/mode"@
            && "/forget"@ != "/temperature"@ && "/forget"@ != "/mcp"@ && "/forget"@ != "/profile"@
            && "/forget"@ != "/task"@ && "/forget"@ != "/remember"@ && "/forget"@ != "/invariant"@
            && "/forget"@ != "/memory"@ && "/forget"@ != "/compression"@
            && "/forget"@ != "/compresson"@ && "/forget"@ != "/checkpoint"@
            && "/forget"@ != "/load"@ && "/forget"@ != "/branches"@ && "/forget"@ != "/switch"@
            && "/forget"@ != "/help"@,
        "/compression"@ != "/quit"@ && "/compression"@ != "/new"@
            && "/compression"@ != "/sessions"@ && "/compression"@ != "/provider"@
            && "/compression"@ != "/model"@ && "/compression"@ != "/mode"@
            && "/compression"@ != "/temperature"@ && "/compression"@ != "/mcp"@
            && "/compression"@ != "/profile"@ && "/compression"@ != "/task"@
            && "/compression"@ != "/remember"@ && "/compression"@ != "/invariant"@
            && "/compression"@ != "/forget"@ && "/compression"@ != "/memory"@
            && "/compression"@ != "/compresson"@ && "/compression"@ != "/checkpoint"@
            && "/compression"@ != "/load"@ && "/compression"@ != "/branches"@
            && "/compression"@ != "/switch"@ && "/compression"@ != "/help"@,
        "/switch"@ != "/quit"@ && "/switch"@ != "/new"@ && "/switch"@ != "/sessions"@
            && "/switch"@ != "/provider"@ && "/switch"@ != "/model"@ && "/switch"@ != "/mode"@
            && "/switch"@ != "/temperature"@ && "/switch"@ != "/mcp"@ && "/switch"@ != "/profile"@
            && "/switch"@ != "/task"@ && "/switch"@ != "/remember"@ && "/switch"@ != "/invariant"@
            && "/switch"@ != "/forget"@ && "/switch"@ != "/memory"@
            && "/switch"@ != "/compression"@ && "/switch"@ != "/compresson"@
            && "/switch"@ != "/checkpoint"@ && "/switch"@ != "/load"@
            && "/switch"@ != "/branches"@ && "/switch"@ != "/help"@,
{
    reveal_strlit("/quit");
    reveal_strlit("/new");
    reveal_strlit("/sessions");
    reveal_strlit("/provider");
    reveal_strlit("/model");
    reveal_strlit("/mode");
    reveal_strlit("/temperature");
    reveal_strlit("/mcp");
    reveal_strlit("/profile");
    reveal_strlit("/task");
    reveal_strlit("/remember");
    reveal_strlit("/invariant");
    reveal_strlit("/forget");
    reveal_strlit("/memory");
    reveal_strlit("/compression");
    reveal_strlit("/compresson");
    reveal_strlit("/checkpoint");
    reveal_strlit("/load");
    reveal_strlit("/branches");
    reveal_strlit("/switch");
    reveal_strlit("/help");
    assert("/quit"@.len() == 5 && "/quit"@[1] == 'q');
    assert("/new"@.len() == 4 && "/new"@[1] == 'n');
    assert("/sessions"@.len() == 9 && "/sessions"@[1] == 's');
    assert("/provider"@.len() == 9 && "/provider"@[1] == 'p');
    assert("/model"@.len() == 6 && "/model"@[1] == 'm');
    assert("/mode"@.len() == 5 && "/mode"@[1] == 'm');
    assert("/temperature"@.len() == 12 && "/temperature"@[1] == 't');
    assert("/mcp"@.len() == 4 && "/mcp"@[1] == 'm');
    assert("/profile"@.len() == 8 && "/profile"@[1] == 'p');
    assert("/task"@.len() == 5 && "/task"@[1] == 't');
    assert("/remember"@.len() == 9 && "/remember"@[1] == 'r');
    assert("/invariant"@.len() == 10 && "/invariant"@[1] == 'i');
    assert("/forget"@.len() == 7 && "/forget"@[1] == 'f');
    assert("/memory"@.len() == 7 && "/memory"@[1] == 'm');
    assert("/compression"@.len() == 12 && "/compression"@[1] == 'c');
    assert("/compresson"@.len() == 11 && "/compresson"@[1] == 'c');
    assert("/checkpoint"@.len() == 11 && "/checkpoint"@[1] == 'c');
    assert("/load"@.len() == 5 && "/load"@[1] == 'l');
    assert("/branches"@.len() == 9 && "/branches"@[1] == 'b');
    assert("/switch"@.len() == 7 && "/switch"@[1] == 's');
    assert("/help"@.len() == 5 && "/help"@[1] == 'h');
}

/// A profile, a task and a branch are found by their name: the first that has it.
pub proof fn law_records_are_found_by_name(
    profiles: Seq<ProfileModel>,
    tasks: Seq<TaskModel>,
    names: Seq<Seq<char>>,
    name: Seq<char>,
    i: int,
)
    ensures
        profile_index(profiles, name) <= profiles.len(),
        profile_index(profiles, name) < profiles.len() ==> profiles[profile_index(
            profiles,
            name,
        ) as int].name == name,
        0 <= i < profiles.len() && profiles[i].name == name ==> profile_index(profiles, name) <= i,
        task_index(tasks, name) <= tasks.len(),
        task_index(tasks, name) < tasks.len() ==> tasks[task_index(tasks, name) as int].title
            == name,
        0 <= i < tasks.len() && tasks[i].title == name ==> task_index(tasks, name) <= i,
        name_index(names, name) <= names.len(),
        name_index(names, name) < names.len() ==> names[name_index(names, name) as int] == name,
        0 <= i < names.len() && names[i] == name ==> name_index(names, name) <= i,
    decreases profiles.len() + tasks.len() + names.len(),
{
    if profiles.len() > 0 || tasks.len() > 0 || names.len() > 0 {
        let other_profiles = if profiles.len() > 0 {
            profiles.skip(1)
        } else {
            profiles
        };
        let other_tasks = if tasks.len() > 0 {
            tasks.skip(1)
        } else {
            tasks
        };
        let other_names = if names.len() > 0 {
            names.skip(1)
        } else {
            names
        };
        law_records_are_found_by_name(other_profiles, other_tasks, other_names, name, i - 1);
        if 0 < i < profiles.len() {
            assert(other_profiles[i - 1] == profiles[i]);
        }
        if 0 < i < tasks.len() {
            assert(other_tasks[i - 1] == tasks[i]);
        }
        if 0 < i < names.len() {
            assert(other_names[i - 1] == names[i]);
        }
    }
}

/// Every strategy has a place of its own in the list to choose from.
pub proof fn law_every_strategy_has_its_place(a: CompressionStrategy, b: CompressionStrategy)
    ensures
        0 <= strategy_place(a) < 4,
        strategy_place(a) == strategy_place(b) <==> a == b,
{
}

/// A rule is shown with its number and its text, and told to be on exactly when it is.
pub proof fn law_rule_is_shown_with_its_text(rule: RuleModel, mark: Seq<char>)
    ensures
        rule.content.is_suffix_of(rule_label(rule, mark)),
        ("#"@ + signed_decimal(rule.id as int)).is_prefix_of(rule_label(rule, mark)),
        has_part(rule_label(rule, mark), " · "@ + "включён"@ + mark + rule.content)
            || !rule.enabled,
        has_part(rule_label(rule, mark), " · "@ + "выключен"@ + mark + rule.content)
            || rule.enabled,
{
    let number = "#"@ + signed_decimal(rule.id as int);
    let label = rule_label(rule, mark);
    assert(label.subrange(0, number.len() as int) =~= number);
    assert(label.subrange(label.len() - rule.content.len(), label.len() as int) =~= rule.content);
    let state = if rule.enabled {
        "включён"@
    } else {
        "выключен"@
    };
    let told = " · "@ + state + mark + rule.content;
    assert(label =~= number + told);
    lemma_grown(number, told);
}

} // verus!
