//! What the user sees: coloured lines, the status bar, the view of the memory; and what is typed
//! line by line or key by key.

use vstd::prelude::*;

use crate::config::{strategy_name, CompressionStrategy};
use crate::memory::{phase_name, ProfileModel, TaskPhase};
use crate::numbers::{decimal, signed_decimal, signed_text, size_text};
use crate::tasks::{format_task_todo, shown_todo, ActiveMemory, MemoryModel, TaskModel};
use crate::text::{
    chars_of, has_part, join, joined, lemma_grown, lemma_joined_part, lemma_middle_part,
    lemma_part_of_part, lemma_views_push, same, text_of, trim, trimmed, view_option, views,
};
use crate::turn::{entry_line, entry_lines};

verus! {

broadcast use lemma_views_push;

// Colours.

/// The colour of a text.
#[derive(Debug, Clone, Copy, PartialEq, Eq, Structural)]
pub enum TextColor {
    Green,
    Yellow,
    Blue,
    Magenta,
    Cyan,
}

/// The control sequence that starts a colour.
pub open spec fn color_sequence(color: TextColor) -> Seq<char> {
    match color {
        TextColor::Green => "\x1b[32m"@,
        TextColor::Yellow => "\x1b[33m"@,
        TextColor::Blue => "\x1b[34m"@,
        TextColor::Magenta => "\x1b[35m"@,
        TextColor::Cyan => "\x1b[36m"@,
    }
}

/// A text in a colour and bold.
pub open spec fn painted(text: Seq<char>, color: TextColor) -> Seq<char> {
    color_sequence(color) + "\x1b[1m"@ + text + "\x1b[0m"@
}

/// A text that is dimmed.
pub open spec fn dimmed(text: Seq<char>) -> Seq<char> {
    "\x1b[2m"@ + text + "\x1b[0m"@
}

/// Writes a text in a colour and bold with `console::Style`, with styling forced: the sequences of
/// the colour and of bold stand before the text, and the one that ends them behind it.
#[verifier::external_body]
fn force_paint(text: &str, color: TextColor) -> (r: String)
    ensures
        r@ == painted(text@, color),
{
    let color = match color {
        TextColor::Green => console::Color::Green,
        TextColor::Yellow => console::Color::Yellow,
        TextColor::Blue => console::Color::Blue,
        TextColor::Magenta => console::Color::Magenta,
        TextColor::Cyan => console::Color::Cyan,
    };
    console::Style::new().fg(color).bold().force_styling(true).apply_to(text).to_string()
}

/// Writes a text in a colour and bold with `console::Style`, as the terminal allows: either with
/// the sequences of the colour and of bold, or as it is. Which of the two depends on the terminal.
#[verifier::external_body]
fn paint(text: &str, color: TextColor) -> (r: String)
    ensures
        r@ == painted(text@, color) || r@ == text@,
{
    let color = match color {
        TextColor::Green => console::Color::Green,
        TextColor::Yellow => console::Color::Yellow,
        TextColor::Blue => console::Color::Blue,
        TextColor::Magenta => console::Color::Magenta,
        TextColor::Cyan => console::Color::Cyan,
    };
    console::Style::new().fg(color).bold().apply_to(text).to_string()
}

/// Dims a text with `console::style`, as the terminal allows: either with the sequence for it, or as
/// it is. Which of the two depends on the terminal.
#[verifier::external_body]
fn dim(text: &str) -> (r: String)
    ensures
        r@ == dimmed(text@) || r@ == text@,
{
    console::style(text).dim().to_string()
}

/// Whether a text shows another one in a colour; a forced one always does.
pub open spec fn shows_in_color(
    shown: Seq<char>,
    text: Seq<char>,
    color: TextColor,
    forced: bool,
) -> bool {
    shown == painted(text, color) || (!forced && shown == text)
}

fn in_color(text: &str, color: TextColor, forced: bool) -> (r: String)
    ensures
        shows_in_color(r@, text@, color, forced),
{
    if forced {
        force_paint(text, color)
    } else {
        paint(text, color)
    }
}

/// The question for a field of a profile.
pub fn format_profile_field_prompt(label: &str, force_color: bool) -> (r: String)
    ensures
        shows_in_color(r@, label@, TextColor::Yellow, force_color),
{
    in_color(label, TextColor::Yellow, force_color)
}

/// The colour of a phase.
pub open spec fn phase_color(phase: TaskPhase) -> TextColor {
    match phase {
        TaskPhase::Planning => TextColor::Blue,
        TaskPhase::Execution => TextColor::Yellow,
        TaskPhase::Validation => TextColor::Magenta,
        TaskPhase::Done => TextColor::Green,
    }
}

/// Whether a line is that of a phase: its label, dimmed or not, and the name of the phase.
pub open spec fn is_phase_line(line: Seq<char>, phase: TaskPhase, forced: bool) -> bool {
    exists|shown: Seq<char>|
        #[trigger] shows_in_color(shown, phase_name(phase), phase_color(phase), forced) && (line
            == dimmed("Этап задачи:"@) + " "@ + shown || line == "Этап задачи:"@ + " "@ + shown)
}

/// The line of a phase.
pub fn format_task_phase_line(phase: TaskPhase, force_color: bool) -> (r: String)
    ensures
        is_phase_line(r@, phase, force_color),
{
    let color = match phase {
        TaskPhase::Planning => TextColor::Blue,
        TaskPhase::Execution => TextColor::Yellow,
        TaskPhase::Validation => TextColor::Magenta,
        TaskPhase::Done => TextColor::Green,
    };
    let shown = in_color(phase.name(), color, force_color);
    let line = dim("Этап задачи:").concat(" ").concat(shown.as_str());
    proof {
        assert(shows_in_color(shown@, phase_name(phase), phase_color(phase), force_color));
    }
    line
}

/// The line of the phase of the task, if there is a task.
pub fn active_task_phase_line(memory: &ActiveMemory, force_color: bool) -> (r: Option<String>)
    ensures
        match memory@.task {
            Some(task) => r is Some && is_phase_line(r->Some_0@, task.phase, force_color),
            None => r is None,
        },
{
    match &memory.task {
        Some(task) => Some(format_task_phase_line(task.phase, force_color)),
        None => None,
    }
}

// The status bar.

/// What is written for the status bar: the lines under the input, and the way back to it.
pub open spec fn render_sequence(phase: Option<Seq<char>>, status: Seq<char>) -> Seq<char> {
    match phase {
        None => "\n\x1b[2K"@ + status + "\x1b[1A\r"@,
        Some(phase) => "\n\x1b[2K"@ + phase + "\n\x1b[2K"@ + status + "\x1b[2A\r"@,
    }
}

/// What is written for the status bar.
pub fn status_render_sequence(phase: Option<&str>, status: &str) -> (r: String)
    ensures
        r@ == render_sequence(
            match phase {
                Some(phase) => Some(phase@),
                None => None,
            },
            status@,
        ),
{
    match phase {
        None => "\n\x1b[2K".to_owned().concat(status).concat("\x1b[1A\r"),
        Some(phase) => "\n\x1b[2K".to_owned().concat(phase).concat("\n\x1b[2K").concat(
            status,
        ).concat("\x1b[2A\r"),
    }
}

/// What is written to erase the status bar.
pub fn status_clear_sequence(has_task: bool) -> (r: &'static str)
    ensures
        r@ == if has_task {
            "\r\x1b[2K\x1b[1A\r\x1b[2K"@
        } else {
            "\r\x1b[2K"@
        },
{
    if has_task {
        "\r\x1b[2K\x1b[1A\r\x1b[2K"
    } else {
        "\r\x1b[2K"
    }
}

/// How the status bar shows the compression: with the branch, or with the size of the window.
pub open spec fn compression_status(
    strategy: CompressionStrategy,
    window: nat,
    branch: Option<Seq<char>>,
) -> Seq<char> {
    strategy_name(strategy) + ":"@ + if strategy == CompressionStrategy::Branching {
        match branch {
            Some(name) => name,
            None => "main"@,
        }
    } else {
        decimal(window)
    }
}

/// How the status bar shows the compression.
pub fn format_compression_status(
    strategy: CompressionStrategy,
    context_messages: usize,
    active_branch: Option<&str>,
) -> (r: String)
    ensures
        r@ == compression_status(
            strategy,
            context_messages as nat,
            match active_branch {
                Some(name) => Some(name@),
                None => None,
            },
        ),
{
    let head = strategy.name().to_owned().concat(":");
    if strategy == CompressionStrategy::Branching {
        match active_branch {
            Some(name) => head.concat(name),
            None => head.concat("main"),
        }
    } else {
        head.concat(size_text(context_messages).as_str())
    }
}

/// What `console::truncate_str` makes of a text: a width and what marks the cut.
pub uninterp spec fn truncated_line(text: Seq<char>, width: usize, mark: Seq<char>) -> Seq<char>;

/// Cuts a line to a width with `console::truncate_str`, which counts columns and leaves control
/// sequences whole.
#[verifier::external_body]
fn truncate_line(text: &str, width: usize, mark: &str) -> (r: String)
    ensures
        r@ == truncated_line(text@, width, mark@),
{
    console::truncate_str(text, width, mark).into_owned()
}

/// The fields of the status bar: a label and a value each.
pub open spec fn status_table(
    compression: Seq<char>,
    provider: Seq<char>,
    model: Seq<char>,
    mode: Seq<char>,
    temperature: Seq<char>,
    profile: Option<Seq<char>>,
) -> Seq<(Seq<char>, Seq<char>)> {
    let basic = seq![
        ("Сжатие:"@, compression),
        ("Провайдер:"@, provider),
        ("Модель:"@, model),
        ("Режим:"@, mode),
        ("Температура:"@, temperature),
    ];
    match profile {
        Some(name) => basic.push(("Профиль:"@, name)),
        None => basic,
    }
}

/// The fields of the status bar; that of the profile is there where a profile is selected.
pub fn status_fields(
    compression: &str,
    provider: &str,
    model: &str,
    mode: &str,
    temperature: &str,
    profile: Option<&str>,
) -> (r: Vec<(String, String)>)
    ensures
        views(r@) == status_table(
            compression@,
            provider@,
            model@,
            mode@,
            temperature@,
            match profile {
                Some(name) => Some(name@),
                None => None,
            },
        ),
{
    let mut fields: Vec<(String, String)> = Vec::new();
    fields.push(("Сжатие:".to_owned(), compression.to_owned()));
    fields.push(("Провайдер:".to_owned(), provider.to_owned()));
    fields.push(("Модель:".to_owned(), model.to_owned()));
    fields.push(("Режим:".to_owned(), mode.to_owned()));
    fields.push(("Температура:".to_owned(), temperature.to_owned()));
    if let Some(name) = profile {
        fields.push(("Профиль:".to_owned(), name.to_owned()));
    }
    proof {
        assert(views(fields@) =~= status_table(
            compression@,
            provider@,
            model@,
            mode@,
            temperature@,
            match profile {
                Some(name) => Some(name@),
                None => None,
            },
        ));
    }
    fields
}

/// Whether a text shows a field: its label, dimmed or not, and its value in cyan or not.
pub open spec fn shows_field(shown: Seq<char>, field: (Seq<char>, Seq<char>)) -> bool {
    exists|value: Seq<char>|
        #[trigger] shows_in_color(value, field.1, TextColor::Cyan, false) && (shown == dimmed(
            field.0,
        ) + " "@ + value || shown == field.0 + " "@ + value)
}

fn show_field(label: &str, value: &str) -> (r: String)
    ensures
        shows_field(r@, (label@, value@)),
{
    let value_shown = in_color(value, TextColor::Cyan, false);
    let shown = dim(label).concat(" ").concat(value_shown.as_str());
    proof {
        let field = (label@, value@);
        assert(shows_in_color(value_shown@, field.1, TextColor::Cyan, false));
    }
    shown
}

/// Whether texts show fields, one each.
pub open spec fn shows_each(parts: Seq<Seq<char>>, fields: Seq<(Seq<char>, Seq<char>)>) -> bool {
    parts.len() == fields.len() && forall|i: int|
        0 <= i < parts.len() ==> shows_field(#[trigger] parts[i], fields[i])
}

/// Whether a line shows fields, one after the other with two spaces between them.
pub open spec fn shows_fields(line: Seq<char>, fields: Seq<(Seq<char>, Seq<char>)>) -> bool {
    exists|parts: Seq<Seq<char>>| #[trigger]
        shows_each(parts, fields) && line == join(parts, "  "@)
}

/// The line that shows the fields of the status bar.
pub fn status_line(fields: &Vec<(String, String)>) -> (r: String)
    ensures
        shows_fields(r@, views(fields@)),
{
    let ghost model = views(fields@);
    let mut parts: Vec<String> = Vec::new();
    let mut i: usize = 0;
    while i < fields.len()
        invariant
            i <= fields@.len(),
            model == views(fields@),
            shows_each(views(parts@), model.take(i as int)),
        decreases fields.len() - i,
    {
        let shown = show_field(fields[i].0.as_str(), fields[i].1.as_str());
        parts.push(shown);
        i += 1;
    }
    proof {
        assert(model.take(i as int) =~= model);
        assert(shows_each(views(parts@), model));
    }
    joined(&parts, "  ")
}

/// What is written for the status bar, given the line of its fields and, where there is a task, the
/// line of its phase and the text that shows its title.
pub open spec fn bar_sequence(
    line: Seq<char>,
    task: Option<(Seq<char>, Seq<char>)>,
    width: usize,
) -> Seq<char> {
    let cut = truncated_line(line, width, "…"@);
    match task {
        None => render_sequence(None, cut),
        Some((phase, title)) => render_sequence(
            Some(truncated_line(phase, width, "…"@)),
            truncated_line(cut + "  "@ + title, width, "…"@),
        ),
    }
}

/// What is written for the status bar, each line cut to the width of the terminal.
pub fn status_bar_sequence(line: &str, task: Option<(String, String)>, width: usize) -> (r: String)
    ensures
        r@ == bar_sequence(
            line@,
            match task {
                Some((phase, title)) => Some((phase@, title@)),
                None => None,
            },
            width,
        ),
{
    let cut = truncate_line(line, width, "…");
    match task {
        None => status_render_sequence(None, cut.as_str()),
        Some((phase, title)) => {
            let status = truncate_line(
                cut.concat("  ").concat(title.as_str()).as_str(),
                width,
                "…",
            );
            let phase = truncate_line(phase.as_str(), width, "…");
            status_render_sequence(Some(phase.as_str()), status.as_str())
        },
    }
}

/// Whether a text is a status bar: its fields, and the phase and the title of the task where there is
/// one.
pub open spec fn is_status_bar(
    bar: Seq<char>,
    fields: Seq<(Seq<char>, Seq<char>)>,
    task: Option<TaskModel>,
    width: usize,
) -> bool {
    exists|line: Seq<char>, phase: Seq<char>, title: Seq<char>|
        #[trigger] bar_shows(line, phase, title, fields, task) && bar == bar_sequence(
            line,
            match task {
                Some(_) => Some((phase, title)),
                None => None,
            },
            width,
        )
}

/// Whether the parts of a status bar show what they should.
pub open spec fn bar_shows(
    line: Seq<char>,
    phase: Seq<char>,
    title: Seq<char>,
    fields: Seq<(Seq<char>, Seq<char>)>,
    task: Option<TaskModel>,
) -> bool {
    &&& shows_fields(line, fields)
    &&& task matches Some(task) ==> {
        &&& is_phase_line(phase, task.phase, false)
        &&& shows_field(title, ("Задача:"@, task.title))
    }
}

/// The status bar of a chat, as it is written to the terminal.
pub fn show_status_bar(
    fields: &Vec<(String, String)>,
    memory: &ActiveMemory,
    width: usize,
) -> (r: String)
    ensures
        is_status_bar(r@, views(fields@), memory@.task, width),
{
    let line = status_line(fields);
    match &memory.task {
        None => {
            let bar = status_bar_sequence(line.as_str(), None, width);
            proof {
                assert(bar_shows(line@, Seq::empty(), Seq::empty(), views(fields@), memory@.task));
            }
            bar
        },
        Some(task) => {
            let phase = format_task_phase_line(task.phase, false);
            let title = show_field("Задача:", task.title.as_str());
            let ghost (shown_phase, shown_title) = (phase@, title@);
            let bar = status_bar_sequence(line.as_str(), Some((phase, title)), width);
            proof {
                assert(bar_shows(line@, shown_phase, shown_title, views(fields@), memory@.task));
            }
            bar
        },
    }
}

// The memory.

/// How the view of the memory shows the profile.
pub open spec fn shown_profile(profile: Option<ProfileModel>) -> Seq<char> {
    match profile {
        None => "не выбран"@,
        Some(profile) => "#"@ + signed_decimal(profile.id as int) + " «"@ + profile.name + "»\n"@
            + profile.instructions,
    }
}

/// How the view of the memory shows the task.
pub open spec fn shown_task(task: Option<TaskModel>) -> Seq<char> {
    match task {
        None => "не выбрана"@,
        Some(task) => "#"@ + signed_decimal(task.id as int) + " «"@ + task.title + "»\nФаза: "@
            + phase_name(task.phase) + "\nTODO: "@ + shown_todo(task.todo),
    }
}

/// How the view of the memory shows the long-term facts.
pub open spec fn shown_entries(memory: MemoryModel) -> Seq<char> {
    if memory.long_term_facts.len() == 0 {
        "нет"@
    } else {
        join(entry_lines(memory.long_term_facts), "\n"@)
    }
}

/// The view of the memory.
pub open spec fn memory_view(memory: MemoryModel, messages: nat) -> Seq<char> {
    "Краткосрочная память (сессия): "@ + decimal(messages)
        + " сообщений\n\nРабочая память (задача):\n"@ + shown_task(memory.task)
        + "\n\nДолговременная память (факты):\n"@ + shown_entries(memory)
        + "\n\nПрофиль персонализации:\n"@ + shown_profile(memory.profile)
}

/// The view of the memory: the dialogue, the task, the long-term facts and the profile.
pub fn format_memory(memory: &ActiveMemory, message_count: usize) -> (r: String)
    ensures
        r@ == memory_view(memory@, message_count as nat),
{
    let profile = match &memory.profile {
        None => "не выбран".to_owned(),
        Some(profile) => "#".to_owned().concat(signed_text(profile.id).as_str()).concat(
            " «",
        ).concat(profile.name.as_str()).concat("»\n").concat(profile.instructions.as_str()),
    };
    let task = match &memory.task {
        None => "не выбрана".to_owned(),
        Some(task) => "#".to_owned().concat(signed_text(task.id).as_str()).concat(" «").concat(
            task.title.as_str(),
        ).concat("»\nФаза: ").concat(task.phase.name()).concat("\nTODO: ").concat(
            format_task_todo(&task.todo).as_str(),
        ),
    };
    let ghost model = memory@.long_term_facts;
    let mut lines: Vec<String> = Vec::new();
    let mut i: usize = 0;
    while i < memory.long_term_facts.len()
        invariant
            i <= memory.long_term_facts@.len(),
            model == views(memory.long_term_facts@),
            views(lines@) == entry_lines(model).take(i as int),
        decreases memory.long_term_facts.len() - i,
    {
        let entry = &memory.long_term_facts[i];
        let line = "#".to_owned().concat(signed_text(entry.id).as_str()).concat(": ").concat(
            entry.content.as_str(),
        );
        proof {
            assert(entry_lines(model).take(i as int).push(line@) =~= entry_lines(model).take(i + 1));
        }
        lines.push(line);
        i += 1;
    }
    proof {
        assert(entry_lines(model).take(i as int) =~= entry_lines(model));
    }
    let facts = if memory.long_term_facts.len() == 0 {
        "нет".to_owned()
    } else {
        joined(lines.as_slice(), "\n")
    };
    "Краткосрочная память (сессия): ".to_owned().concat(size_text(message_count).as_str()).concat(
        " сообщений\n\nРабочая память (задача):\n",
    ).concat(task.as_str()).concat("\n\nДолговременная память (факты):\n").concat(
        facts.as_str(),
    ).concat("\n\nПрофиль персонализации:\n").concat(profile.as_str())
}

// Lines and keys.

/// A line without the line breaks at its end.
pub open spec fn without_breaks(line: Seq<char>) -> Seq<char>
    decreases line.len(),
{
    if line.len() > 0 && (line.last() == '\n' || line.last() == '\r') {
        without_breaks(line.drop_last())
    } else {
        line
    }
}

/// The line that was read, unless it ends the text.
pub fn multiline_line(line: &str) -> (r: Option<String>)
    ensures
        view_option(r) == if without_breaks(line@) == "/done"@ {
            None
        } else {
            Some(without_breaks(line@))
        },
{
    let chars = chars_of(line);
    let mut end: usize = chars.len();
    proof {
        assert(line@.take(end as int) =~= line@);
    }
    while end > 0 && (chars[end - 1] == '\n' || chars[end - 1] == '\r')
        invariant
            end <= chars@.len(),
            chars@ == line@,
            without_breaks(line@) == without_breaks(line@.take(end as int)),
        decreases end,
    {
        proof {
            assert(line@.take(end as int).drop_last() =~= line@.take(end - 1));
        }
        end -= 1;
    }
    let text = text_of(chars.as_slice(), 0, end);
    proof {
        assert(text@ =~= line@.take(end as int));
    }
    if same(text.as_str(), "/done") {
        None
    } else {
        Some(text)
    }
}

/// The text of the lines that were read.
pub fn multiline_text(lines: &Vec<String>) -> (r: String)
    ensures
        r@ == trim(join(views(lines@), "\n"@)),
{
    trimmed(joined(lines.as_slice(), "\n").as_str())
}

/// A key that the user pressed.
#[derive(Debug, Clone, Copy, PartialEq, Eq, Structural)]
pub enum KeyPress {
    Letter(char),
    Erase,
    Enter,
    Cancel,
    Other,
}

/// What a key does while a secret is typed.
#[derive(Debug, Clone, Copy, PartialEq, Eq, Structural)]
pub enum KeyEffect {
    Shown,
    Erased,
    Done,
    Cancelled,
    Ignored,
}

/// Whether a character is a control character.
pub open spec fn is_control(c: char) -> bool {
    (c as u32) < 32 || 127 <= (c as u32) <= 159
}

/// The typed text after a key, and what the key does.
pub open spec fn key_pressed(typed: Seq<char>, key: KeyPress) -> (Seq<char>, KeyEffect) {
    match key {
        KeyPress::Letter(c) => if is_control(c) {
            (typed, KeyEffect::Ignored)
        } else {
            (typed.push(c), KeyEffect::Shown)
        },
        KeyPress::Erase => if typed.len() > 0 {
            (typed.drop_last(), KeyEffect::Erased)
        } else {
            (typed, KeyEffect::Ignored)
        },
        KeyPress::Enter => (typed, KeyEffect::Done),
        KeyPress::Cancel => (typed, KeyEffect::Cancelled),
        KeyPress::Other => (typed, KeyEffect::Ignored),
    }
}

/// Takes a key while a secret is typed.
pub fn press_key(typed: &mut Vec<char>, key: KeyPress) -> (r: KeyEffect)
    ensures
        (final(typed)@, r) == key_pressed(old(typed)@, key),
{
    match key {
        KeyPress::Letter(c) => {
            let code = c as u32;
            if code < 32 || (127 <= code && code <= 159) {
                KeyEffect::Ignored
            } else {
                typed.push(c);
                KeyEffect::Shown
            }
        },
        KeyPress::Erase => {
            if typed.len() > 0 {
                typed.pop();
                KeyEffect::Erased
            } else {
                KeyEffect::Ignored
            }
        },
        KeyPress::Enter => KeyEffect::Done,
        KeyPress::Cancel => KeyEffect::Cancelled,
        KeyPress::Other => KeyEffect::Ignored,
    }
}

/// Erasing takes back the last character that was shown.
pub proof fn law_erase_undoes_letter(typed: Seq<char>, c: char)
    requires
        !is_control(c),
    ensures
        key_pressed(key_pressed(typed, KeyPress::Letter(c)).0, KeyPress::Erase).0 == typed,
{
    assert(typed.push(c).drop_last() =~= typed);
}

/// Checks a key that was typed.
pub fn accept_key(typed: &Vec<char>) -> (r: Result<String, String>)
    ensures
        match r {
            Ok(key) => key@ == trim(typed@) && key@.len() > 0,
            Err(message) => trim(typed@).len() == 0 && message@
                == "API-ключ не может быть пустым"@,
        },
{
    let text = text_of(typed.as_slice(), 0, typed.len());
    proof {
        assert(text@ =~= typed@);
    }
    let key = trimmed(text.as_str());
    if key.as_str().is_empty() {
        Err("API-ключ не может быть пустым".to_owned())
    } else {
        Ok(key)
    }
}

/// The view of the memory tells the task, the facts and the profile.
pub proof fn law_memory_view_tells_the_memory(memory: MemoryModel, messages: nat, i: int)
    ensures
        has_part(memory_view(memory, messages), decimal(messages) + " сообщений"@),
        memory.task matches Some(task) ==> has_part(
            memory_view(memory, messages),
            "«"@ + task.title + "»\nФаза: "@ + phase_name(task.phase),
        ) && has_part(memory_view(memory, messages), shown_todo(task.todo)),
        0 <= i < memory.long_term_facts.len() ==> has_part(
            memory_view(memory, messages),
            entry_line(memory.long_term_facts[i]),
        ),
        memory.profile matches Some(profile) ==> has_part(
            memory_view(memory, messages),
            "«"@ + profile.name + "»\n"@ + profile.instructions,
        ),
{
    let view = memory_view(memory, messages);
    lemma_memory_sections(memory, messages);
    if let Some(task) = memory.task {
        lemma_task_is_shown(task);
        lemma_part_of_part(
            view,
            shown_task(memory.task),
            "«"@ + task.title + "»\nФаза: "@ + phase_name(task.phase),
        );
        lemma_part_of_part(view, shown_task(memory.task), shown_todo(task.todo));
    }
    if 0 <= i < memory.long_term_facts.len() {
        lemma_joined_part(entry_lines(memory.long_term_facts), "\n"@, i);
        lemma_part_of_part(view, shown_entries(memory), entry_line(memory.long_term_facts[i]));
    }
    if let Some(profile) = memory.profile {
        lemma_profile_is_shown(profile);
        lemma_part_of_part(
            view,
            shown_profile(memory.profile),
            "«"@ + profile.name + "»\n"@ + profile.instructions,
        );
    }
}

/// The view of the memory has its sections.
proof fn lemma_memory_sections(memory: MemoryModel, messages: nat)
    ensures
        has_part(memory_view(memory, messages), decimal(messages) + " сообщений"@),
        has_part(memory_view(memory, messages), shown_task(memory.task)),
        has_part(memory_view(memory, messages), shown_entries(memory)),
        has_part(memory_view(memory, messages), shown_profile(memory.profile)),
{
    let count = "Краткосрочная память (сессия): "@ + decimal(messages);
    let first = count + " сообщений\n\nРабочая память (задача):\n"@;
    let second = first + shown_task(memory.task);
    let third = second + "\n\nДолговременная память (факты):\n"@;
    let fourth = third + shown_entries(memory);
    let fifth = fourth + "\n\nПрофиль персонализации:\n"@;
    lemma_count_is_shown(messages);
    lemma_grown(first, shown_task(memory.task));
    lemma_grown(second, "\n\nДолговременная память (факты):\n"@);
    lemma_grown(third, shown_entries(memory));
    lemma_grown(fourth, "\n\nПрофиль персонализации:\n"@);
    lemma_grown(fifth, shown_profile(memory.profile));
    assert(has_part(second, decimal(messages) + " сообщений"@));
    assert(has_part(third, decimal(messages) + " сообщений"@));
    assert(has_part(fourth, decimal(messages) + " сообщений"@));
    assert(has_part(fifth, decimal(messages) + " сообщений"@));
    assert(has_part(third, shown_task(memory.task)));
    assert(has_part(fourth, shown_task(memory.task)));
    assert(has_part(fifth, shown_task(memory.task)));
    assert(has_part(fifth, shown_entries(memory)));
}

/// The number of messages is told.
proof fn lemma_count_is_shown(messages: nat)
    ensures
        has_part(
            "Краткосрочная память (сессия): "@ + decimal(messages)
                + " сообщений\n\nРабочая память (задача):\n"@,
            decimal(messages) + " сообщений"@,
        ),
{
    let head = "Краткосрочная память (сессия): "@;
    let end = " сообщений\n\nРабочая память (задача):\n"@;
    reveal_strlit(" сообщений\n\nРабочая память (задача):\n");
    reveal_strlit(" сообщений");
    let rest = end.skip(" сообщений"@.len() as int);
    assert(end =~= " сообщений"@ + rest);
    assert(head + decimal(messages) + end =~= head + (decimal(messages) + " сообщений"@) + rest);
    lemma_middle_part(head, decimal(messages) + " сообщений"@, rest);
}

/// A profile is shown with its name and its instructions.
proof fn lemma_profile_is_shown(profile: ProfileModel)
    ensures
        has_part(
            shown_profile(Some(profile)),
            "«"@ + profile.name + "»\n"@ + profile.instructions,
        ),
{
    let number = "#"@ + signed_decimal(profile.id as int) + " "@;
    let told = "«"@ + profile.name + "»\n"@ + profile.instructions;
    reveal_strlit(" «");
    reveal_strlit(" ");
    reveal_strlit("«");
    assert(" «"@ =~= " "@ + "«"@);
    assert(shown_profile(Some(profile)) =~= number + told);
    lemma_grown(number, told);
}

/// A task is shown with its title, its phase and its list.
proof fn lemma_task_is_shown(task: TaskModel)
    ensures
        has_part(
            shown_task(Some(task)),
            "«"@ + task.title + "»\nФаза: "@ + phase_name(task.phase),
        ),
        has_part(shown_task(Some(task)), shown_todo(task.todo)),
{
    let number = "#"@ + signed_decimal(task.id as int) + " "@;
    let middle = "«"@ + task.title + "»\nФаза: "@ + phase_name(task.phase);
    reveal_strlit(" «");
    reveal_strlit(" ");
    reveal_strlit("«");
    assert(" «"@ =~= " "@ + "«"@);
    assert(shown_task(Some(task)) =~= number + middle + ("\nTODO: "@ + shown_todo(task.todo)));
    lemma_middle_part(number, middle, "\nTODO: "@ + shown_todo(task.todo));
    lemma_grown(number + middle + "\nTODO: "@, shown_todo(task.todo));
    assert(shown_task(Some(task)) =~= number + middle + "\nTODO: "@ + shown_todo(task.todo));
}

/// The status line has a field for each thing in use, with its own label.
pub proof fn law_status_shows_what_is_in_use(
    compression: Seq<char>,
    provider: Seq<char>,
    model: Seq<char>,
    mode: Seq<char>,
    temperature: Seq<char>,
    profile: Option<Seq<char>>,
)
    ensures
        ({
            let table = status_table(compression, provider, model, mode, temperature, profile);
            &&& table.contains(("Сжатие:"@, compression))
            &&& table.contains(("Провайдер:"@, provider))
            &&& table.contains(("Модель:"@, model))
            &&& table.contains(("Режим:"@, mode))
            &&& table.contains(("Температура:"@, temperature))
            &&& profile matches Some(name) ==> table.contains(("Профиль:"@, name))
        }),
{
    let table = status_table(compression, provider, model, mode, temperature, profile);
    assert(table[0] == ("Сжатие:"@, compression));
    assert(table[1] == ("Провайдер:"@, provider));
    assert(table[2] == ("Модель:"@, model));
    assert(table[3] == ("Режим:"@, mode));
    assert(table[4] == ("Температура:"@, temperature));
    if let Some(name) = profile {
        assert(table[5] == ("Профиль:"@, name));
    }
}

/// Only line breaks at the end of a line are taken away, and all of them.
pub proof fn law_line_breaks_are_taken_off(line: Seq<char>, i: int)
    ensures
        without_breaks(line).is_prefix_of(line),
        without_breaks(line).len() > 0 ==> without_breaks(line).last() != '\n' && without_breaks(
            line,
        ).last() != '\r',
        without_breaks(line).len() <= i < line.len() ==> line[i] == '\n' || line[i] == '\r',
    decreases line.len(),
{
    if line.len() > 0 && (line.last() == '\n' || line.last() == '\r') {
        law_line_breaks_are_taken_off(line.drop_last(), i);
    }
}

/// What is typed is what was pressed: a letter is added, an erasure takes the last one away, and the
/// other keys change nothing.
pub proof fn law_keys_do_what_they_say(typed: Seq<char>, c: char)
    ensures
        !is_control(c) ==> key_pressed(typed, KeyPress::Letter(c)) == (
            typed + seq![c],
            KeyEffect::Shown,
        ),
        is_control(c) ==> key_pressed(typed, KeyPress::Letter(c)) == (typed, KeyEffect::Ignored),
        key_pressed(typed, KeyPress::Enter) == (typed, KeyEffect::Done),
        key_pressed(typed, KeyPress::Cancel).1 == KeyEffect::Cancelled,
        key_pressed(typed, KeyPress::Other) == (typed, KeyEffect::Ignored),
{
    assert(typed + seq![c] =~= typed.push(c));
}

/// The state of the context is told by its strategy, with its window or its branch.
pub proof fn law_context_is_told_by_its_strategy(
    strategy: CompressionStrategy,
    window: nat,
    branch: Seq<char>,
)
    ensures
        compression_status(CompressionStrategy::Branching, window, Some(branch)) == strategy_name(
            CompressionStrategy::Branching,
        ) + ":"@ + branch,
        strategy != CompressionStrategy::Branching ==> compression_status(
            strategy,
            window,
            Some(branch),
        ) == strategy_name(strategy) + ":"@ + decimal(window),
{
}

/// A line in color holds its text whole between the sequences that switch the color on and off.
pub proof fn law_color_leaves_the_text(text: Seq<char>, color: TextColor)
    ensures
        has_part(painted(text, color), text),
        has_part(dimmed(text), text),
        "\x1b[0m"@.is_suffix_of(painted(text, color)),
        "\x1b[0m"@.is_suffix_of(dimmed(text)),
{
    let head = color_sequence(color) + "\x1b[1m"@;
    let end = "\x1b[0m"@;
    lemma_middle_part(head, text, end);
    lemma_middle_part("\x1b[2m"@, text, end);
    let shown = painted(text, color);
    assert(shown.subrange(shown.len() - end.len(), shown.len() as int) =~= end);
    let faint = dimmed(text);
    assert(faint.subrange(faint.len() - end.len(), faint.len() as int) =~= end);
}

} // verus!
