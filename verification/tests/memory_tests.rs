use fox_llm::commands::{
    branching_action, check_window, command_of, compression_arguments, compression_choice,
    compression_request, compression_text, expand_command_hint, find_profile, find_task, forget_id,
    highlighted_hint, initial_choice, invariant_action, invariant_candidates, invariant_label,
    parse_context_messages, profile_action, profile_label, record_query, remember_text, strategy_at,
    strategy_position, task_action, task_label, BranchingAction, Command, CommandHelper,
    CompressionStep, InvariantAction, RecordAction, RecordQuery, RuleChange,
};
use fox_llm::config::{parse_compression_strategy, CompressionStrategy};
use fox_llm::display::{
    accept_key, active_task_phase_line, format_compression_status, format_memory,
    format_profile_field_prompt, format_task_phase_line, multiline_line, multiline_text, press_key,
    show_status_bar, status_bar_sequence, status_clear_sequence, status_fields, status_line,
    status_render_sequence, KeyEffect, KeyPress,
};
use fox_llm::memory::{
    compose_profile_instructions, validate_memory_entry, validate_memory_text, validate_profile,
    validate_task, MemoryEntry, Profile, TaskPhase, TaskTodo, MEMORY_ENTRY_MAX_CHARS,
    PROFILE_INSTRUCTIONS_MAX_CHARS,
};
use fox_llm::sessions::{
    check_entry_deleted, check_invariant_changed, check_invariant_id, prepare_invariant,
    validate_invariant, INVARIANTS_MAX, INVARIANT_MAX_CHARS,
};
use fox_llm::task_store::{
    check_task_advanced, check_task_saved, load_task, prepare_advance, prepare_task,
    prepare_task_update, task_phase_completion_message, task_phase_continue_instruction,
    task_phase_start_instruction, task_progress, ResultRow, TaskRow, TaskUpdateProgress,
};
use fox_llm::task_update::{
    deserialize_task_ids, extract_task_update, is_bare_task_update, parse_task_update, TaskUpdate,
};
use fox_llm::tasks::{
    apply_task_update, format_task, format_task_results, format_task_todo, task_result_context,
    task_result_summary, task_step_context, ActiveMemory, Invariant, Task, TaskStepResult,
};
use fox_llm::todo_format::{decode_task_todo, encode_task_todo};
use fox_llm::verdict::{invariant_refusal, parse_verification_result, VerificationVerdict};

fn profile(id: i64, name: &str, instructions: &str) -> Profile {
    Profile { id, name: name.to_owned(), instructions: instructions.to_owned() }
}

fn task(id: i64, title: &str, description: &str, phase: TaskPhase) -> Task {
    Task {
        id,
        title: title.to_owned(),
        todo: TaskTodo::from_description(description).unwrap(),
        phase,
        plan_version: 1,
        approved_plan_version: None,
        results: vec![],
    }
}

fn planned_task(phase: TaskPhase) -> Task {
    let mut value = task(1, "Задача", "Собрать", phase);
    value.todo = TaskTodo::default();
    value.todo.add_execution("Собрать").unwrap();
    value.todo.add_execution("Запустить").unwrap();
    value.todo.add_validation("Проверить").unwrap();
    value.approved_plan_version = Some(1);
    value
}

#[test]
fn task_phases_are_strict_and_sequential() {
    let phases = [
        TaskPhase::Planning,
        TaskPhase::Execution,
        TaskPhase::Validation,
        TaskPhase::Done,
    ];
    assert_eq!(TaskPhase::Planning.next(), Some(TaskPhase::Execution));
    assert_eq!(TaskPhase::Execution.next(), Some(TaskPhase::Validation));
    assert_eq!(TaskPhase::Validation.next(), Some(TaskPhase::Done));
    assert_eq!(TaskPhase::Done.next(), None);
    for phase in phases {
        assert_eq!(TaskPhase::parse(phase.name()).unwrap(), phase);
        assert!(!phase.instructions().is_empty());
    }
    assert!(TaskPhase::Planning.instructions().contains("не переходи к выполнению"));
    assert!(TaskPhase::Execution.instructions().contains("согласованный TODO"));
    assert!(TaskPhase::Validation.instructions().contains("проверяй результат"));
    assert!(TaskPhase::Done.instructions().contains("Следующего этапа нет"));
    assert!(TaskPhase::parse("review").is_err());
}

#[test]
fn memory_text_validation_is_trimmed_unicode_aware_and_bounded() {
    assert_eq!(validate_memory_text("  профиль  ", "поле", 8).unwrap(), "профиль");
    assert!(validate_memory_text("   ", "поле", 10).is_err());
    assert!(validate_memory_text(&"я".repeat(11), "поле", 10).is_err());
    assert!(validate_profile("имя", " ").is_err());
    assert!(validate_task(" ", "TODO").is_err());
    assert_eq!(
        validate_memory_entry("  Пользователь пишет на Rust  ").unwrap(),
        "Пользователь пишет на Rust"
    );
    assert!(validate_memory_entry(" ").is_err());
    assert!(validate_memory_entry(&"я".repeat(MEMORY_ENTRY_MAX_CHARS + 1)).is_err());
}

#[test]
fn structured_profile_instructions_are_canonical_and_bounded() {
    let prompt = format_profile_field_prompt("Стиль ответа", true);
    assert!(prompt.contains("Стиль ответа"));
    assert!(prompt.contains("\x1b[33m"));
    assert!(prompt.contains("\x1b[1m"));

    let instructions = compose_profile_instructions("  кратко  ", "списком", "без эмодзи").unwrap();
    assert_eq!(
        instructions,
        "Стиль:\nкратко\n\nФормат:\nсписком\n\nОграничения:\nбез эмодзи"
    );
    assert!(compose_profile_instructions("", "списком", "без эмодзи").is_err());
    assert!(compose_profile_instructions(
        &"я".repeat(PROFILE_INSTRUCTIONS_MAX_CHARS),
        "списком",
        "без эмодзи"
    )
    .is_err());
}

#[test]
fn memory_view_and_phase_colors_are_explicit() {
    let memory = ActiveMemory {
        profile: Some(profile(1, "Профиль", "Только русский")),
        task: Some(task(2, "Задача", "Проверить вывод", TaskPhase::Execution)),
        long_term_facts: vec![MemoryEntry {
            id: 8,
            content: "Проект использует SQLite".to_owned(),
        }],
    };
    let view = format_memory(&memory, 4);
    assert!(view.contains("Краткосрочная память (сессия): 4 сообщений"));
    assert!(view.contains("Рабочая память (задача)"));
    assert!(view.contains("Долговременная память (факты)"));
    assert!(view.contains("#8: Проект использует SQLite"));
    assert!(view.contains("Профиль персонализации"));
    assert!(!view.contains("api_key"));

    for (phase, ansi) in [
        (TaskPhase::Planning, "\x1b[34m"),
        (TaskPhase::Execution, "\x1b[33m"),
        (TaskPhase::Validation, "\x1b[35m"),
        (TaskPhase::Done, "\x1b[32m"),
    ] {
        let line = format_task_phase_line(phase, true);
        assert!(line.contains("Этап задачи:"));
        assert!(line.contains(phase.name()));
        assert!(line.contains(ansi), "{phase:?}: {line:?}");
    }
    assert!(active_task_phase_line(&memory, true).is_some());
    assert!(active_task_phase_line(&ActiveMemory::default(), true).is_none());
    assert_eq!(status_clear_sequence(false), "\r\x1b[2K");
    assert_eq!(status_clear_sequence(true), "\r\x1b[2K\x1b[1A\r\x1b[2K");
    let two_lines = status_render_sequence(Some("Этап задачи: planning"), "Статус");
    assert!(two_lines.find("Этап задачи").unwrap() < two_lines.find("Статус").unwrap());
    assert!(two_lines.ends_with("\x1b[2A\r"));
    let one_line = status_render_sequence(None, "Статус");
    assert!(!one_line.contains("Этап задачи"));
    assert!(one_line.ends_with("\x1b[1A\r"));
}

#[test]
fn status_bar_shows_the_settings_and_the_task() {
    let fields = status_fields("facts:10", "OpenAI", "gpt", "Обычный", "0.7", None);
    assert_eq!(fields.len(), 5);
    assert_eq!(fields[0], ("Сжатие:".to_owned(), "facts:10".to_owned()));
    assert_eq!(fields[4], ("Температура:".to_owned(), "0.7".to_owned()));
    let fields = status_fields("facts:10", "OpenAI", "gpt", "Обычный", "0.7", Some("Краткий"));
    assert_eq!(fields[5], ("Профиль:".to_owned(), "Краткий".to_owned()));
    let line = status_line(&fields);
    assert!(line.find("facts:10").unwrap() < line.find("Провайдер:").unwrap());
    assert!(line.find("Профиль:").unwrap() < line.find("Краткий").unwrap());

    let bar = show_status_bar(&fields, &ActiveMemory::default(), 500);
    assert!(bar.contains("Краткий") && !bar.contains("Задача:"));
    assert!(bar.ends_with("\x1b[1A\r"));
    let memory = ActiveMemory {
        profile: None,
        task: Some(task(2, "Выпуск", "Проверить вывод", TaskPhase::Execution)),
        long_term_facts: vec![],
    };
    let bar = show_status_bar(&fields, &memory, 500);
    assert!(bar.find("Этап задачи:").unwrap() < bar.find("Сжатие:").unwrap());
    assert!(bar.find("Задача:").unwrap() < bar.find("Выпуск").unwrap());
    assert!(bar.ends_with("\x1b[2A\r"));
    assert!(!show_status_bar(&fields, &memory, 30).contains("Выпуск"));
}

#[test]
fn status_bar_is_cut_to_the_width_of_the_terminal() {
    assert_eq!(
        status_bar_sequence("Сжатие: facts", None, 8),
        status_render_sequence(None, "Сжатие:…")
    );
    assert_eq!(
        status_bar_sequence("Сжатие", Some(("Этап задачи".to_owned(), "Задача".to_owned())), 10),
        status_render_sequence(Some("Этап зада…"), "Сжатие  З…")
    );
    assert_eq!(
        status_bar_sequence("Сжатие", None, 80),
        status_render_sequence(None, "Сжатие")
    );
}

#[test]
fn records_are_shown_in_menus() {
    assert_eq!(profile_label(&profile(3, "Краткий", "x")), "#3 · Краткий");
    let mut shown = task(2, "Выпуск", "Проверить вывод", TaskPhase::Execution);
    assert_eq!(task_label(&shown), "#2 · execution · Выпуск");
    shown.plan_version = 4;
    shown.approved_plan_version = None;
    let text = format_task(&shown);
    assert!(text.starts_with(
        "#2 «Выпуск»\nФаза: execution\nВерсия плана: 4\nУтверждена версия: нет\nФакты:\n"
    ));
    assert!(text.ends_with("\nРезультаты:\n  —"));
    shown.approved_plan_version = Some(4);
    assert!(format_task(&shown).contains("Утверждена версия: 4\n"));
    let names = vec!["a".to_owned(), "b".to_owned(), "b".to_owned()];
    assert_eq!(initial_choice(&names, "b"), 1);
    assert_eq!(initial_choice(&names, "c"), 0);
    assert_eq!(initial_choice(&vec![], "a"), 0);
}

#[test]
fn completes_slash_commands() {
    let helper = CommandHelper::new(false);
    let candidates = helper.complete("/pro");
    assert_eq!(candidates.len(), 2);
    assert_eq!(candidates[0].1, "/provider");
    assert_eq!(candidates[1].1, "/profile");
    assert_eq!(helper.hint("/pro", true), None);
    assert_eq!(helper.hint("/prov", true).as_deref(), Some("ider"));
    assert!(helper.complete("/bra").is_empty());
    assert_eq!(expand_command_hint("/pro", false), "/pro");
    assert_eq!(expand_command_hint("/prov", false), "/provider");
    assert_eq!(expand_command_hint("обычный запрос", false), "обычный запрос");
    assert_eq!(expand_command_hint("/unknown", false), "/unknown");
    assert_eq!(expand_command_hint("/model", false), "/model");
    assert_eq!(expand_command_hint("/mode", false), "/mode");
    assert_eq!(expand_command_hint("/mem", false), "/memory");
    assert_eq!(expand_command_hint("/rem", false), "/remember");
    assert_eq!(expand_command_hint("/for", false), "/forget");
    assert_eq!(expand_command_hint("/tas", false), "/task");
    assert_eq!(helper.hint("/mode", true), None);
    let helper = CommandHelper::new(true);
    assert_eq!(helper.complete("/loa")[0].1, "/load");
    assert_eq!(helper.complete("/bra")[0].1, "/branches");
    assert_eq!(helper.hint("/swi", true).as_deref(), Some("tch"));
    assert_eq!(helper.hint("/swi", false), None);
    assert_eq!(expand_command_hint("/check", true), "/checkpoint");
    assert_eq!(highlighted_hint("vider"), "\x1b[2mvider\x1b[0m");
}

#[test]
fn validates_compression_command_and_strategies() {
    for value in ["1001", "-1", "1.5", "abc", ""] {
        assert!(parse_context_messages(value).is_err(), "{value}");
    }
    assert_eq!(parse_context_messages("0").unwrap(), 0);
    assert_eq!(parse_context_messages("1").unwrap(), 1);
    assert_eq!(parse_context_messages("1000").unwrap(), 1000);
    assert_eq!(
        parse_compression_strategy("sliding").unwrap(),
        CompressionStrategy::SlidingWindow
    );
    assert_eq!(
        parse_compression_strategy("facts").unwrap(),
        CompressionStrategy::StickyFacts
    );
    assert_eq!(expand_command_hint("/com", false), "/compression");
}

#[test]
fn deterministic_memory_commands_select_saved_records() {
    let profiles = vec![profile(1, "Auditor", "Проверяй факты")];
    let tasks = vec![task(1, "Команды", "Проверить выбор", TaskPhase::Planning)];
    assert_eq!(
        profile_action("/profile use Auditor").unwrap(),
        RecordAction::Use("Auditor".to_owned())
    );
    assert_eq!(find_profile(&profiles, "Auditor").unwrap(), 0);
    assert_eq!(profile_action("/profile off").unwrap(), RecordAction::Off);
    assert!(profile_action("/profile unknown").is_err());
    assert_eq!(task_action("/task use 1").unwrap(), RecordAction::Use("1".to_owned()));
    assert_eq!(record_query("1"), RecordQuery::Number(tasks[0].id));
    assert_eq!(find_task(&tasks, "Команды").unwrap(), 0);
    assert_eq!(task_action("/task off").unwrap(), RecordAction::Off);
    assert!(task_action("/task skip").is_err());
    assert_eq!(
        remember_text("/remember Пользователь пишет на Rust").as_deref(),
        Some("Пользователь пишет на Rust")
    );

    let planned = planned_task(TaskPhase::Planning);
    let advanced = prepare_advance(&planned, TaskPhase::Planning, 1).unwrap();
    assert_eq!(advanced.phase, TaskPhase::Execution);
    assert_eq!(advanced.approved_plan_version, Some(1));
    assert_eq!(planned.phase, TaskPhase::Planning);
}

#[test]
fn records_are_found_by_number_or_name() {
    let profiles = vec![profile(4, "A", "i"), profile(7, "4", "i")];
    assert_eq!(record_query("4"), RecordQuery::Number(4));
    assert_eq!(record_query("A"), RecordQuery::Name);
    assert_eq!(find_profile(&profiles, "A").unwrap(), 0);
    assert_eq!(find_profile(&profiles, "4").unwrap(), 1);
    assert!(find_profile(&profiles, "B").is_err());
    assert!(find_task(&vec![], "1").is_err());
    assert_eq!(profile_action("/profile").unwrap(), RecordAction::Choose);
    assert_eq!(profile_action("/profile new").unwrap(), RecordAction::Create);
    assert_eq!(profile_action("/profile show").unwrap(), RecordAction::Show);
    assert!(profile_action("/profile next").is_err());
    assert_eq!(task_action("/task next").unwrap(), RecordAction::Next);
    assert_eq!(forget_id("/forget 12").unwrap(), 12);
    assert!(forget_id("/forget двенадцать").is_err());
}

#[test]
fn lines_are_told_from_commands() {
    assert_eq!(command_of("Привет", false), Command::Message);
    assert_eq!(command_of("/help", false), Command::Help);
    assert_eq!(command_of("/quit", false), Command::Quit);
    assert_eq!(command_of("/new", false), Command::NewSession);
    assert_eq!(command_of("/branches", false), Command::Unknown);
    assert_eq!(command_of("/branches", true), Command::Branching);
    assert_eq!(branching_action("/checkpoint"), Some(BranchingAction::Checkpoint));
    assert_eq!(branching_action("/load"), Some(BranchingAction::Load));
    assert_eq!(branching_action("/branches"), Some(BranchingAction::List));
    assert_eq!(branching_action("/switch"), Some(BranchingAction::ChooseBranch));
    assert_eq!(
        branching_action("/switch идея"),
        Some(BranchingAction::Switch("идея".to_owned()))
    );
    assert_eq!(branching_action("/help"), None);
    assert_eq!(branching_action("/checkpoint x"), Some(BranchingAction::Checkpoint));
    assert_eq!(branching_action("/load x"), Some(BranchingAction::Load));
    assert_eq!(branching_action("/branches x"), Some(BranchingAction::List));
    assert_eq!(branching_action("/switching"), None);
    assert_eq!(branching_action(""), None);
}

#[test]
fn compression_requests_are_resolved() {
    assert_eq!(compression_arguments("/compression sliding 5"), "sliding 5");
    assert_eq!(compression_request("", 10), CompressionStep::ChooseStrategy);
    assert_eq!(
        compression_request("sliding 5", 10),
        CompressionStep::Apply(CompressionStrategy::SlidingWindow, 5)
    );
    assert!(matches!(compression_request("sliding x", 10), CompressionStep::Refuse(_)));
    assert!(matches!(compression_request("magic", 10), CompressionStep::Refuse(_)));
    assert_eq!(
        compression_choice(CompressionStrategy::Branching, 7),
        CompressionStep::Apply(CompressionStrategy::Branching, 7)
    );
    assert_eq!(
        compression_choice(CompressionStrategy::Summary, 7),
        CompressionStep::AskWindow(CompressionStrategy::Summary)
    );
    for position in 0..4 {
        assert_eq!(strategy_position(strategy_at(position)), position);
    }
    assert!(check_window(CompressionStrategy::SlidingWindow, 0).is_err());
    assert!(compression_text(CompressionStrategy::SlidingWindow, 5).contains('5'));
    assert!(format_compression_status(CompressionStrategy::SlidingWindow, 5, None).contains('5'));
}

fn rule(id: i64, content: &str, enabled: bool) -> Invariant {
    Invariant { id, content: content.to_owned(), enabled }
}

#[test]
fn invariants_are_validated_and_managed() {
    assert_eq!(validate_invariant("  Только Rust ").unwrap(), "Только Rust");
    assert!(validate_invariant("  ").is_err());
    assert!(validate_invariant(&"я".repeat(INVARIANT_MAX_CHARS + 1)).is_err());
    assert_eq!(prepare_invariant("Только Rust", 0).unwrap(), "Только Rust");
    assert!(prepare_invariant("Только Rust", INVARIANTS_MAX).is_err());
    assert!(check_invariant_id(0).is_err());
    assert!(check_invariant_id(1).is_ok());
    assert!(check_invariant_changed(3, 0).is_err());
    assert!(check_invariant_changed(3, 1).is_ok());
    assert_eq!(invariant_action("/invariant").unwrap(), InvariantAction::Choose);
    assert_eq!(invariant_action("/invariant list").unwrap(), InvariantAction::List);
    assert_eq!(
        invariant_action("/invariant add Только Rust").unwrap(),
        InvariantAction::Add("Только Rust".to_owned())
    );
    assert_eq!(invariant_action("/invariant remove 2").unwrap(), InvariantAction::Remove(2));
    assert!(invariant_action("/invariant remove два").is_err());
    assert!(invariant_action("/invariant explode").is_err());
    let rules = vec![rule(1, "A", true), rule(2, "B", false)];
    assert_eq!(invariant_candidates(&rules, RuleChange::Enable), vec![rule(2, "B", false)]);
    assert_eq!(invariant_candidates(&rules, RuleChange::Disable), vec![rule(1, "A", true)]);
    assert_eq!(invariant_candidates(&rules, RuleChange::Remove).len(), 2);
    assert!(invariant_label(&rules[0], "x").contains("#1"));
}

#[test]
fn verdicts_are_read_strictly() {
    let rules = vec![rule(5, "Только Rust", true)];
    let allowed =
        parse_verification_result("{\"verdict\":\"allow\",\"invariant_ids\":[],\"reason\":\"ok\"}", &rules)
            .unwrap();
    assert_eq!(allowed.verdict, VerificationVerdict::Allow);
    assert!(parse_verification_result(
        "{\"verdict\":\"violation\",\"invariant_ids\":[9],\"reason\":\"r\"}",
        &rules
    )
    .is_err());
    assert!(parse_verification_result("не JSON", &rules).is_err());
    assert!(invariant_refusal(&rules, &vec![5]).unwrap().contains("Только Rust"));
}

#[test]
fn long_term_facts_round_trip_and_survive_database_reopen() {
    assert_eq!(
        validate_memory_entry("  Пользователь пишет на Rust  ").unwrap(),
        "Пользователь пишет на Rust"
    );
    assert!(check_entry_deleted(1, 1).is_ok());
    assert!(check_entry_deleted(999, 0).is_err());
}

fn update(e: &[&str], v: &[&str]) -> TaskUpdate {
    TaskUpdate {
        e: e.iter().map(|x| x.to_string()).collect(),
        v: v.iter().map(|x| x.to_string()).collect(),
        ..TaskUpdate::default()
    }
}

#[test]
fn updates_are_taken_out_of_answers() {
    let (text, found) = extract_task_update(
        "План готов.\nTASK_UPDATE:{\"e\":[\"Собрать\"],\"v\":[\"Проверить\"]}",
    );
    assert_eq!(text, "План готов.");
    assert_eq!(found.unwrap().unwrap(), update(&["Собрать"], &["Проверить"]));
    let (text, found) = extract_task_update("Обычный ответ");
    assert_eq!(text, "Обычный ответ");
    assert!(found.is_none());
    assert!(extract_task_update("Ответ\nTASK_UPDATE:{bad").1.unwrap().is_err());
    assert!(parse_task_update("{\"unknown\":1}").is_err());
    assert!(!is_bare_task_update("обычная строка"));
    assert!(TaskUpdate::default().is_empty());
    assert_eq!(
        deserialize_task_ids(&vec!["1".to_owned(), "e2".to_owned()]).is_ok(),
        parse_task_update("{\"ed\":[1,\"e2\"]}").is_ok()
    );
}

#[test]
fn updates_apply_once() {
    let planned = update(&["Собрать", "собрать ", "Запустить"], &["Проверить"]);
    let todo = TaskTodo::from_description("Описание").unwrap();
    let after = apply_task_update(&todo, TaskPhase::Planning, &planned).unwrap();
    assert_eq!(after.execution.len(), 2);
    assert_eq!(apply_task_update(&after, TaskPhase::Planning, &planned).unwrap(), after);
    let done = TaskUpdate { ed: vec![2, 1, 2], ..TaskUpdate::default() };
    let finished = apply_task_update(&after, TaskPhase::Execution, &done).unwrap();
    assert_eq!(apply_task_update(&finished, TaskPhase::Execution, &done).unwrap(), finished);
    let none = TaskUpdate::default();
    assert_eq!(apply_task_update(&finished, TaskPhase::Done, &none).unwrap(), finished);
}

#[test]
fn todo_text_round_trips() {
    let mut todo = TaskTodo::from_description("Описание, \"в кавычках\"\nи строках").unwrap();
    todo.add_execution("Собрать").unwrap();
    todo.add_validation("Проверить").unwrap();
    todo.add_fact("Факт: с двоеточием").unwrap();
    let text = encode_task_todo(&todo);
    assert_eq!(decode_task_todo(&text).unwrap(), todo);
    assert!(decode_task_todo("f[1]:").is_err());
    assert_eq!(
        decode_task_todo("не план").unwrap(),
        TaskTodo::from_description("не план").unwrap()
    );
    assert!(!todo.add_execution("  собрать ").unwrap());
    assert_eq!(todo.pending_for(TaskPhase::Execution), 1);
}

#[test]
fn completed_points_are_recorded_with_their_results() {
    let task = planned_task(TaskPhase::Execution);
    let id = task.todo.execution[0].id;
    let done = TaskUpdate {
        ed: vec![id],
        s: Some("собрано".to_owned()),
        ..TaskUpdate::default()
    };
    let change =
        prepare_task_update(&task, TaskPhase::Execution, &done, Some("Собрал проект")).unwrap();
    assert!(change.todo.execution[0].done);
    assert!(!change.todo.execution[1].done);
    assert_eq!(change.results.len(), 1);
    assert_eq!(change.results[0].content, "Собрал проект");
    assert_eq!(change.results[0].summary, "собрано");
    assert!(prepare_task_update(&task, TaskPhase::Planning, &done, None).is_err());
    let unknown = TaskUpdate { ed: vec![99], ..TaskUpdate::default() };
    assert!(apply_task_update(&task.todo, TaskPhase::Execution, &unknown).is_err());
    assert!(check_task_saved(0).is_err());
    assert!(check_task_saved(1).is_ok());
    assert!(check_task_advanced(0).is_err());
    assert!(check_task_advanced(1).is_ok());
}

#[test]
fn unfinished_phases_cannot_be_left() {
    let mut task = planned_task(TaskPhase::Execution);
    assert!(!task.ready_for_next());
    assert!(task.next_phase_if_ready().is_err());
    assert!(prepare_advance(&task, TaskPhase::Execution, 1).is_err());
    let before = task.clone();
    for item in &mut task.todo.execution {
        item.done = true;
    }
    for item in &task.todo.execution {
        task.results.push(TaskStepResult {
            phase: TaskPhase::Execution,
            item_id: item.id,
            summary: "итог".to_owned(),
            content: "ответ".to_owned(),
        });
    }
    assert!(task.ready_for_next());
    assert_eq!(task.next_phase_if_ready().unwrap(), TaskPhase::Validation);
    assert_eq!(
        prepare_advance(&task, TaskPhase::Execution, 1).unwrap().phase,
        TaskPhase::Validation
    );
    assert!(prepare_advance(&task, TaskPhase::Planning, 1).is_err());
    assert_eq!(
        task_progress(&before, &task),
        Some(TaskUpdateProgress::Completed(TaskPhase::Execution))
    );
    assert!(task_phase_completion_message(TaskPhase::Execution).is_some());
    assert!(task_phase_continue_instruction(TaskPhase::Execution).is_some());
    assert!(task_phase_start_instruction(TaskPhase::Planning).is_none());
    assert!(format_task_results(&task, true).contains("ответ"));
    assert!(format_task_todo(&task.todo).contains("Собрать"));
    assert!(task_result_context(&planned_task(TaskPhase::Planning)).is_none());
    assert!(task_step_context(&before).is_some());
    assert_eq!(task_result_summary(&TaskUpdate::default(), "Коротко"), "Коротко");
}

#[test]
fn stored_tasks_are_read_back() {
    let new = prepare_task("  Memory layers ", "Спроектировать и реализовать").unwrap();
    assert_eq!(new.title, "Memory layers");
    let row = TaskRow {
        id: 3,
        title: new.title,
        todo: new.todo,
        phase: "planning".to_owned(),
        plan_version: 1,
        approved_plan_version: None,
    };
    let loaded = load_task(row, &vec![]).unwrap();
    assert_eq!(loaded.phase, TaskPhase::Planning);
    assert_eq!(
        loaded.todo,
        TaskTodo::from_description("Спроектировать и реализовать").unwrap()
    );
    let broken = TaskRow {
        id: 3,
        title: "t".to_owned(),
        todo: encode_task_todo(&loaded.todo),
        phase: "review".to_owned(),
        plan_version: 1,
        approved_plan_version: None,
    };
    assert!(load_task(broken, &vec![]).is_err());
    let bad_result = ResultRow {
        phase: "review".to_owned(),
        item_id: 1,
        summary: String::new(),
        content: String::new(),
    };
    let row = TaskRow {
        id: 3,
        title: "t".to_owned(),
        todo: encode_task_todo(&loaded.todo),
        phase: "done".to_owned(),
        plan_version: 1,
        approved_plan_version: Some(1),
    };
    assert!(load_task(row, &vec![bad_result]).is_err());
}

#[test]
fn typed_keys_are_edited() {
    let mut typed = vec![];
    assert_eq!(press_key(&mut typed, KeyPress::Letter('k')), KeyEffect::Shown);
    assert_eq!(press_key(&mut typed, KeyPress::Letter('e')), KeyEffect::Shown);
    assert_eq!(press_key(&mut typed, KeyPress::Erase), KeyEffect::Erased);
    assert_eq!(press_key(&mut typed, KeyPress::Other), KeyEffect::Ignored);
    assert_eq!(press_key(&mut typed, KeyPress::Enter), KeyEffect::Done);
    assert_eq!(press_key(&mut typed, KeyPress::Cancel), KeyEffect::Cancelled);
    assert_eq!(accept_key(&typed).unwrap(), "k");
    assert!(accept_key(&vec![' ']).is_err());
    assert_eq!(press_key(&mut vec![], KeyPress::Erase), KeyEffect::Ignored);
    assert_eq!(
        multiline_text(&vec!["a".to_owned(), "b".to_owned()]),
        "a\nb"
    );
    assert_eq!(multiline_line("строка").as_deref(), Some("строка"));
}
