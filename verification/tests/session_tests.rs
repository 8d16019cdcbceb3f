use fox_llm::agent::{Agent, AgentSettings, Branch, BranchState};
use fox_llm::config::{
    default_claude_model, default_context_messages, default_temperature_text, migrate_legacy,
    mode_choice, mode_name, parse_provider, provider_id, validate_mode_name, CompressionStrategy,
    Config, LegacyConfig, ModeChoice, ModesConfig, Provider, ProviderName, ResponseMode,
};
use fox_llm::conversation::{
    decode_messages_toon, encode_messages_toon, parse_facts, session_title, truncate, write_facts,
    Message,
};
use fox_llm::json::{json_str, parse_json, write_json, Json};
use fox_llm::memory::{compose_profile_instructions, MemoryEntry, Profile, TaskPhase, TaskTodo};
use fox_llm::numbers::{decimal_text, parse_i64, parse_u64, parse_usize, signed_text};
use fox_llm::order::{sorted_texts, text_before, TextMap};
use fox_llm::pool::AgentPool;
use fox_llm::providers::{
    build_claude_payload, build_openai_payload, build_openai_payload_with_options, ensure_success,
    extract_claude_text, extract_claude_tool_calls, extract_openai_text, extract_openai_tool_calls,
    has_fixed_temperature, parse_model_ids, read_body, read_reply,
    supports_temperature_with_reasoning_none, temperature_limit,
};
use fox_llm::sessions::{
    branching_rows, check_context_changed, load_session, schema_changes, session_rows, SavedSession,
    SessionRow, SessionRows, SessionSnapshot, TableColumns, SCHEMA,
};
use fox_llm::task_store::TaskUpdateProgress;
use fox_llm::tasks::{ActiveMemory, Task};
use fox_llm::text::{split_lines, split_words, trimmed};
use fox_llm::tools::{RequestOptions, ToolDefinition};
use fox_llm::workspace::{branch_line, next_input, shown_branch, NextInput, Selection, Workspace};

fn json(text: &str) -> Json {
    parse_json(text).unwrap()
}

fn message(role: &str, content: &str) -> Message {
    Message { role: role.to_owned(), content: content.to_owned() }
}

fn test_agent_settings() -> AgentSettings {
    AgentSettings {
        provider: Provider::Openai,
        api_key: "test-key".to_owned(),
        model: "test-model".to_owned(),
        temperature: "0.5".to_owned(),
        instructions: Some("Отвечай кратко".to_owned()),
        compression_strategy: CompressionStrategy::Summary,
        context_messages: default_context_messages(),
    }
}

fn second() -> ProviderName {
    let title = format!("{:?}", Provider::Claude);
    ProviderName { key: title.to_lowercase(), title }
}

fn test_model() -> String {
    format!("{}-test", second().key)
}

fn facts(items: &[(&str, &str)]) -> TextMap {
    let mut map = TextMap::new();
    for (key, value) in items {
        map.insert(key.to_string(), value.to_string());
    }
    map
}

fn snapshot(messages: Vec<Message>) -> SessionSnapshot {
    SessionSnapshot {
        provider: Provider::Openai,
        model: "test-model".to_owned(),
        mode: None,
        temperature: "1.0".to_owned(),
        messages,
        summary: String::new(),
        facts: TextMap::new(),
        summarized_count: 0,
        compression_strategy: CompressionStrategy::Summary,
        context_messages: 10,
        branches: vec![],
        checkpoint: None,
        active_branch: "main".to_owned(),
        branch_pending: false,
        profile_id: None,
        task_id: None,
    }
}

fn row(id: i64, source: &SessionSnapshot, rows: &SessionRows) -> SessionRow {
    SessionRow {
        id,
        title: rows.title.clone(),
        provider: rows.provider.clone(),
        model: source.model.clone(),
        mode: source.mode.clone(),
        temperature: source.temperature.clone(),
        history_toon: rows.history_toon.clone(),
    }
}

fn reload(
    source: &SessionSnapshot,
    profile: Option<Profile>,
    task: Option<Task>,
) -> SavedSession {
    let rows = session_rows(source, &second());
    let head = row(1, source, &rows);
    load_session(head, Some(rows.context), &rows.branches, rows.checkpoint, Ok(profile), Ok(task), &second())
        .unwrap()
}

fn branching_snapshot(agent: &Agent) -> SessionSnapshot {
    let mut source = snapshot(agent.persisted_history.clone());
    source.compression_strategy = CompressionStrategy::Branching;
    source.branches = agent.branches.clone();
    source.checkpoint = agent.checkpoint.clone();
    source.active_branch = agent.active_branch.clone();
    source.branch_pending = agent.branch_pending;
    source
}

fn branch<'a>(branches: &'a [Branch], name: &str) -> &'a BranchState {
    &branches.iter().find(|b| b.name == name).unwrap().state
}

#[test]
fn sqlite_persists_all_branches_checkpoint_and_active_branch() {
    let mut agent = Agent::new(1, test_agent_settings());
    agent.restore(&vec![message("user", "общая часть")]);
    agent.set_compression(CompressionStrategy::Branching, 10);
    agent.create_checkpoint();
    agent.start_branch("вариант A").unwrap();
    agent.persisted_history.push(message("assistant", "только A"));
    agent.history = agent.persisted_history.clone();
    agent.load_checkpoint().unwrap();
    agent.start_branch("вариант B").unwrap();
    agent.switch_branch("вариант A").unwrap();

    let loaded = reload(&branching_snapshot(&agent), None, None);
    assert_eq!(loaded.active_branch, "вариант A");
    assert!(!loaded.branch_pending);
    assert_eq!(loaded.branches.len(), 3);
    assert_eq!(
        branch(&loaded.branches, "вариант A").persisted_history.last().unwrap().content,
        "только A"
    );
    assert_eq!(branch(&loaded.branches, "вариант B").persisted_history.len(), 1);
    assert_eq!(loaded.checkpoint.unwrap().persisted_history[0].content, "общая часть");

    agent.load_checkpoint().unwrap();
    let loaded = reload(&branching_snapshot(&agent), None, None);
    assert!(loaded.branch_pending);
    assert_eq!(loaded.messages, loaded.checkpoint.unwrap().persisted_history);
}

#[test]
fn an_active_name_without_a_branch_gives_way_to_main() {
    let mut agent = Agent::new(1, test_agent_settings());
    agent.set_compression(CompressionStrategy::Branching, 10);
    agent.create_checkpoint();
    agent.start_branch("вариант").unwrap();
    let mut snapshot = branching_snapshot(&agent);
    snapshot.active_branch = "пропавшая".to_owned();
    let loaded = reload(&snapshot, None, None);
    assert_eq!(loaded.active_branch, "main");
    assert_eq!(loaded.branches.len(), snapshot.branches.len());
}

#[test]
fn branches_are_stored_with_where_the_dialogue_stands() {
    let mut agent = Agent::new(1, test_agent_settings());
    agent.restore(&vec![message("user", "a"), message("assistant", "b"), message("user", "c")]);
    agent.set_compression(CompressionStrategy::Branching, 10);
    agent.create_checkpoint();
    agent.start_branch("другая").unwrap();
    agent.history.remove(0);
    let rows = branching_rows(&agent);
    assert_eq!(rows.summarized_count, 1);
    assert_eq!(rows.facts_json, "{}");
    assert!(!rows.branch_pending);
    assert_eq!(rows.branches.len(), 2);
    assert!(rows.checkpoint.is_some());
    let all = session_rows(&branching_snapshot(&agent), &second());
    assert_eq!(rows.history_toon, all.history_toon);
    assert_eq!(rows.branches, all.branches);
    assert_eq!(rows.checkpoint, all.checkpoint);

    agent.load_checkpoint().unwrap();
    assert!(branching_rows(&agent).branch_pending);
    assert_eq!(branching_rows(&agent).summarized_count, 0);
}

#[test]
fn settings_are_stored_of_one_context() {
    assert_eq!(check_context_changed(1), Ok(()));
    let refused = Err("контекст активной сессии не найден".to_owned());
    assert_eq!(check_context_changed(0), refused);
    assert_eq!(check_context_changed(2), refused);
}

#[test]
fn summary_is_saved_separately_and_old_sessions_still_load() {
    let messages = vec![message("user", "Архив"); 12];
    let mut source = snapshot(messages.clone());
    source.provider = Provider::Claude;
    source.model = "model".to_owned();
    source.summary = "Факты".to_owned();
    source.facts = facts(&[("goal", "MVP")]);
    source.summarized_count = 2;
    source.compression_strategy = CompressionStrategy::StickyFacts;
    source.context_messages = 7;
    let session = reload(&source, None, None);
    assert_eq!(session.summary, "Факты");
    assert_eq!(session.facts.get("goal").map(String::as_str), Some("MVP"));
    assert_eq!(session.summarized_count, 2);
    assert_eq!(session.compression_strategy, CompressionStrategy::StickyFacts);
    assert_eq!(session.context_messages, 7);
    assert_eq!(session.messages, messages);
    let rows = session_rows(&source, &second());
    let legacy =
        load_session(row(1, &source, &rows), None, &vec![], None, Ok(None), Ok(None), &second()).unwrap();
    assert!(legacy.summary.is_empty());
    assert_eq!(legacy.summarized_count, 0);
    assert_eq!(legacy.messages, messages);
    assert_eq!(legacy.compression_strategy, CompressionStrategy::Summary);
    assert_eq!(legacy.context_messages, default_context_messages());
    source.summary = "Новые факты".to_owned();
    source.facts = TextMap::new();
    source.summarized_count = 4;
    source.compression_strategy = CompressionStrategy::SlidingWindow;
    source.context_messages = 5;
    let updated = reload(&source, None, None);
    assert_eq!(updated.summary, "Новые факты");
    assert_eq!(updated.compression_strategy, CompressionStrategy::SlidingWindow);
    assert_eq!(updated.context_messages, 5);
}

#[test]
fn toon_history_round_trips_multiline_messages() {
    let messages = vec![
        message("user", "Привет, лиса!\nКак дела?"),
        message("assistant", "Хорошо: \"отлично\""),
    ];
    let encoded = encode_messages_toon(&messages);
    assert!(encoded.starts_with("messages[2]{role,content}:"));
    assert_eq!(decode_messages_toon(&encoded).unwrap(), messages);
}

#[test]
fn sqlite_store_saves_and_loads_session() {
    let messages = vec![message("user", "Обсудим сохранение контекста")];
    let mut source = snapshot(messages.clone());
    source.mode = Some("Кратко".to_owned());
    source.temperature = "0.5".to_owned();
    let loaded = reload(&source, None, None);
    assert_eq!(loaded.messages, messages);
    assert_eq!(loaded.model, "test-model");
    assert_eq!(loaded.mode.as_deref(), Some("Кратко"));
    assert_eq!(loaded.title, "Обсудим сохранение контекста");
    source.compression_strategy = CompressionStrategy::Branching;
    source.context_messages = 42;
    let loaded = reload(&source, None, None);
    assert_eq!(loaded.compression_strategy, CompressionStrategy::Branching);
    assert_eq!(loaded.context_messages, 42);
}

fn task(id: i64, title: &str, description: &str, phase: TaskPhase) -> Task {
    Task {
        id,
        title: title.to_owned(),
        todo: TaskTodo::from_description(description).unwrap(),
        phase,
        plan_version: 1,
        approved_plan_version: None,
        results: vec![],
    }
}

fn profile(id: i64, name: &str, instructions: &str) -> Profile {
    Profile { id, name: name.to_owned(), instructions: instructions.to_owned() }
}

#[test]
fn profiles_tasks_and_session_links_survive_database_reopen() {
    let mut source = snapshot(vec![message("user", "Продолжим задачу")]);
    source.summary = "summary".to_owned();
    source.facts = facts(&[("fact", "value")]);
    source.compression_strategy = CompressionStrategy::Branching;
    source.profile_id = Some(1);
    source.task_id = Some(1);
    let linked_profile = profile(1, "Rust", "Отвечай как Rust-разработчик");
    let linked_task = task(1, "Memory layers", "Реализовать и проверить", TaskPhase::Done);
    let loaded = reload(&source, Some(linked_profile.clone()), Some(linked_task.clone()));
    assert_eq!(loaded.profile, Some(linked_profile));
    assert_eq!(loaded.task, Some(linked_task));
    assert_eq!(loaded.summary, "summary");
    assert_eq!(loaded.facts.get("fact").map(String::as_str), Some("value"));
    assert_eq!(loaded.messages, source.messages);
    let rows = session_rows(&source, &second());
    let head = row(1, &source, &rows);
    assert!(load_session(head, None, &vec![], None, Err("нет профиля".to_owned()), Ok(None), &second()).is_err());
}

#[test]
fn legacy_session_schema_migrates_without_memory_links() {
    let connection = rusqlite::Connection::open_in_memory().unwrap();
    connection
        .execute_batch(
            "CREATE TABLE sessions (
                id INTEGER PRIMARY KEY AUTOINCREMENT,
                title TEXT NOT NULL,
                provider TEXT NOT NULL,
                model TEXT NOT NULL,
                mode TEXT,
                temperature REAL NOT NULL,
                history_toon TEXT NOT NULL,
                created_at TEXT NOT NULL DEFAULT CURRENT_TIMESTAMP,
                updated_at TEXT NOT NULL DEFAULT CURRENT_TIMESTAMP
            );",
        )
        .unwrap();
    connection.execute_batch(SCHEMA).unwrap();
    let columns = |table: &str| {
        let mut statement = connection.prepare(&format!("PRAGMA table_info({table})")).unwrap();
        let names = statement.query_map([], |r| r.get::<_, String>(1)).unwrap();
        names.map(|name| name.unwrap()).collect::<Vec<_>>()
    };
    let read = || TableColumns {
        tasks: columns("tasks"),
        invariants: columns("invariants"),
        sessions: columns("sessions"),
        session_context: columns("session_context"),
    };
    let changes = schema_changes(&read());
    assert!(!changes.is_empty());
    for change in changes {
        connection.execute(&change, []).unwrap();
    }
    assert!(schema_changes(&read()).is_empty());
    assert!(columns("sessions").contains(&"profile_id".to_owned()));
    let head = SessionRow {
        id: 1,
        title: "legacy".to_owned(),
        provider: "openai".to_owned(),
        model: "old-model".to_owned(),
        mode: None,
        temperature: "1.0".to_owned(),
        history_toon: "messages[0]{role,content}:".to_owned(),
    };
    let loaded = load_session(head, None, &vec![], None, Ok(None), Ok(None), &second()).unwrap();
    assert!(loaded.profile.is_none());
    assert!(loaded.task.is_none());
    assert!(loaded.messages.is_empty());
}

#[test]
fn broken_sessions_are_refused() {
    let source = snapshot(vec![message("user", "x")]);
    let rows = session_rows(&source, &second());
    let mut head = row(1, &source, &rows);
    head.provider = "unknown".to_owned();
    assert!(load_session(head, None, &vec![], None, Ok(None), Ok(None), &second()).is_err());
    let mut head = row(1, &source, &rows);
    head.history_toon = "messages[2]{role,content}:".to_owned();
    assert!(load_session(head, None, &vec![], None, Ok(None), Ok(None), &second()).is_err());
    assert!(decode_messages_toon("нет заголовка").is_err());
}

#[test]
fn new_session_clears_active_memory_but_not_saved_records() {
    let fact = MemoryEntry { id: 1, content: "Факт переживает /new".to_owned() };
    let mut pool = AgentPool::new(1, &test_agent_settings());
    pool.set_memory(&ActiveMemory {
        profile: Some(profile(1, "Профиль", "Инструкции")),
        task: Some(task(1, "Задача", "TODO", TaskPhase::Planning)),
        long_term_facts: vec![fact.clone()],
    });
    pool.reset();

    assert_eq!(
        pool.memory(),
        ActiveMemory { long_term_facts: vec![fact], ..ActiveMemory::default() }
    );
}

#[test]
fn remember_and_forget_only_change_long_term_facts() {
    let mut pool = AgentPool::new(1, &test_agent_settings());
    let kept_profile = profile(1, "Профиль", "Старые инструкции");
    let kept_task = task(1, "Задача", "Не менять TODO", TaskPhase::Planning);
    pool.restore(&vec![message("user", "История")]);
    pool.set_memory(&ActiveMemory {
        profile: Some(kept_profile.clone()),
        task: Some(kept_task.clone()),
        ..ActiveMemory::default()
    });
    pool.agents[0].summary = "Сводка".to_owned();
    pool.agents[0].facts.insert("session".to_owned(), "fact".to_owned());
    let history = pool.agents[0].persisted_history.clone();
    let summary = pool.agents[0].summary.clone();
    let session_facts = pool.agents[0].facts.clone();

    let entry = MemoryEntry { id: 1, content: "Новый факт".to_owned() };
    let mut memory = pool.memory();
    memory.long_term_facts = vec![entry.clone()];
    pool.set_memory(&memory);

    assert_eq!(pool.agents[0].persisted_history, history);
    assert_eq!(pool.agents[0].summary, summary);
    assert_eq!(pool.agents[0].facts, session_facts);
    assert_eq!(pool.memory().profile, Some(kept_profile));
    assert_eq!(pool.memory().task, Some(kept_task));
    assert_eq!(pool.memory().long_term_facts, vec![entry]);
}

#[test]
fn config_round_trip() {
    let mut config = Config { last_provider: Some(Provider::Claude), ..Config::fresh(second()) };
    config.set_key(Provider::Claude, "secret".to_owned());
    config.set_model(Provider::Claude, test_model()).unwrap();
    config.last_mode = Some("Кратко".to_owned());
    config.set_temperature(Provider::Claude, "0.7".to_owned()).unwrap();
    config.check().unwrap();
    assert_eq!(config.last_provider, Some(Provider::Claude));
    assert_eq!(config.key(Provider::Claude), Some("secret"));
    assert_eq!(config.model(Provider::Claude).unwrap(), test_model());
    assert_eq!(config.providers.len(), 2);
    assert_eq!(config.last_mode.as_deref(), Some("Кратко"));
    assert_eq!(config.temperature(Provider::Claude).unwrap().parse::<f64>().unwrap(), 0.7);
    assert_eq!(config.temperature(Provider::Openai).unwrap().parse::<f64>().unwrap(), 1.0);
}

#[test]
fn migrates_legacy_config() {
    let loaded = migrate_legacy(LegacyConfig {
        last_provider: Some(Provider::Openai),
        openai_api_key: Some("old-secret".to_owned()),
        claude_api_key: None,
        openai_model: "gpt-test".to_owned(),
        claude_model: test_model(),
    }, second());
    assert_eq!(loaded.key(Provider::Openai), Some("old-secret"));
    assert_eq!(loaded.model(Provider::Openai).unwrap(), "gpt-test");
    assert_eq!(
        loaded.temperature(Provider::Openai).unwrap(),
        default_temperature_text()
    );
    assert_eq!(loaded.providers.len(), 2);
}

#[test]
fn loads_current_config_without_temperature() {
    let config = Config::fresh(second());
    assert_eq!(
        config.temperature(Provider::Openai).unwrap(),
        default_temperature_text()
    );
    assert_eq!(temperature_limit(Provider::Openai, "gpt-4o"), 2);
    assert_eq!(temperature_limit(Provider::Openai, "gpt-5-mini"), 1);
    assert!(supports_temperature_with_reasoning_none("gpt-5.6-luna"));
    assert!(!supports_temperature_with_reasoning_none("gpt-5-mini"));
    assert_eq!(temperature_limit(Provider::Claude, &default_claude_model(&second())), 1);
    assert!(has_fixed_temperature(Provider::Openai, "gpt-5-mini"));
    assert!(!has_fixed_temperature(Provider::Openai, "gpt-4.1"));
}

#[test]
fn modes_are_kept_by_name() {
    let mut modes = ModesConfig::default();
    let mode = |name: &str, text: &str| ResponseMode {
        name: name.to_owned(),
        instructions: text.to_owned(),
    };
    assert_eq!(modes.put(mode("Кратко", "Одно предложение")), 0);
    assert_eq!(modes.put(mode("Подробно", "Всё")), 1);
    assert_eq!(modes.put(mode("Кратко", "Два слова")), 0);
    assert_eq!(modes.modes.len(), 2);
    assert_eq!(modes.modes[0].instructions, "Два слова");
    assert_eq!(modes.position("Подробно"), Some(1));
    assert_eq!(mode_name(&modes, Some(1)), "Подробно");
    assert_eq!(mode_choice(0, 2), ModeChoice::Unrestricted);
    assert_eq!(mode_choice(2, 2), ModeChoice::Saved(1));
    assert_eq!(mode_choice(3, 2), ModeChoice::Create);
    assert!(validate_mode_name("  ").is_err());
    for provider in Provider::all() {
        assert_eq!(parse_provider(provider_id(provider, &second()), &second()).unwrap(), provider);
    }
    assert!(parse_provider("other", &second()).is_err());
    assert_eq!(provider_id(Provider::Openai, &second()), "openai");
    assert_eq!(provider_id(Provider::Claude, &second()).len(), 6);
    assert_eq!(Provider::Openai.title(&second()), "OpenAI");
    assert_eq!(Provider::Claude.title(&second()), second().title);
    let fresh = Config::fresh(second());
    assert_eq!(
        fresh.model(Provider::Claude).unwrap(),
        format!("{}-sonnet-5", second().key)
    );
}

#[test]
fn parses_openai_response() {
    let body =
        json("{\"output\": [{\"content\": [{\"type\": \"output_text\", \"text\": \"Привет!\"}]}]}");
    assert_eq!(extract_openai_text(&body).unwrap(), "Привет!");
}

#[test]
fn parses_claude_response() {
    let body = json("{\"content\": [{\"type\": \"text\", \"text\": \"Привет!\"}]}");
    assert_eq!(extract_claude_text(&body, &second().title).unwrap(), "Привет!");
}

#[test]
fn parses_sorts_and_deduplicates_model_ids() {
    let body = json(
        "{\"data\": [{\"id\": \"model-z\"}, {\"id\": \"model-a\", \"display_name\": \"Model A\"}, {\"id\": \"model-z\"}, {\"display_name\": \"No id\"}, {\"id\": \"\"}]}",
    );
    assert_eq!(
        parse_model_ids(&body, Provider::Claude).unwrap(),
        vec!["model-a".to_owned(), "model-z".to_owned()]
    );
    assert!(parse_model_ids(&json("{\"models\": []}"), Provider::Openai).is_err());
}

#[test]
fn filters_out_openai_models_for_other_apis() {
    let body = json(
        "{\"data\": [{\"id\": \"gpt-5.6-luna\"}, {\"id\": \"o4-mini\"}, {\"id\": \"ft:gpt-4.1:team:custom:id\"}, {\"id\": \"gpt-3.5-turbo-instruct\"}, {\"id\": \"gpt-3.5-turbo-instruct-0914\"}, {\"id\": \"gpt-realtime\"}, {\"id\": \"gpt-4o-mini-transcribe\"}, {\"id\": \"gpt-image-1\"}, {\"id\": \"o3-deep-research\"}, {\"id\": \"text-embedding-3-small\"}, {\"id\": \"omni-moderation-latest\"}, {\"id\": \"davinci-002\"}]}",
    );
    assert_eq!(
        parse_model_ids(&body, Provider::Openai).unwrap(),
        vec![
            "ft:gpt-4.1:team:custom:id".to_owned(),
            "gpt-5.6-luna".to_owned(),
            "o4-mini".to_owned()
        ]
    );
}

fn written(value: &Json) -> serde_json::Value {
    serde_json::from_str(&write_json(value)).unwrap()
}

#[test]
fn provider_payloads_preserve_system_instructions() {
    let history = vec![message("user", "Контрольный запрос")];
    let mut settings = test_agent_settings();
    settings.model = "gpt-5.6-luna".to_owned();
    let openai = written(&build_openai_payload(&settings, &history));
    assert_eq!(openai["model"], "gpt-5.6-luna");
    assert_eq!(openai["temperature"], 0.5);
    assert_eq!(openai["input"][0]["content"], "Контрольный запрос");
    assert_eq!(openai["instructions"], "Отвечай кратко");
    assert_eq!(openai["reasoning"]["effort"], "none");

    settings.provider = Provider::Claude;
    settings.model = test_model();
    let claude = written(&build_claude_payload(&settings, &history));
    assert_eq!(claude["model"], test_model());
    assert_eq!(claude["temperature"], 0.5);
    assert_eq!(claude["messages"][0]["content"], "Контрольный запрос");
    assert_eq!(claude["system"], "Отвечай кратко");
    assert_eq!(claude["max_tokens"], 4096);

    settings.instructions = None;
    assert!(build_openai_payload(&settings, &history).get("instructions").is_none());
    assert!(build_claude_payload(&settings, &history).get("system").is_none());
}

#[test]
fn contrasting_profiles_change_every_provider_payload() {
    let concise =
        compose_profile_instructions("кратко", "не более трёх пунктов", "без эмодзи").unwrap();
    let mentor = compose_profile_instructions(
        "обучающе",
        "пошагово с примером",
        "объяснять новые термины",
    )
    .unwrap();
    let history = vec![message("user", "Объясни Arc<Mutex<T>>")];
    let mut payloads = Vec::new();
    for (id, name, instructions) in [(1, "Кратко", concise), (2, "Наставник", mentor)] {
        let mut agent = Agent::new(1, test_agent_settings());
        agent.set_memory(ActiveMemory {
            profile: Some(Profile { id, name: name.to_owned(), instructions }),
            long_term_facts: vec![MemoryEntry {
                id: 5,
                content: "Пользователь пишет на Rust".to_owned(),
            }],
            ..ActiveMemory::default()
        });
        for _ in 0..2 {
            let request_settings = agent.request_settings();
            let openai = written(&build_openai_payload(&request_settings, &history));
            assert!(openai["instructions"]
                .as_str()
                .unwrap()
                .contains("Инструкции профиля персонализации"));
            assert!(openai["instructions"].as_str().unwrap().contains("Долговременные факты"));
            let mut claude_settings = request_settings.clone();
            claude_settings.provider = Provider::Claude;
            let claude = written(&build_claude_payload(&claude_settings, &history));
            assert_eq!(openai["instructions"], claude["system"]);
            payloads.push(openai["instructions"].clone());
        }
    }
    assert_eq!(payloads[0], payloads[1]);
    assert_eq!(payloads[2], payloads[3]);
    assert_ne!(payloads[0], payloads[2]);
}

#[test]
fn tool_calls_are_read_from_both_providers() {
    let openai = json(
        "{\"output\": [{\"type\": \"function_call\", \"call_id\": \"c1\", \"name\": \"echo\", \"arguments\": \"{\\\"a\\\":1}\"}], \"usage\": {\"input_tokens\": 5, \"output_tokens\": 2}}",
    );
    let calls = extract_openai_tool_calls(&openai).unwrap();
    assert_eq!(calls[0].id, "c1");
    assert_eq!(calls[0].arguments, json("{\"a\":1}"));
    let reply = read_reply(Provider::Openai, &openai, &second()).unwrap();
    assert_eq!((reply.input_tokens, reply.output_tokens), (5, 2));
    let claude = json(
        "{\"content\": [{\"type\": \"tool_use\", \"id\": \"c2\", \"name\": \"echo\", \"input\": {\"a\": 1}}]}",
    );
    assert_eq!(extract_claude_tool_calls(&claude, &second().title).unwrap()[0].name, "echo");
    let broken = json("{\"output\": [{\"type\": \"function_call\", \"call_id\": \"c\", \"name\": \"e\", \"arguments\": \"{\"}]}");
    assert!(extract_openai_tool_calls(&broken).is_err());
    assert!(extract_openai_text(&json("{}")).is_err());
    assert_eq!(
        extract_claude_text(&json("{}"), &second().title).unwrap_err(),
        format!("{} не вернул текст", second().title)
    );
    assert!(ensure_success(true, "200 OK", &json("{}"), "OpenAI").is_ok());
    let error = ensure_success(
        false,
        "400 Bad Request",
        &json("{\"error\": {\"message\": \"нет\"}}"),
        "OpenAI",
    )
    .unwrap_err();
    assert!(error.contains("нет"));
    assert!(read_body("{").is_err());
    assert_eq!(read_body("{}").unwrap(), json("{}"));
    let options = RequestOptions {
        tools: vec![ToolDefinition {
            name: "echo".to_owned(),
            description: None,
            input_schema: json("{\"type\": \"object\"}"),
            read_only: true,
            destructive: false,
        }],
        tool_calls: vec![],
        tool_results: vec![],
    };
    let payload = written(&build_openai_payload_with_options(
        &test_agent_settings(),
        &vec![message("user", "x")],
        &options,
    ));
    assert_eq!(payload["tools"][0]["name"], "echo");
}

fn workspace() -> Workspace {
    let mut config = Config::fresh(second());
    config.set_key(Provider::Openai, "key".to_owned());
    Workspace::start(config, ModesConfig::default(), Provider::Openai, &vec![], vec![]).unwrap()
}

#[test]
fn selecting_records_starts_a_new_session() {
    let mut space = workspace();
    space.session_id = Some(3);
    space.agents.restore(&vec![message("user", "x")]);
    let chosen = profile(1, "Профиль", "Инструкции");
    assert_eq!(space.select_profile(Some(chosen.clone())), Selection::NewSession);
    assert_eq!(space.session_id, None);
    assert!(space.agents.persisted_history().is_empty());
    assert_eq!(space.agents.memory().profile, Some(chosen.clone()));
    assert_eq!(space.select_profile(Some(chosen)), Selection::Kept);
    assert_eq!(
        space.select_task(Some(task(2, "Задача", "TODO", TaskPhase::Planning))),
        Selection::Changed
    );
    space.new_session();
    assert!(space.agents.memory().profile.is_none());
}

#[test]
fn a_workspace_needs_a_key() {
    let config = Config::fresh(second());
    assert!(Workspace::start(config, ModesConfig::default(), Provider::Openai, &vec![], vec![]).is_err());
    assert!(workspace().change_provider(Provider::Claude).is_err());
    let mut space = workspace();
    space.change_model("gpt-4.1".to_owned(), "0.3".to_owned()).unwrap();
    assert_eq!(space.settings().unwrap().model, "gpt-4.1");
    assert_eq!(space.settings().unwrap().temperature, "0.3");
    space.change_temperature("0.9".to_owned()).unwrap();
    assert_eq!(space.agents.agents[0].settings.temperature, "0.9");
}

#[test]
fn saved_sessions_open_as_they_were() {
    let mut space = workspace();
    space.agents.restore(&vec![message("user", "Вопрос"), message("assistant", "Ответ")]);
    let saved = reload(&space.snapshot().unwrap(), None, None);
    let mut other = workspace();
    other.open_session(&saved, vec![]).unwrap();
    assert_eq!(other.session_id, Some(1));
    assert_eq!(other.agents.persisted_history(), space.agents.persisted_history());
    assert!(other.session_deleted(1));
    assert_eq!(other.session_id, None);
    assert_eq!(shown_branch(&other.agents.agents[0]), "main");
    assert_ne!(branch_line("main", "main"), branch_line("main", "other"));
}

#[test]
fn progress_decides_the_next_input() {
    assert_eq!(next_input(None), NextInput::Wait);
    assert!(matches!(
        next_input(Some(TaskUpdateProgress::Continue(TaskPhase::Execution))),
        NextInput::Send(_)
    ));
    assert!(matches!(
        next_input(Some(TaskUpdateProgress::Completed(TaskPhase::Execution))),
        NextInput::Completed(_)
    ));
}

#[test]
fn facts_are_sorted_and_round_trip() {
    let map = facts(&[("b", "2"), ("a", "1"), ("b", "3")]);
    assert_eq!(map.len(), 2);
    assert_eq!(map.key_at(0), "a");
    assert_eq!(map.get("b").map(String::as_str), Some("3"));
    let text = write_facts(&map);
    assert_eq!(parse_facts(&text).unwrap(), map);
    assert!(parse_facts("[]").is_err());
    assert!(parse_facts("{\"a\": 1}").is_err());
    assert!(text_before("a", "b"));
    assert!(!text_before("b", "a"));
    assert_eq!(
        sorted_texts(&vec!["b".to_owned(), "a".to_owned(), "b".to_owned()])[0],
        "a"
    );
}

#[test]
fn json_is_read_and_written() {
    let value = json("{\"b\": [1, -2.5, true, null], \"a\": \"\\u0441\\n\"}");
    assert_eq!(write_json(&value), "{\"a\":\"с\\n\",\"b\":[1,-2.5,true,null]}");
    assert_eq!(value.get("a"), Some(&json_str("с\n")));
    assert!(parse_json("{").is_err());
    assert!(parse_json("1 2").is_err());
    assert_eq!(json("18446744073709551615").as_u64(), Some(u64::MAX));
    assert_eq!(json("-3").as_i64(), Some(-3));
    assert_eq!(json("1.5").as_u64(), None);
    let deep = |n: usize| format!("{}{}", "[".repeat(n), "]".repeat(n));
    assert!(parse_json(&deep(100)).is_ok());
    assert!(parse_json(&deep(200)).is_err());
}

#[test]
fn texts_and_numbers_are_handled() {
    assert_eq!(trimmed("\u{a0} привет \n"), "привет");
    assert_eq!(split_words(" a  b\tc "), vec!["a", "b", "c"]);
    assert_eq!(split_lines("a\r\nb\n"), vec!["a", "b"]);
    assert_eq!(truncate("лисица", 3), "лис…");
    assert_eq!(truncate("лис", 3), "лис");
    assert_eq!(session_title("  Первая строка\nвторая "), session_title("Первая строка вторая"));
    assert_eq!(decimal_text(u64::MAX), "18446744073709551615");
    assert_eq!(signed_text(i64::MIN), "-9223372036854775808");
    assert_eq!(parse_u64("+7"), Some(7));
    assert_eq!(parse_u64("-7"), None);
    assert_eq!(parse_u64("18446744073709551616"), None);
    assert_eq!(parse_i64("-9223372036854775808"), Some(i64::MIN));
    assert_eq!(parse_usize(""), None);
}
