use fox_llm::agent::AgentSettings;
use fox_llm::calendar::{
    choose_calendar, find_reference, new_entries, parse_calendar_collections, parse_env_value,
    property_body, read_env_file, resolve_property, select_calendar, CalendarCollection,
    CalendarSettings, EnvEntry, DEFAULT_CALDAV_ENDPOINT,
};
use fox_llm::config::{CompressionStrategy, Provider, ProviderName};
use fox_llm::digest::{
    delivered_digest, digest_interval, digest_message, digest_settings, digest_text, failed_digest,
    unsent_digest, write_events, DigestTargetDay, DIGEST_INSTRUCTIONS,
};
use fox_llm::events::{
    build_icalendar, created_event, escape_icalendar_text, event_overlaps, events_body,
    parse_digest_event, parse_digest_events, parse_ical_time, parse_timestamp, read_events,
    unfold_icalendar, validate_event, CalendarEventRequest,
};
use fox_llm::json::{parse_json, write_json, Json};
use fox_llm::providers::ModelReply;
use fox_llm::registry::McpServerKind;
use fox_llm::services::{
    check_telegram_text, classify_delivery, config_for_server, delivery_result, generated_text,
    isolated_ai_settings, lost_delivery, parse_generate_request, parse_list_request,
    parse_send_request, prepare_ai_messages, resolve_calendar_interval, safe_ai_error, safe_error,
    sanitize_error, service_provider, ConfigSource, GenerateTextRequest, ListEventsRequest,
    TelegramChat, TelegramOutcome, AI_SYSTEM_INSTRUCTIONS,
};
use fox_llm::time::parse_moment;
use fox_llm::xml::{has_empty_xml_tag, strip_xml_text, xml_blocks, xml_texts};

fn json(text: &str) -> Json {
    parse_json(text).unwrap()
}

fn event_request(start_at: &str, end_at: &str) -> CalendarEventRequest {
    CalendarEventRequest {
        title: "Встреча".to_owned(),
        start_at: start_at.to_owned(),
        end_at: end_at.to_owned(),
        description: None,
        location: None,
    }
}

fn list_request(
    from: Option<&str>,
    to: Option<&str>,
    relative_to: Option<&str>,
    timezone: &str,
) -> ListEventsRequest {
    ListEventsRequest {
        from: from.map(str::to_owned),
        to: to.map(str::to_owned),
        relative_to: relative_to.map(str::to_owned),
        target_day: relative_to.map(|_| "tomorrow".to_owned()),
        timezone: timezone.to_owned(),
    }
}

#[test]
fn parses_multiple_events_from_one_calendar_data_block() {
    let ics = "BEGIN:VCALENDAR\nBEGIN:VEVENT\nDTSTART:20260925T090000Z\nDTEND:20260925T100000Z\nSUMMARY:Первое\nEND:VEVENT\nBEGIN:VEVENT\nDTSTART:20260925T110000Z\nDTEND:20260925T120000Z\nSUMMARY:Второе\nEND:VEVENT\nEND:VCALENDAR";
    let events = parse_digest_events(ics);
    assert_eq!(events.len(), 2);
    assert_eq!(events[0].title, "Первое");
    assert_eq!(events[1].title, "Второе");
}

#[test]
fn treats_floating_ical_times_as_moscow_local_time() {
    assert_eq!(
        parse_ical_time("20260925T080000", false).unwrap(),
        "2026-09-25T08:00:00+03:00"
    );
    assert_eq!(
        parse_ical_time("20260925T050000Z", false).unwrap(),
        "2026-09-25T05:00:00+00:00"
    );
}

#[test]
fn validates_calendar_event_times_and_ical_escaping() {
    let request = CalendarEventRequest {
        title: "Встреча, важная".to_owned(),
        start_at: "2026-09-23T15:00:00+03:00".to_owned(),
        end_at: "2026-09-23T16:00:00+03:00".to_owned(),
        description: Some("Строка; с\nпереносом".to_owned()),
        location: None,
    };
    let (start, end) = validate_event(&request).unwrap();
    let ics = build_icalendar("event-1", &request, &start, &end, "20260923T000000Z");
    assert!(ics.contains("SUMMARY:Встреча\\, важная"));
    assert!(ics.contains("DESCRIPTION:Строка\\; с\\nпереносом"));
    assert!(ics.contains("\r\nEND:VEVENT\r\n"));
    let created = created_event("event-1", &request, &start, &end, "Main");
    assert_eq!(created.event_id, "event-1");
    assert_eq!(created.calendar, "Main");
    assert_eq!(created.start_at, "2026-09-23T15:00:00+03:00");
}

#[test]
fn parses_dotenv_values_without_exposing_secrets() {
    assert_eq!(parse_env_value("\"secret value\""), "secret value");
    assert_eq!(parse_env_value("plain # comment"), "plain");
    assert_eq!(parse_env_value("'quoted'"), "quoted");
}

#[test]
fn rejects_missing_offset_and_reversed_range_before_network() {
    let missing_offset = event_request("2026-09-23T15:00:00", "2026-09-23T16:00:00+03:00");
    assert!(validate_event(&missing_offset).is_err());
    let reversed = event_request("2026-09-23T16:00:00+03:00", "2026-09-23T15:00:00+03:00");
    assert!(validate_event(&reversed).is_err());
}

#[test]
fn parses_namespaced_calendar_collections() {
    let home = "https://caldav.test/calendars/user/";
    let xml = r#"<D:multistatus xmlns:D="DAV:" xmlns:C="urn:ietf:params:xml:ns:caldav"><D:response><D:href>/calendars/user/main/</D:href><D:propstat><D:prop><D:displayname>Main</D:displayname><D:resourcetype><D:collection/><C:calendar/></D:resourcetype></D:prop></D:propstat></D:response></D:multistatus>"#;
    let collections = parse_calendar_collections(home, xml).unwrap();
    assert_eq!(collections[0].display_name, "Main");
    assert_eq!(collections[0].href, "https://caldav.test/calendars/user/main/");
    assert_eq!(select_calendar(home, xml, None).unwrap().display_name, "Main");
    assert!(select_calendar(home, xml, Some("Work")).is_err());
    let calendar =
        CalendarCollection { href: "https://caldav.test/home/main/".to_owned(), display_name: "Main".to_owned() };
    assert_eq!(calendar.event_address("e-1").unwrap(), "https://caldav.test/home/main/e-1.ics");
}

#[test]
fn property_discovery_uses_nested_href_not_response_href() {
    let xml = r#"<D:multistatus xmlns:D="DAV:"><D:response><D:href>/</D:href><D:propstat><D:prop><D:current-user-principal><D:href>/principals/users/test/</D:href></D:current-user-principal></D:prop></D:propstat></D:response></D:multistatus>"#;
    assert_eq!(
        xml_texts(xml, "href").into_iter().last().as_deref(),
        Some("/principals/users/test/")
    );
    assert_eq!(
        resolve_property("https://caldav.test/", xml, "current-user-principal").unwrap(),
        "https://caldav.test/principals/users/test/"
    );
    assert!(find_reference("<a/>", "current-user-principal").is_err());
    assert!(property_body("current-user-principal").contains("current-user-principal"));
}

fn collection(href: &str, display_name: &str) -> CalendarCollection {
    CalendarCollection { href: href.to_owned(), display_name: display_name.to_owned() }
}

#[test]
fn calendar_selection_never_guesses_between_multiple_collections() {
    let collections = vec![
        collection("https://caldav.test/main/", "Main"),
        collection("https://caldav.test/work/", "Work"),
    ];
    assert!(choose_calendar(&collections, None).is_err());
    assert_eq!(choose_calendar(&collections, Some("Work")).unwrap().display_name, "Work");
    assert!(choose_calendar(&collections, Some("Missing")).is_err());
    assert!(choose_calendar(&vec![], None).is_err());
}

#[test]
fn environment_files_are_read_line_by_line() {
    let (entries, error) = read_env_file("# c\n\nYANDEX_CALDAV_USERNAME=1\nTELEGRAM_CHAT_ID = 'two'\n", ".env");
    assert!(error.is_none());
    assert_eq!(
        entries,
        vec![
            EnvEntry { key: "YANDEX_CALDAV_USERNAME".to_owned(), value: "1".to_owned() },
            EnvEntry { key: "TELEGRAM_CHAT_ID".to_owned(), value: "two".to_owned() },
        ]
    );
    let fresh = new_entries(&entries, &vec!["YANDEX_CALDAV_USERNAME".to_owned()]);
    assert_eq!(fresh.len(), 1);
    assert_eq!(fresh[0].key, "TELEGRAM_CHAT_ID");
    let (kept, error) = read_env_file("TELEGRAM_CHAT_ID=1\nPATH=/\n", ".env");
    assert_eq!(kept.len(), 1);
    assert!(error.unwrap().contains(".env:2"));
    assert!(read_env_file("нет равенства", ".env").1.is_some());
    let settings = CalendarSettings::from_variables(
        Some("user".to_owned()),
        Some("pass".to_owned()),
        None,
        None,
    )
    .unwrap();
    assert_eq!(settings.endpoint, format!("{DEFAULT_CALDAV_ENDPOINT}/"));
    assert!(CalendarSettings::from_variables(None, Some("p".to_owned()), None, None).is_err());
    assert!(CalendarSettings::from_variables(Some("u".to_owned()), None, None, None).is_err());
}

#[test]
fn markup_is_searched_by_local_name() {
    let xml = "<x:a>1 &amp; 2</x:a><a>&quot;b&quot;</a><C:calendar/>";
    assert_eq!(xml_texts(xml, "a"), vec!["1 & 2", "\"b\""]);
    assert_eq!(xml_blocks(xml, "missing").len(), 0);
    assert!(has_empty_xml_tag(xml, "calendar"));
    assert!(!has_empty_xml_tag(xml, "a"));
    assert_eq!(strip_xml_text(" <b>x</b> "), "x");
}

#[test]
fn events_are_read_filtered_and_ordered() {
    let from = parse_moment("2026-09-25T00:00:00+03:00").unwrap();
    let to = parse_moment("2026-09-26T00:00:00+03:00").unwrap();
    let event = |start: &str, end: &str, title: &str| {
        format!("BEGIN:VEVENT\nDTSTART:{start}\nDTEND:{end}\nSUMMARY:{title}\nEND:VEVENT\n")
    };
    let late = event("20260925T150000Z", "20260925T160000Z", "Late");
    let early = event("20260925T050000Z", "20260925T060000Z", "Early");
    let other = event("20260927T050000Z", "20260927T060000Z", "Other");
    let xml = format!(
        "<c:calendar-data>{late}</c:calendar-data><c:calendar-data>{early}{other}</c:calendar-data>"
    );
    let events = read_events(&xml, &from, &to);
    assert_eq!(
        events.iter().map(|e| e.title.as_str()).collect::<Vec<_>>(),
        vec!["Early", "Late"]
    );
    let day = parse_digest_event("DTSTART;VALUE=DATE;X=1:20260925\nDTEND;VALUE=DATE:20260926\nSUMMARY:День").unwrap();
    assert!(day.all_day);
    assert!(event_overlaps(&day, &from, &to));
    assert!(parse_digest_event("SUMMARY:Без начала").is_err());
    let body = events_body(&from, &to).unwrap();
    assert!(body.contains("20260924T210000Z"));
    assert!(body.contains("20260925T210000Z"));
    assert_eq!(unfold_icalendar("SUMMARY:Длинная\n  строка").len(), 1);
    assert_eq!(escape_icalendar_text("a\\b,c;d\ne"), "a\\\\b\\,c\\;d\\ne");
    assert!(parse_timestamp("вчера", "from").is_err());
}

#[test]
fn times_may_have_any_explicit_offset() {
    let moment = parse_timestamp("2026-09-23T15:00:00-05:00", "начала").unwrap();
    assert_eq!(moment.offset, -18_000);
    assert_eq!(moment.utc_text, "2026-09-23T20:00:00+00:00");
    assert_eq!(parse_timestamp("2026-09-23T15:00:00z", "начала").unwrap().offset, 0);
    assert_eq!(parse_timestamp("2026-09-23T15:00:00+03:00", "начала").unwrap().offset, 10_800);
    assert_eq!(
        parse_timestamp("2026-09-23T15:00:00", "начала").unwrap_err(),
        "время начала должно быть RFC 3339 со смещением"
    );
    let request = CalendarEventRequest {
        title: "Встреча".to_owned(),
        start_at: "2026-09-23T15:00:00-05:00".to_owned(),
        end_at: "2026-09-23T16:00:00-05:00".to_owned(),
        description: None,
        location: None,
    };
    let (start, end) = validate_event(&request).unwrap();
    assert_eq!(end.seconds - start.seconds, 3_600);
}

#[test]
fn tomorrow_interval_uses_moscow_calendar_boundaries() {
    let request = list_request(None, None, Some("2026-09-25T22:30:00Z"), "Europe/Moscow");
    let (from, to) = resolve_calendar_interval(&request).unwrap();
    assert_eq!(from.text, "2026-09-27T00:00:00+03:00");
    assert_eq!(to.seconds - from.seconds, 86_400);
    assert_eq!((from.seconds + 10_800) % 86_400, 0);
}

#[test]
fn calendar_interval_rejects_mixed_or_unknown_relative_inputs() {
    let mixed = list_request(
        Some("2026-09-25T00:00:00Z"),
        Some("2026-09-26T00:00:00Z"),
        Some("2026-09-25T00:00:00Z"),
        "Europe/Moscow",
    );
    assert!(resolve_calendar_interval(&mixed).is_err());
    let wrong_zone = list_request(None, None, Some("2026-09-25T00:00:00Z"), "UTC");
    assert!(resolve_calendar_interval(&wrong_zone).is_err());
}

#[test]
fn explicit_intervals_must_run_forward() {
    let good = list_request(
        Some("2026-09-25T00:00:00Z"),
        Some("2026-09-26T00:00:00Z"),
        None,
        "Europe/Moscow",
    );
    let (from, to) = resolve_calendar_interval(&good).unwrap();
    assert_eq!(to.seconds - from.seconds, 86_400);
    let reversed = list_request(
        Some("2026-09-26T00:00:00Z"),
        Some("2026-09-25T00:00:00Z"),
        None,
        "Europe/Moscow",
    );
    assert!(resolve_calendar_interval(&reversed).is_err());
    assert!(resolve_calendar_interval(&list_request(None, None, None, "Europe/Moscow")).is_err());
    let parsed = parse_list_request(&json("{\"from\":\"a\",\"to\":\"b\"}")).unwrap();
    assert_eq!(parsed.timezone, "Europe/Moscow");
    assert!(parse_list_request(&json("{\"from\":1}")).is_none());
}

#[test]
fn ai_and_telegram_requests_reject_destination_and_credentials() {
    assert!(parse_generate_request(&json(
        "{\"instructions\": \"summary\", \"input\": {}, \"api_key\": \"secret\"}"
    ))
    .is_none());
    assert!(parse_send_request(&json("{\"text\": \"hello\", \"chat_id\": \"other\"}")).is_none());
    assert_eq!(
        safe_error("не задан TELEGRAM_BOT_TOKEN"),
        "не удалось настроить внешний сервис"
    );
    assert_eq!(parse_send_request(&json("{\"text\": \"hello\"}")).as_deref(), Some("hello"));
    assert!(parse_generate_request(&json("{\"instructions\": \"s\", \"input\": {}}")).is_some());
}

fn service_settings(key: &str) -> AgentSettings {
    AgentSettings {
        provider: Provider::Openai,
        api_key: key.to_owned(),
        model: "test".to_owned(),
        temperature: "0.0".to_owned(),
        instructions: Some("история пользователя".to_owned()),
        compression_strategy: CompressionStrategy::Summary,
        context_messages: 99,
    }
}

#[test]
fn ai_request_is_bounded_isolated_and_redacts_provider_key() {
    let request = GenerateTextRequest {
        instructions: "Составь сводку".to_owned(),
        input: json("{\"events\": [1, 2]}"),
    };
    let messages = prepare_ai_messages(&request).unwrap();
    assert_eq!(messages.len(), 1);
    assert_eq!(messages[0].role, "user");
    assert!(messages[0].content.contains("events"));
    assert!(prepare_ai_messages(&GenerateTextRequest {
        instructions: " ".to_owned(),
        input: Json::Null,
    })
    .is_err());

    let settings = isolated_ai_settings(service_settings("sk-private-marker"));
    assert_eq!(settings.instructions.as_deref(), Some(AI_SYSTEM_INSTRUCTIONS));
    let error = safe_ai_error("provider rejected sk-private-marker", &settings.api_key);
    assert!(!error.contains("sk-private-marker"));
}

fn second() -> ProviderName {
    let title = format!("{:?}", Provider::Claude);
    ProviderName { key: title.to_lowercase(), title }
}

fn model_reply(text: &str) -> ModelReply {
    ModelReply { text: text.to_owned(), tool_calls: vec![], input_tokens: 1, output_tokens: 1 }
}

#[test]
fn generated_texts_name_their_model() {
    let settings = service_settings("key");
    let result = generated_text(&settings, model_reply(" Сводка "), &second()).unwrap();
    assert_eq!(result.provider, "OpenAI");
    assert_eq!(result.model, "test");
    assert!(result.text.contains("Сводка"));
    assert!(generated_text(&settings, model_reply(" "), &second()).is_err());
    assert_eq!(service_provider(None), Provider::Openai);
    assert_eq!(service_provider(Some(Provider::Claude)), Provider::Claude);
    assert!(!sanitize_error("Неверный ПАРОЛЬ xyz").contains("xyz"));
    assert_eq!(sanitize_error(&"я".repeat(600)).chars().count(), 500);
    assert_eq!(sanitize_error("обычная ошибка"), "обычная ошибка");
}

#[test]
fn telegram_classifies_delivered_rejected_and_unknown() {
    assert_eq!(
        classify_delivery(true, &json("{\"ok\": true, \"result\": {\"message_id\": 42}}")),
        TelegramOutcome::Delivered(Some(42))
    );
    assert_eq!(
        classify_delivery(false, &json("{\"ok\": false, \"description\": \"rejected\"}")),
        TelegramOutcome::Failed("rejected".to_owned())
    );
    assert!(matches!(lost_delivery(), TelegramOutcome::Unknown(_)));
    let delivered = delivery_result(TelegramOutcome::Delivered(Some(42)));
    assert_eq!(delivered.outcome, "delivered");
    assert_eq!(delivered.message_id, Some(42));
    assert_eq!(delivery_result(lost_delivery()).outcome, "unknown");
    assert_eq!(delivery_result(TelegramOutcome::Failed("e".to_owned())).outcome, "failed");
}

#[test]
fn telegram_messages_are_addressed_and_bounded() {
    let chat = TelegramChat::from_variables(Some("test-token".to_owned()), Some("5".to_owned())).unwrap();
    assert_eq!(chat.address("http://host"), "http://host/bottest-token/sendMessage");
    assert_eq!(write_json(&chat.payload("hi")), "{\"chat_id\":\"5\",\"text\":\"hi\"}");
    assert!(TelegramChat::from_variables(None, Some("5".to_owned())).is_err());
    assert!(TelegramChat::from_variables(Some("t".to_owned()), None).is_err());
    assert!(check_telegram_text("hello").is_ok());
    assert!(check_telegram_text(" ").is_err());
    assert!(check_telegram_text(&"я".repeat(2048)).is_ok());
    assert!(check_telegram_text(&"я".repeat(2049)).is_err());
}

#[test]
fn independent_servers_ignore_unrelated_application_config() {
    assert_eq!(config_for_server(McpServerKind::Github), ConfigSource::Default);
    assert_eq!(config_for_server(McpServerKind::Reporting), ConfigSource::Default);
    assert_eq!(config_for_server(McpServerKind::Workspace), ConfigSource::Default);
    assert_eq!(config_for_server(McpServerKind::Calendar), ConfigSource::Default);
    assert_eq!(config_for_server(McpServerKind::Telegram), ConfigSource::Default);
    assert_eq!(config_for_server(McpServerKind::Ai), ConfigSource::WithoutServers);
    assert_eq!(config_for_server(McpServerKind::Orchestrator), ConfigSource::File);
}

#[test]
fn digests_cover_the_chosen_day() {
    let scheduled = parse_moment("2026-09-25T22:30:00Z").unwrap();
    let (from, to) = digest_interval(&scheduled, DigestTargetDay::Tomorrow, 24).unwrap();
    assert_eq!(from.seconds, parse_moment("2026-09-27T00:00:00+03:00").unwrap().seconds);
    assert_eq!(to.seconds - from.seconds, 86_400);
    let (from, to) = digest_interval(&scheduled, DigestTargetDay::FromRun, 12).unwrap();
    assert_eq!(from.seconds, scheduled.seconds);
    assert_eq!(to.seconds - from.seconds, 12 * 3600);
    let events = parse_digest_events("BEGIN:VEVENT\nDTSTART:20260925T090000Z\nSUMMARY:Первое\nEND:VEVENT\n");
    assert!(write_json(&write_events(&events)).contains("Первое"));
    assert!(digest_message(&from, &to, &events).content.contains("Первое"));
    assert_eq!(
        digest_settings(service_settings("k")).instructions.as_deref(),
        Some(DIGEST_INSTRUCTIONS)
    );
    assert!(digest_text(model_reply(" ")).is_err());
    assert_eq!(digest_text(model_reply("Сводка")).unwrap(), "Сводка");
    let done = delivered_digest("Сводка".to_owned(), TelegramOutcome::Delivered(Some(1)));
    assert_eq!(done.text.as_deref(), Some("Сводка"));
    assert!(done.error.is_none());
    assert!(unsent_digest("Сводка".to_owned(), "сеть".to_owned()).error.is_some());
    assert!(failed_digest("сбой").error.is_some());
}
