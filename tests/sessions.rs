use session_restore::{
    format_header_showing, format_label, has_user_messages, is_jsonl,
    load_sessions_from_codex_home, render_user_assistant_lines, summarize_session,
    truncate_graphemes, Item, SessionHeader, SessionMeta, SessionsPopup,
};

fn meta(path: &str, ts: &str, users: usize, root: Option<&str>) -> SessionMeta {
    SessionMeta {
        path: path.to_string(),
        timestamp: ts.to_string(),
        user_messages: users,
        tool_calls: 0,
        first_message: String::new(),
        provider_token: None,
        recorded_project_root: root.map(|r| r.to_string()),
    }
}

fn msg(role: &str, text: &str) -> Item {
    Item::Message { role: Some(role.to_string()), texts: vec![text.to_string()] }
}

#[test]
fn renders_user_and_assistant_only() {
    let items = vec![
        msg("user", "hi"),
        Item::FunctionCall { name: Some("sh".to_string()), arguments: Some("\"{}\"".to_string()) },
        msg("assistant", "ok"),
    ];
    let lines = render_user_assistant_lines(&items);
    assert_eq!(lines, vec!["user: hi".to_string(), "assistant: ok".to_string()]);
}

#[test]
fn seed_messages_are_not_rendered() {
    let items = vec![
        msg("user", " \n<user_instructions>read AGENTS.md"),
        msg("user", "<environment_context>cwd"),
        msg("system", "hidden"),
        msg("assistant", ""),
        msg("user", "real"),
    ];
    assert_eq!(render_user_assistant_lines(&items), vec!["user: real".to_string()]);
    assert!(has_user_messages(&items));
    assert!(!has_user_messages(&[msg("assistant", "x")]));
}

#[test]
fn truncates_by_grapheme_cluster() {
    assert_eq!(truncate_graphemes("hello", 50), "hello");
    assert_eq!(truncate_graphemes("hello", 3), "hel\u{2026}");
    assert_eq!(truncate_graphemes("e\u{301}e\u{301}e\u{301}", 2), "e\u{301}e\u{301}\u{2026}");
    assert_eq!(truncate_graphemes("abc", 3), "abc");
    assert_eq!(truncate_graphemes("", 0), "");
}

#[test]
fn recognises_jsonl_paths() {
    assert!(is_jsonl("sessions/2025/rollout-1.jsonl"));
    assert!(!is_jsonl("sessions/2025/rollout-1.json"));
    assert!(!is_jsonl("sessions/.jsonl"));
    assert!(!is_jsonl("sessions/jsonl"));
}

#[test]
fn header_showing_text() {
    assert_eq!(format_header_showing(1, 10, 250), "Showing 1\u{2013}10 of 250 lines");
}

#[test]
fn label_uses_utc_minute_when_parsable() {
    let mut m = meta("a.jsonl", "2025-08-12T10:20:30.000+02:00", 1, None);
    m.tool_calls = 2;
    m.first_message = "hello world".to_string();
    assert_eq!(format_label(&m), "2025-08-12 08:20 \u{b7} 1 msgs/2 tools \u{b7} hello world");
    let raw = meta("b.jsonl", "yesterday", 0, None);
    assert_eq!(format_label(&raw), "yesterday \u{b7} 0 msgs/0 tools \u{b7} ");
}

#[test]
fn newest_sessions_first() {
    let sorted = load_sessions_from_codex_home(vec![
        meta("a", "2025-08-12T10:20:30.000Z", 1, None),
        meta("b", "2025-08-12T11:20:30.000Z", 1, None),
        meta("c", "2025-08-11T09:00:00.000Z", 1, None),
        meta("d", "2025-08-12T10:20:30.000Z", 1, None),
    ]);
    let order: Vec<&str> = sorted.iter().map(|m| m.path.as_str()).collect();
    assert_eq!(order, vec!["b", "a", "d", "c"]);
}

#[test]
fn summarizes_session_records() {
    let header = SessionHeader {
        timestamp: "2025-08-12T10:20:30.000Z".to_string(),
        provider_resume_token: None,
        recorded_project_root: Some("/proj".to_string()),
    };
    let records = vec![
        msg("user", "<user_instructions>seed"),
        Item::Message {
            role: Some("user".to_string()),
            texts: vec!["hello\nworld".to_string(), "again".to_string()],
        },
        Item::FunctionCall { name: Some("tool".to_string()), arguments: Some("\"{}\"".to_string()) },
        Item::State { provider_resume_token: Some("resp_1".to_string()) },
        msg("assistant", "reply"),
        msg("user", "second"),
    ];
    let m = summarize_session("x.jsonl".to_string(), header, &records);
    assert_eq!(m.timestamp, "2025-08-12T10:20:30.000Z");
    assert_eq!(m.user_messages, 2);
    assert_eq!(m.tool_calls, 1);
    assert_eq!(m.first_message, "hello world again");
    assert_eq!(m.provider_token.as_deref(), Some("resp_1"));
    assert_eq!(m.recorded_project_root.as_deref(), Some("/proj"));
}

#[test]
fn header_token_wins_over_state_token() {
    let header = SessionHeader {
        timestamp: String::new(),
        provider_resume_token: Some("resp_abc".to_string()),
        recorded_project_root: None,
    };
    let records = vec![Item::State { provider_resume_token: Some("resp_1".to_string()) }];
    let m = summarize_session("y.jsonl".to_string(), header, &records);
    assert_eq!(m.provider_token.as_deref(), Some("resp_abc"));
    assert_eq!(m.user_messages, 0);
}

#[test]
fn popup_lists_project_sessions_and_selects_by_path() {
    let all = vec![
        meta("here_a", "3", 1, Some("/proj")),
        meta("here_b", "2", 0, Some("/proj")),
        meta("o1", "1", 4, Some("/other")),
        meta("l1", "0", 2, None),
        meta("here_c", "0", 1, Some("/proj")),
    ];
    let mut popup = SessionsPopup::with_params(all, false, "/proj".to_string());
    let paths: Vec<&str> = popup.items.iter().map(|m| m.path.as_str()).collect();
    assert_eq!(paths, vec!["here_a", "here_c"]);
    assert_eq!(popup.selected_idx, Some(0));
    popup.select_path("here_c");
    assert_eq!(popup.selected_idx, Some(1));
    popup.select_path("missing");
    assert_eq!(popup.selected_idx, Some(1));
    for expected in [1usize, 2, 3, 0] {
        popup.toggle_mode();
        assert_eq!(popup.action_idx, expected);
    }
    popup.show_all = true;
    popup.refresh(vec![meta("o1", "1", 4, Some("/other")), meta("l1", "0", 2, None)]);
    assert_eq!(popup.items.len(), 2);
    assert_eq!(popup.selected_idx, Some(1));
    popup.refresh(Vec::new());
    assert_eq!(popup.selected_idx, None);
}

#[test]
fn selecting_scrolls_into_view() {
    let all: Vec<SessionMeta> = (0..20).map(|i| meta(&format!("s{i}"), "t", 1, None)).collect();
    let mut popup = SessionsPopup::with_params(all, true, String::new());
    popup.select_path("s15");
    assert_eq!(popup.selected_idx, Some(15));
    assert_eq!(popup.scroll_top, 8);
    popup.select_path("s2");
    assert_eq!(popup.scroll_top, 2);
}
