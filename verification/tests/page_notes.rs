use galncelet::page_notes::{
    default_ws_port, find_matching_rule, is_browser, looks_like_url, respond_to_message, MatchMode, PageNoteRule,
    PageNotesConfig, WsInMessage, WsOutMessage,
};

fn rule(id: &str, pattern: &str, mode: MatchMode, enabled: bool) -> PageNoteRule {
    PageNoteRule {
        id: id.to_string(),
        name: format!("name-{id}"),
        pattern: pattern.to_string(),
        match_mode: mode,
        note: format!("note-{id}"),
        enabled,
    }
}

#[test]
fn default_config_port() {
    assert_eq!(default_ws_port(), 17233);
    let c = PageNotesConfig::default();
    assert!(c.rules.is_empty());
    assert_eq!(c.ws_port, 17233);
}

#[test]
fn first_enabled_matching_rule_wins() {
    let rules = vec![
        rule("off", "github.com", MatchMode::Substring, false),
        rule("bad", "(unclosed", MatchMode::Regex, true),
        rule("re", r"^https://github\.com/[^/]+/?$", MatchMode::Regex, true),
        rule("sub", "github.com", MatchMode::Substring, true),
    ];
    assert_eq!(find_matching_rule("https://github.com/user", &rules), Some(2));
    assert_eq!(find_matching_rule("https://github.com/user/repo", &rules), Some(3));
    assert_eq!(find_matching_rule("https://example.com", &rules), None);
    assert_eq!(find_matching_rule("x", &[]), None);
}

#[test]
fn replies_to_extension_messages() {
    let config = PageNotesConfig { rules: vec![rule("r1", "docs", MatchMode::Substring, true)], ws_port: 1 };
    let r = respond_to_message(
        &config,
        WsInMessage::UrlChange { url: "https://docs.rs".to_string(), title: "Docs".to_string() },
    );
    match r.reply {
        WsOutMessage::NoteMatch { rule_id, name, note } => {
            assert_eq!(rule_id, "r1");
            assert_eq!(name, "name-r1");
            assert_eq!(note, "note-r1");
        }
        other => panic!("{other:?}"),
    }
    let u = r.update.unwrap();
    assert!(u.matched);
    assert_eq!(u.url, "https://docs.rs");
    assert_eq!(u.title, "Docs");
    assert_eq!(u.rule_id.as_deref(), Some("r1"));

    let r = respond_to_message(&config, WsInMessage::UrlChange { url: "https://a.b".into(), title: "T".into() });
    assert!(matches!(r.reply, WsOutMessage::NoMatch));
    let u = r.update.unwrap();
    assert!(!u.matched && u.rule_id.is_none() && u.name.is_none() && u.note.is_none());

    let r = respond_to_message(&config, WsInMessage::Ping);
    assert!(matches!(r.reply, WsOutMessage::Pong));
    assert!(r.update.is_none());
}

#[test]
fn browsers_and_addresses() {
    assert!(is_browser("Chrome.exe"));
    assert!(is_browser("MSEDGE.EXE"));
    assert!(is_browser("vivaldi.exe"));
    assert!(!is_browser("firefox.exe"));
    assert!(looks_like_url("https://x"));
    assert!(looks_like_url("http://x"));
    assert!(!looks_like_url("ftp://x"));
    assert!(!looks_like_url("about:blank"));
}
