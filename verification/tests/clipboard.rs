use galncelet::clipboard::{ClipboardEntry, ClipboardHistoryState, MAX_ENTRIES};

fn texts(v: &[ClipboardEntry]) -> Vec<String> {
    v.iter().map(|e| e.text.clone()).collect()
}

#[test]
fn persists_entries_across_state_reloads() {
    let mut state = ClipboardHistoryState::new();
    state.add("first".to_string());
    state.add("second".to_string());

    let snapshot = state.query(None);
    let reloaded = ClipboardHistoryState::from_entries(snapshot);
    let entries = reloaded.query(None);

    assert_eq!(entries.len(), 2);
    assert_eq!(entries[0].text, "second");
    assert_eq!(entries[1].text, "first");
    assert_eq!(reloaded.next_id(), 3);
}

#[test]
fn newest_first_and_capped() {
    let mut s = ClipboardHistoryState::new();
    for i in 0..(MAX_ENTRIES + 5) {
        s.add_at(format!("t{i}"), i as i64);
    }
    let all = s.query(None);
    assert_eq!(all.len(), MAX_ENTRIES);
    assert_eq!(all[0].text, format!("t{}", MAX_ENTRIES + 4));
    assert_eq!(all[0].id, (MAX_ENTRIES + 5) as u64);
    assert_eq!(all[MAX_ENTRIES - 1].text, "t5");
    assert_eq!(s.next_id(), (MAX_ENTRIES + 6) as u64);
}

#[test]
fn query_is_case_insensitive() {
    let mut s = ClipboardHistoryState::new();
    s.add_at("Hello World".to_string(), 1);
    s.add_at("goodbye".to_string(), 2);
    s.add_at("WORLD peace".to_string(), 3);
    assert_eq!(texts(&s.query(Some("world"))), vec!["WORLD peace".to_string(), "Hello World".to_string()]);
    assert_eq!(texts(&s.query(Some(""))).len(), 3);
    assert!(s.query(Some("zzz")).is_empty());
}

#[test]
fn remove_text_of_and_clear() {
    let mut s = ClipboardHistoryState::new();
    s.add_at("a".to_string(), 1);
    s.add_at("b".to_string(), 2);
    assert_eq!(s.text_of(1).as_deref(), Some("a"));
    assert_eq!(s.text_of(2).as_deref(), Some("b"));
    s.remove(1);
    assert_eq!(s.text_of(1), None);
    assert_eq!(texts(&s.query(None)), vec!["b".to_string()]);
    s.clear();
    assert!(s.query(None).is_empty());
    assert_eq!(s.next_id(), 3);
}

#[test]
fn monitor_records_a_text_once() {
    let mut s = ClipboardHistoryState::new();
    assert!(s.observe_at("copied".to_string(), 10));
    assert!(!s.observe_at("copied".to_string(), 11));
    assert!(s.observe_at("other".to_string(), 12));
    assert!(s.observe_at("copied".to_string(), 13));
    assert_eq!(s.query(None).len(), 3);
    assert!(!s.observe_at(String::new(), 14));
    assert!(!s.observe_at("x".repeat(10_001), 15));
    assert!(s.observe_at("y".repeat(10_000), 16));
}

#[test]
fn noted_clipboard_text_is_not_recorded() {
    let mut s = ClipboardHistoryState::new();
    let h0 = s.last_hash();
    s.note_clipboard_text("pasted");
    assert_ne!(s.last_hash(), h0);
    assert!(!s.observe_at("pasted".to_string(), 1));
    assert!(s.query(None).is_empty());
}

#[test]
fn reload_keeps_first_hundred_and_follows_largest_id() {
    let entries: Vec<ClipboardEntry> = (0..120u64)
        .map(|i| ClipboardEntry { id: 500 - i, text: format!("e{i}"), timestamp: 0 })
        .collect();
    let s = ClipboardHistoryState::from_entries(entries);
    assert_eq!(s.query(None).len(), MAX_ENTRIES);
    assert_eq!(s.next_id(), 501);
    let mut s2 = s;
    assert!(!s2.observe_at("e0".to_string(), 0));
    let empty = ClipboardHistoryState::from_entries(Vec::new());
    assert_eq!(empty.next_id(), 1);
    assert_eq!(empty.last_hash(), 0);
}

#[test]
fn added_entry_gets_a_fresh_id() {
    let mut s = ClipboardHistoryState::from_entries(vec![ClipboardEntry { id: 7, text: "x".to_string(), timestamp: 0 }]);
    s.add_at("y".to_string(), 1);
    let all = s.query(None);
    assert_eq!(all[0].id, 8);
    assert_eq!(all[1].id, 7);
}
