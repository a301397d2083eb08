use galncelet::strmap::StrMap;
use galncelet::window_attach::{
    card_position, dedupe_windows_by_process, matches_whitelist, process_basename, stop_attach_loop, AttachLoop,
    AttachState, Rect, UrlAction, WidgetAction, WidgetCache, WindowEntry,
};

#[test]
fn whitelist_matching() {
    assert!(matches_whitelist("Code.exe", &[]));
    assert!(matches_whitelist("Code.exe", &["code".to_string()]));
    assert!(!matches_whitelist("chrome.exe", &["code".to_string(), "idea".to_string()]));
    assert!(matches_whitelist("IDEA64.EXE", &["code".to_string(), "Idea".to_string()]));
}

#[test]
fn basename_of_image_path() {
    assert_eq!(process_basename(r"C:\Program Files\App\app.exe"), "app.exe");
    assert_eq!(process_basename("plain.exe"), "plain.exe");
    assert_eq!(process_basename(r"C:\dir\"), "");
}

#[test]
fn card_goes_right_left_or_against_edge() {
    let work = Rect { left: 0, top: 0, right: 1920, bottom: 1040 };
    let t = Rect { left: 100, top: 50, right: 1000, bottom: 800 };
    assert_eq!(card_position(t, work, 360), (1000, 50));
    let t = Rect { left: 800, top: -20, right: 1700, bottom: 800 };
    assert_eq!(card_position(t, work, 360), (440, 0));
    let t = Rect { left: 100, top: 10, right: 1900, bottom: 800 };
    assert_eq!(card_position(t, work, 360), (1560, 10));
}

#[test]
fn visible_windows_one_per_process() {
    let es = vec![
        WindowEntry { process: "a.exe".into(), title: "A1".into() },
        WindowEntry { process: "b.exe".into(), title: "B1".into() },
        WindowEntry { process: "a.exe".into(), title: "A2".into() },
    ];
    let d = dedupe_windows_by_process(&es);
    assert_eq!(d.len(), 2);
    assert_eq!(d[0].title, "A1");
    assert_eq!(d[1].title, "B1");
}

#[test]
fn attach_settings_and_stop() {
    let mut s = AttachState::new();
    assert_eq!(s.card_width(), 360);
    s.set_running(true);
    assert!(s.is_running());
    stop_attach_loop(&mut s);
    assert!(!s.is_running());
    s.set_card_width(400);
    assert_eq!(s.card_width(), 400);
    s.set_current_url("https://x".to_string());
    assert_eq!(s.current_url(), "https://x");
    s.set_attach_enabled("widget-a".to_string(), true);
    s.set_attach_enabled("widget-b".to_string(), false);
    let mut labels = s.widget_labels();
    labels.sort();
    assert_eq!(labels, vec!["widget-a".to_string(), "widget-b".to_string()]);
}

fn windows(items: &[(&str, Option<u32>)]) -> StrMap<Option<u32>> {
    let mut m = StrMap::new();
    for (k, v) in items {
        m.insert(k.to_string(), *v);
    }
    m
}

#[test]
fn placement_shows_moves_and_hides() {
    let mut s = AttachState::new();
    for l in ["w1", "w2", "w3", "w4", "w5"] {
        s.set_attach_enabled(l.to_string(), true);
    }
    s.set_attach_whitelist("w2".to_string(), vec!["code".to_string()]);
    s.set_attach_remember("w3".to_string(), true);
    s.set_collapsed("w4".to_string(), Some(30));
    s.add_sequence_label("w5".to_string());
    let labels = vec!["w1".to_string(), "w2".to_string(), "w3".to_string(), "w4".to_string(), "w5".to_string()];
    let wins = windows(&[("w1", Some(100)), ("w2", Some(50)), ("w3", Some(70)), ("w4", Some(10)), ("w5", Some(10))]);
    let mut cache: StrMap<WidgetCache> = StrMap::new();
    let (actions, moved) = s.plan_reposition(&labels, &mut cache, "chrome.exe", &wins, 500, 20, true);
    assert!(moved);
    let shown: Vec<String> = actions
        .iter()
        .map(|a| match a {
            WidgetAction::Hide(l) => format!("hide {l}"),
            WidgetAction::Show(l) => format!("show {l}"),
            WidgetAction::Move(l, x, y) => format!("move {l} {x} {y}"),
        })
        .collect();
    assert_eq!(shown, vec!["show w1", "move w1 500 20", "hide w2", "show w3"]);
    assert_eq!(cache.get("w1"), Some(&WidgetCache { visible: true, x: 500, y: 20 }));
    assert_eq!(cache.get("w2"), Some(&WidgetCache { visible: false, x: 0, y: 0 }));
    assert_eq!(cache.get("w3"), Some(&WidgetCache { visible: true, x: 0, y: 0 }));
    assert!(cache.get("w4").is_none());

    // a second pass with nothing changed makes no change
    let (actions, moved) = s.plan_reposition(&labels, &mut cache, "chrome.exe", &wins, 500, 20, true);
    assert!(actions.is_empty());
    assert!(!moved);

    // throttled: shown again but not moved
    let (actions, moved) = s.plan_reposition(&labels, &mut cache, "code.exe", &wins, 600, 20, false);
    assert!(!moved);
    assert_eq!(actions.len(), 1);
    assert!(matches!(&actions[0], WidgetAction::Show(l) if l == "w2"));
}

#[test]
fn column_stacks_by_height() {
    let mut s = AttachState::new();
    s.set_attach_enabled("a".to_string(), true);
    s.set_attach_enabled("b".to_string(), true);
    let labels = vec!["a".to_string(), "b".to_string()];
    let wins = windows(&[("a", Some(120)), ("b", None)]);
    let mut cache: StrMap<WidgetCache> = StrMap::new();
    let (actions, _) = s.plan_reposition(&labels, &mut cache, "x", &wins, 10, 5, true);
    assert!(matches!(&actions[3], WidgetAction::Move(l, 10, 125) if l == "b"));
}

#[test]
fn loop_ticks_and_url_reads() {
    let mut l = AttachLoop::new(0);
    assert_eq!(l.on_tick(5, false, false), Some(false));
    assert_eq!(l.last_fg, 5);
    assert_eq!(l.on_tick(5, false, false), None);
    assert_eq!(l.on_tick(5, false, true), Some(true));
    assert_eq!(l.on_tick(7, true, false), None);
    assert_eq!(l.last_fg, 7);
    assert!(l.may_move(false, 0));
    assert!(!l.may_move(true, 50));
    assert!(l.may_move(true, 100));
    l.note_moved(100);
    assert!(!l.may_move(true, 150));
    assert_eq!(l.url_action(false, 1000), UrlAction::Clear);
    assert_eq!(l.url_action(true, 1000), UrlAction::Read);
    assert_eq!(l.url_action(true, 1400), UrlAction::Wait);
    assert_eq!(l.url_action(true, 1500), UrlAction::Read);
}
