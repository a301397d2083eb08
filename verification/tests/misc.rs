use galncelet::browser_ext::{
    browser_candidates, is_relevant_change, launch_choice, tasklist_mentions, watch_decision, WatchDecision, WatchList,
};
use galncelet::enable_backdrop;
use galncelet::startup::{
    plugin_menu_item, plugin_settings_label, plugin_settings_url, runtime_addon_label, sequence_position,
    startup_window, tray_action, widget_url, widget_window_plan, SavedAttach, TrayAction,
};
use galncelet::strmap::StrMap;
use galncelet::system_monitor::{disk_used, network_totals, pick_cpu_sensor, pick_disk};

#[test]
fn backdrop_is_a_no_op_here() {
    assert!(enable_backdrop(0).is_ok());
}

#[test]
fn browser_launch_choice() {
    assert_eq!(browser_candidates().len(), 4);
    assert_eq!(browser_candidates()[2].1, "Edge");
    assert_eq!(launch_choice(true, false, &vec![true]).unwrap_err(), "Chrome 已在运行，请先关闭 Chrome 再点击启动");
    assert_eq!(launch_choice(false, true, &vec![true]).unwrap_err(), "Edge 已在运行，请先关闭 Edge 再点击启动");
    assert_eq!(launch_choice(false, false, &vec![false, false, true, true]).unwrap(), 2);
    assert_eq!(
        launch_choice(false, false, &vec![false; 4]).unwrap_err(),
        "未找到 Chrome 或 Edge，请安装其中一种浏览器"
    );
    assert!(tasklist_mentions("Image Name\nCHROME.EXE   1234", "chrome.exe"));
    assert!(!tasklist_mentions("INFO: No tasks are running", "chrome.exe"));
}

#[test]
fn relevant_repository_changes() {
    assert!(is_relevant_change("/r/src/main.rs", "src/main.rs"));
    assert!(is_relevant_change("/r/.git/HEAD", ".git/HEAD"));
    assert!(is_relevant_change(r"C:\r\.git\index", r".git\index"));
    assert!(is_relevant_change("/r/.git/refs/heads/main", ".git/refs/heads/main"));
    assert!(!is_relevant_change("/r/.git/index.lock", ".git/index.lock"));
    assert!(!is_relevant_change("/r/.git/config", ".git/config"));
}

#[test]
fn watch_requests() {
    let watched = vec!["/a".to_string()];
    assert!(matches!(watch_decision(&watched, "/a", false), WatchDecision::AlreadyWatching));
    match watch_decision(&watched, "/b", false) {
        WatchDecision::NotARepository(e) => assert_eq!(e, "Not a git repository: /b"),
        other => panic!("{other:?}"),
    }
    assert!(matches!(watch_decision(&watched, "/b", true), WatchDecision::Start));
}

#[test]
fn startup_windows() {
    let mut vis: StrMap<bool> = StrMap::new();
    vis.insert("git".to_string(), true);
    vis.insert("clock".to_string(), false);
    let seq = vec!["music".to_string(), "clock".to_string()];
    assert_eq!(sequence_position(&seq, "clock"), Some(1));
    assert_eq!(startup_window(&vis, &seq, "git"), Some(None));
    assert_eq!(startup_window(&vis, &seq, "music"), Some(Some(true)));
    assert_eq!(startup_window(&vis, &seq, "clock"), Some(Some(false)));
    assert_eq!(startup_window(&vis, &seq, "other"), None);
}

#[test]
fn widget_window_setup_prefers_saved_state() {
    let defaults = vec!["code".to_string()];
    let p = widget_window_plan(&None, true, false, &defaults, None);
    assert!(p.attach && !p.remember && !p.start_visible);
    assert_eq!(p.whitelist, defaults);
    let saved = Some(SavedAttach { attach_enabled: Some(false), whitelist: Some(vec![]), attach_remember: Some(true) });
    let p = widget_window_plan(&saved, true, false, &defaults, None);
    assert!(!p.attach && p.remember && p.start_visible);
    assert_eq!(p.whitelist, defaults);
    let saved = Some(SavedAttach { attach_enabled: None, whitelist: Some(vec!["idea".into()]), attach_remember: None });
    let p = widget_window_plan(&saved, true, false, &defaults, Some(true));
    assert!(p.attach && p.start_visible);
    assert_eq!(p.whitelist, vec!["idea".to_string()]);
}

#[test]
fn window_labels_and_tray() {
    assert_eq!(runtime_addon_label("hello"), "runtime-addon-hello");
    assert_eq!(widget_url("git"), "index.html?widget=git");
    assert_eq!(plugin_settings_label("git"), "settings-git");
    assert_eq!(plugin_settings_url("git"), "index.html?widget=plugin_settings&plugin=git");
    let (id, label) = plugin_menu_item("git", "Git");
    assert_eq!(id, "plugin_settings:git");
    assert_eq!(label, "Git 设置");
    assert!(matches!(tray_action("plugin_settings:git"), TrayAction::PluginSettings(p) if p == "git"));
    assert!(matches!(tray_action("quit"), TrayAction::Quit));
    assert!(matches!(tray_action("manage"), TrayAction::ShowManage));
    assert!(matches!(tray_action("global_settings"), TrayAction::ShowSettings));
    assert!(matches!(tray_action("hide_all"), TrayAction::HideAll));
    assert!(matches!(tray_action("other"), TrayAction::Ignore));
}

#[test]
fn monitor_choices() {
    let labels = vec!["acpitz".to_string(), "Core 0".to_string(), "CPU Package".to_string()];
    assert_eq!(pick_cpu_sensor(&labels), Some(1));
    assert_eq!(pick_cpu_sensor(&vec!["gpu".to_string()]), None);
    assert_eq!(pick_disk(&vec![Some("/".into()), None, Some("C:\\".into())]), Some(2));
    assert_eq!(pick_disk(&vec![Some("/".into())]), Some(0));
    assert_eq!(pick_disk(&vec![]), None);
    assert_eq!(disk_used(100, 30), 70);
    assert_eq!(network_totals(&vec![(1, 2), (10, 20)]), (11, 22));
}

#[test]
fn a_repository_is_watched_once() {
    let mut w = WatchList::new();
    assert!(matches!(w.watch("/r", true), WatchDecision::Start));
    assert!(matches!(w.watch("/r", true), WatchDecision::AlreadyWatching));
    match w.watch("/plain", false) {
        WatchDecision::NotARepository(e) => assert_eq!(e, "Not a git repository: /plain"),
        _ => panic!("expected a refusal"),
    }
    assert!(matches!(w.watch("/s", true), WatchDecision::Start));
    assert_eq!(w.unwatch("/r"), Some(0));
    assert_eq!(w.unwatch("/r"), None);
    assert_eq!(w.unwatch("/s"), Some(0));
    assert!(matches!(w.watch("/r", true), WatchDecision::Start));
    w.clear();
    assert_eq!(w.unwatch("/r"), None);
}

#[test]
fn process_names_compare_ignoring_ascii_case() {
    assert!(tasklist_mentions("msedge.exe 42", "MSEDGE.EXE"));
    assert!(!tasklist_mentions("msedge.exe 42", "chrome.exe"));
}
