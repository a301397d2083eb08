use galncelet::settings::{
    dev_startup_powershell, dev_startup_vbs, ensure_plugin_visibility, escape_single_quoted_powershell, key_code,
    parse_shortcut, plan_cycle, quote_windows_path, sequence_shortcut, sequence_window_labels, startup_registry_command,
    toggle_plan, widget_label, CyclePlan, GeneralSettings, KeyCode, ModifierSet, ShortcutSpec,
};
use galncelet::strmap::StrMap;
use std::path::PathBuf;

#[test]
fn dev_launcher_starts_frontend_hidden_before_app() {
    let root = PathBuf::from(r"D:\Code\galncelet");
    let exe = root.join("src-tauri").join("target").join("debug").join("galncelet.exe");

    let script = dev_startup_powershell(&root.display().to_string(), &exe.display().to_string());

    assert!(script.contains("Start-Process -FilePath 'npm.cmd'"));
    assert!(script.contains("-WindowStyle Hidden"));
    assert!(script.contains("'--host', '127.0.0.1'"));
    assert!(
        script.find("Start-Process -FilePath 'npm.cmd'").unwrap()
            < script.find("Start-Process -FilePath $appExe").unwrap()
    );
}

#[test]
fn vbs_launcher_runs_powershell_without_a_console_window() {
    let ps1 = PathBuf::from(r"C:\Users\Me\AppData\Roaming\Galncelet\startup-dev.ps1");

    let script = dev_startup_vbs(&ps1.display().to_string());

    assert!(script.contains("powershell.exe -NoProfile -ExecutionPolicy Bypass -WindowStyle Hidden"));
    assert!(script.contains(", 0, False"));
}

#[test]
fn powershell_script_embeds_escaped_paths() {
    let script = dev_startup_powershell(r"C:\It's here", r"C:\app.exe");
    assert!(script.starts_with("$ErrorActionPreference = 'SilentlyContinue'\n$projectRoot = 'C:\\It''s here'\n$appExe = 'C:\\app.exe'\n"));
    assert!(script.ends_with("Start-Process -FilePath $appExe -WorkingDirectory $projectRoot -WindowStyle Hidden\n"));
}

#[test]
fn vbs_doubles_quotes_in_the_path() {
    let script = dev_startup_vbs("C:\\a\"b.ps1");
    assert_eq!(
        script,
        "Set shell = CreateObject(\"WScript.Shell\")\r\nshell.Run \"powershell.exe -NoProfile -ExecutionPolicy Bypass -WindowStyle Hidden -File \"\"C:\\a\"\"b.ps1\"\"\", 0, False\r\n"
    );
}

#[test]
fn quoting_and_escaping() {
    assert_eq!(quote_windows_path(r"C:\x y\a.exe"), "\"C:\\x y\\a.exe\"");
    assert_eq!(escape_single_quoted_powershell("it's 'q'"), "it''s ''q''");
    assert_eq!(startup_registry_command(Some(r"C:\l.vbs"), r"C:\a.exe"), "wscript.exe //B //NoLogo \"C:\\l.vbs\"");
    assert_eq!(startup_registry_command(None, r"C:\a.exe"), "\"C:\\a.exe\"");
}

#[test]
fn parses_shortcut_texts() {
    let s = parse_shortcut("Ctrl+Shift+1").unwrap();
    assert_eq!(
        s,
        ShortcutSpec {
            mods: ModifierSet { control: true, shift: true, alt: false, super_key: false },
            code: KeyCode::Digit1
        }
    );
    let s = parse_shortcut(" cmd + Alt + F12 ").unwrap();
    assert_eq!(s.mods, ModifierSet { control: false, shift: false, alt: true, super_key: true });
    assert_eq!(s.code, KeyCode::F12);
    assert_eq!(parse_shortcut("Ctrl+Shift").map(|s| s.code), None);
    assert!(parse_shortcut("Ctrl+Banana").is_none());
    assert_eq!(parse_shortcut("Esc").unwrap().code, KeyCode::Escape);
    assert_eq!(parse_shortcut("a+B").unwrap().code, KeyCode::KeyB);
    assert_eq!(key_code("numpad9"), Some(KeyCode::Numpad9));
    assert_eq!(key_code("`"), Some(KeyCode::Backquote));
    assert_eq!(key_code(""), None);
}

#[test]
fn sequence_shortcut_needs_a_sequence() {
    assert!(sequence_shortcut(&Some("Ctrl+Tab".to_string()), 0).is_none());
    assert_eq!(sequence_shortcut(&Some("Ctrl+Tab".to_string()), 2).unwrap().code, KeyCode::Tab);
    assert!(sequence_shortcut(&None, 2).is_none());
}

#[test]
fn widget_labels_of_sequence() {
    assert_eq!(widget_label("git"), "widget-git");
    assert_eq!(
        sequence_window_labels(&vec!["a".to_string(), "b".to_string()]),
        vec!["widget-a".to_string(), "widget-b".to_string()]
    );
}

#[test]
fn cycling_skips_missing_windows() {
    assert_eq!(plan_cycle(0, &vec![]), None);
    assert_eq!(
        plan_cycle(0, &vec![true, true, true]),
        Some(CyclePlan { hide: 0, show: Some(1), next_index: 1 })
    );
    assert_eq!(
        plan_cycle(5, &vec![true, false, true]),
        Some(CyclePlan { hide: 2, show: Some(0), next_index: 0 })
    );
    assert_eq!(
        plan_cycle(0, &vec![true, false, false, true]),
        Some(CyclePlan { hide: 0, show: Some(3), next_index: 3 })
    );
    assert_eq!(
        plan_cycle(1, &vec![false, false]),
        Some(CyclePlan { hide: 1, show: None, next_index: 0 })
    );
}

#[test]
fn toggling_persists_only_outside_sequence() {
    let seq = vec!["clock".to_string()];
    let p = toggle_plan(&seq, "clock", true);
    assert!(!p.show);
    assert_eq!(p.persist, None);
    let p = toggle_plan(&seq, "git", false);
    assert!(p.show);
    assert_eq!(p.persist, Some(true));
}

#[test]
fn missing_plugins_get_hidden_visibility() {
    let mut vis: StrMap<bool> = StrMap::new();
    vis.insert("git".to_string(), true);
    ensure_plugin_visibility(&mut vis, &vec!["git".to_string(), "music".to_string()]);
    assert_eq!(vis.get("git"), Some(&true));
    assert_eq!(vis.get("music"), Some(&false));
    assert_eq!(vis.len(), 2);
}

#[test]
fn fresh_settings_defaults() {
    let g = GeneralSettings::default();
    assert_eq!(g.refresh_interval_ms, 2000);
    assert_eq!(g.card_width, 360);
    assert_eq!(g.log_max_count, 50);
    assert!(g.always_on_top);
    assert!(!g.start_on_boot);
    assert!(g.pull_rebase);
    assert!(g.saved_repos.is_empty());
    assert_eq!(g.panel_visibility.len(), 0);
    assert_eq!(g.plugin_hotkeys.len(), 0);
    assert!(g.widget_sequence.is_empty());
    assert_eq!(g.sequence_hotkey, None);
}
