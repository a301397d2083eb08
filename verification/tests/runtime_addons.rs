use galncelet::runtime_addons::{
    check_rpc_method, default_backend_protocol, default_entry, fingerprint_changes, is_safe_addon_id,
    is_safe_storage_key, manifest_error, sort_addon_ids, storage_value_file, validate_relative_file, relative_is_safe, BackendCheck,
};
use galncelet::git::CommandOutput;
use galncelet::runtime_addons::{sidecar_outcome, storage_reply};
use galncelet::strmap::StrMap;

#[test]
fn rejects_unsafe_storage_keys() {
    assert!(is_safe_storage_key("settings.theme"));
    assert!(is_safe_storage_key("user_1-cache"));
    assert!(!is_safe_storage_key("../secret"));
    assert!(!is_safe_storage_key(""));
}

#[test]
fn storage_key_length_limit_is_128_bytes() {
    let ok = "a".repeat(128);
    let long = "a".repeat(129);
    assert!(is_safe_storage_key(&ok));
    assert!(!is_safe_storage_key(&long));
    assert!(!is_safe_storage_key("é"));
}

#[test]
fn addon_ids_are_lowercase_digits_dash_underscore() {
    assert!(is_safe_addon_id("hello-world_2"));
    assert!(!is_safe_addon_id("Hello"));
    assert!(!is_safe_addon_id(".."));
    assert!(!is_safe_addon_id(""));
}

#[test]
fn defaults_of_manifest_fields() {
    assert_eq!(default_entry(), "ui/index.html");
    assert_eq!(default_backend_protocol(), "jsonrpc");
}

#[test]
fn relative_file_errors_name_the_field() {
    let e = validate_relative_file("../secret.html", "/root/x/../secret.html", true, "entry").unwrap_err();
    assert!(e.contains("safe relative path"));
    assert_eq!(e, "entry must be a safe relative path");
    let e = validate_relative_file("ui/missing.html", "/root/x/ui/missing.html", false, "backend.command").unwrap_err();
    assert_eq!(e, "backend.command not found: /root/x/ui/missing.html");
    assert_eq!(validate_relative_file("b", "/a/b", true, "entry").unwrap(), "/a/b");
}

#[test]
fn absolute_paths_and_traversal_are_rejected() {
    for p in ["../secret.html", "ui/../../x", "ui\\..\\x", "..", "/etc/passwd", "\\\\server\\share", "C:\\x", "C:x", "a/.."] {
        assert!(!relative_is_safe(p), "{p}");
    }
    for p in ["ui/index.html", "backend/hello.cmd", "ui/...", "..x/a", "a..b", "ui/./main.js"] {
        assert!(relative_is_safe(p), "{p}");
    }
}

#[test]
fn manifest_problems_come_in_check_order() {
    let ok: Result<String, String> = Ok("/a/ui/index.html".to_string());
    assert_eq!(manifest_error("hello-world", "Hello", &ok, &None), None);
    assert_eq!(
        manifest_error("Bad Id", "", &Err("entry must be a safe relative path".to_string()), &None).unwrap(),
        "Addon id must contain only lowercase letters, digits, '-' or '_'"
    );
    assert_eq!(manifest_error("good", "   ", &ok, &None).unwrap(), "Addon title cannot be empty");
    assert_eq!(
        manifest_error("good", "T", &Err("entry not found: x".to_string()), &None).unwrap(),
        "entry not found: x"
    );
    let grpc = Some(BackendCheck { protocol: "grpc".to_string(), command: Ok("/a/b".to_string()) });
    assert_eq!(manifest_error("good", "T", &ok, &grpc).unwrap(), "Only jsonrpc sidecar backend protocol is supported");
    let missing = Some(BackendCheck {
        protocol: "jsonrpc".to_string(),
        command: Err("backend.command not found: /a/b".to_string()),
    });
    assert_eq!(manifest_error("good", "T", &ok, &missing).unwrap(), "backend.command not found: /a/b");
}

#[test]
fn storage_file_checks_key_then_id() {
    assert_eq!(storage_value_file("notes", "theme").unwrap(), "theme.json");
    assert_eq!(
        storage_value_file("Bad", "../x").unwrap_err(),
        "Storage key must contain only letters, digits, '-', '_' or '.' and be at most 128 chars"
    );
    assert_eq!(storage_value_file("Bad", "ok").unwrap_err(), "Invalid addon id");
}

#[test]
fn blank_rpc_method_is_refused() {
    assert_eq!(check_rpc_method("  ").unwrap_err(), "JSON-RPC method cannot be empty");
    assert!(check_rpc_method("ping").is_ok());
}

#[test]
fn addons_sorted_by_id_and_duplicates_refused() {
    let ids = vec!["zeta".to_string(), "alpha".to_string(), "mid".to_string()];
    assert_eq!(sort_addon_ids(&ids).unwrap(), vec![1, 2, 0]);
    let dup = vec!["b".to_string(), "a".to_string(), "b".to_string(), "a".to_string()];
    assert_eq!(sort_addon_ids(&dup).unwrap_err(), "Duplicate addon id: b");
    assert_eq!(sort_addon_ids(&Vec::new()).unwrap(), Vec::<usize>::new());
}

#[test]
fn fingerprint_changes_report_removed_and_changed() {
    let mut known: StrMap<String> = StrMap::new();
    known.insert("one".to_string(), "3:100".to_string());
    known.insert("two".to_string(), "5:200".to_string());
    known.insert("three".to_string(), "1:1".to_string());
    let mut current: StrMap<String> = StrMap::new();
    current.insert("one".to_string(), "3:100".to_string());
    current.insert("two".to_string(), "6:250".to_string());
    current.insert("four".to_string(), "1:1".to_string());
    let d = fingerprint_changes(&known, &current);
    assert!(!d.unchanged);
    assert_eq!(d.removed, vec!["three".to_string()]);
    assert_eq!(d.changed, vec!["two".to_string()]);
    let same = fingerprint_changes(&known, &known);
    assert!(same.unchanged);
    assert!(same.removed.is_empty() && same.changed.is_empty());
}

#[test]
fn addon_lookup_by_id() {
    let ids = vec!["a".to_string(), "b".to_string()];
    assert_eq!(galncelet::runtime_addons::find_addon(&ids, "b").unwrap(), 1);
    assert_eq!(galncelet::runtime_addons::find_addon(&ids, "c").unwrap_err(), "Runtime addon not found: c");
}

#[test]
fn different_keys_use_different_files() {
    let a = storage_value_file("notes", "theme").unwrap();
    let b = storage_value_file("notes", "theme.v2").unwrap();
    let c = storage_value_file("notes", "them").unwrap();
    assert_ne!(a, b);
    assert_ne!(a, c);
    assert_ne!(b, c);
}

fn run(success: bool, stdout: &str, stderr: &str) -> CommandOutput {
    CommandOutput { success, stdout: stdout.as_bytes().to_vec(), stderr: stderr.as_bytes().to_vec() }
}

#[test]
fn sidecar_replies_follow_the_protocol() {
    let ok = sidecar_outcome(&run(true, " {\"jsonrpc\":\"2.0\",\"id\":1,\"result\":{\"reply\":\"pong\"}}\n", ""), "exit 0");
    assert_eq!(ok.unwrap(), "{\"reply\":\"pong\"}");
    let err = sidecar_outcome(&run(true, "{\"jsonrpc\":\"2.0\",\"id\":1,\"error\":{\"code\":-32000,\"message\":\"failed\"}}", ""), "exit 0");
    assert_eq!(err.unwrap_err(), "{\"code\":-32000,\"message\":\"failed\"}");
    assert_eq!(sidecar_outcome(&run(true, "{\"id\":1}", ""), "exit 0").unwrap(), "null");
    let bad = sidecar_outcome(&run(true, "not json", ""), "exit 0").unwrap_err();
    assert!(bad.starts_with("Addon backend returned invalid JSON: "));
    assert_eq!(sidecar_outcome(&run(false, "", "  boom \n"), "exit status: 2").unwrap_err(), "boom");
    assert_eq!(
        sidecar_outcome(&run(false, "", " \n"), "exit status: 2").unwrap_err(),
        "Addon backend exited with status exit status: 2"
    );
}

#[test]
fn stored_values_read_back_as_json() {
    assert_eq!(storage_reply(None).unwrap(), "null");
    assert_eq!(storage_reply(Some("{ \"theme\" : \"dark\" }")).unwrap(), "{\"theme\":\"dark\"}");
    let e = storage_reply(Some("{oops")).unwrap_err();
    assert!(e.starts_with("Failed to parse addon storage value: "));
}
