use galncelet::git::{
    branch_name, checkout_branch, discard_plan, exec_git_command, get_file_diff, get_staged_diff_summary, get_status,
    git_fetch, git_log, list_branches, list_submodules, lock_is_stale, parse_log, parse_status_porcelain,
    resolve_repo_root, run_git, stage_all_step, unit_output, untracked_file_diff,
    CommandOutput,
};

fn ok(stdout: &str) -> CommandOutput {
    CommandOutput { success: true, stdout: stdout.as_bytes().to_vec(), stderr: Vec::new() }
}

fn fail(stderr: &str) -> CommandOutput {
    CommandOutput { success: false, stdout: Vec::new(), stderr: stderr.as_bytes().to_vec() }
}

#[test]
fn status_letters_from_the_xy_field() {
    let text = "1 .M N... 100644 100644 100644 abc def src/main.rs\n? new.txt\n? dir/\n! ignored.txt\n1 MM N... 1 2 3 a b lib.rs\n";
    let files = parse_status_porcelain(text);
    let got: Vec<(String, String, bool)> =
        files.iter().map(|f| (f.path.clone(), f.status_code.clone(), f.staged)).collect();
    assert_eq!(
        got,
        vec![
            ("src/main.rs".to_string(), "M".to_string(), false),
            ("new.txt".to_string(), "?".to_string(), false),
            ("lib.rs".to_string(), "M".to_string(), true),
            ("lib.rs".to_string(), "M".to_string(), false),
        ]
    );
}

#[test]
fn renamed_entry_takes_the_new_path() {
    let files = parse_status_porcelain("2 R. N... 1 2 3 a b R100 new.rs\told.rs\n");
    assert_eq!(files.len(), 1);
    assert_eq!(files[0].path, "new.rs");
    assert_eq!(files[0].status_code, "R");
    assert!(files[0].staged);
}

#[test]
fn documented_ordinary_and_renamed_lines() {
    let raw = "1 MM N... 100644 100644 100644 aaa bbb src/lib.rs\n2 R. N... 100644 100644 100644 aaa bbb R100 new.rs\told.rs\n";
    let got: Vec<(String, String, bool)> =
        parse_status_porcelain(raw).iter().map(|f| (f.path.clone(), f.status_code.clone(), f.staged)).collect();
    assert_eq!(
        got,
        vec![
            ("src/lib.rs".to_string(), "M".to_string(), true),
            ("src/lib.rs".to_string(), "M".to_string(), false),
            ("new.rs".to_string(), "R".to_string(), true),
        ]
    );
}

#[test]
fn paths_with_spaces_are_kept_whole() {
    let files = parse_status_porcelain("1 .M N... 100644 100644 100644 aaa bbb my file.txt\n");
    assert_eq!(files.len(), 1);
    assert_eq!(files[0].path, "my file.txt");
    assert_eq!(files[0].status_code, "M");
    assert!(!files[0].staged);
    let files = parse_status_porcelain("2 RM N... 1 2 3 a b R90 new name.rs\told name.rs\n");
    assert_eq!(files.len(), 2);
    assert_eq!(files[1].path, "new name.rs");
}

#[test]
fn malformed_status_lines_give_nothing() {
    assert!(parse_status_porcelain("1 MM ab\n").is_empty());
    assert!(parse_status_porcelain("1 é\n2 \n1 ABC N... 1 2 3 a b f\n# branch.oid x\n").is_empty());
    assert!(parse_status_porcelain("").is_empty());
}

#[test]
fn status_of_a_repository() {
    let st = get_status("/r".to_string(), &ok("? a\n"), "main".to_string(), true).unwrap();
    assert_eq!(st.repo_root, "/r");
    assert_eq!(st.branch, "main");
    assert!(st.has_head);
    assert_eq!(st.files.len(), 1);
    let e = get_status("/r".to_string(), &fail("boom"), "main".to_string(), true).unwrap_err();
    assert_eq!(e, "git status failed: boom");
}

#[test]
fn branches_local_first_current_first_then_by_name() {
    let out = "zeta\t\t\trefs/heads/zeta\nmain\t1\torigin/main\trefs/heads/main\norigin/HEAD\t\t\trefs/remotes/origin/HEAD\norigin/main\t\t\trefs/remotes/origin/main\nalpha\t\t\trefs/heads/alpha\nbad line\n";
    let b = list_branches(out);
    let names: Vec<&str> = b.iter().map(|x| x.name.as_str()).collect();
    assert_eq!(names, vec!["main", "alpha", "zeta", "origin/main"]);
    assert!(b[0].is_current);
    assert_eq!(b[0].upstream.as_deref(), Some("origin/main"));
    assert!(b[3].is_remote);
    assert_eq!(b[1].upstream, None);
}

#[test]
fn command_outputs() {
    assert_eq!(run_git(&ok("x\n")).unwrap(), "x\n");
    assert_eq!(run_git(&fail("e")).unwrap_err(), "e");
    assert_eq!(checkout_branch(&ok(" done \n")).unwrap(), "done");
    assert_eq!(git_fetch(&fail("no net")).unwrap_err(), "no net");
    assert!(unit_output(&ok("")).is_ok());
    assert_eq!(stage_all_step("git add -u", &fail("locked")).unwrap_err(), "git add -u failed: locked");
    assert_eq!(resolve_repo_root(&ok("/repo\n")).unwrap(), "/repo");
    assert_eq!(resolve_repo_root(&fail("fatal")).unwrap_err(), "Not a git repository: fatal");
    assert_eq!(branch_name(&Some(fail("fatal: ref HEAD is not a symbolic ref"))), "DETACHED");
    assert_eq!(branch_name(&None), "DETACHED");
    assert_eq!(branch_name(&Some(ok("main\n"))), "main");
}

#[test]
fn free_form_command_words() {
    assert_eq!(exec_git_command("  ").unwrap_err(), "Empty command");
    assert_eq!(exec_git_command(" log  --oneline ").unwrap(), vec!["log".to_string(), "--oneline".to_string()]);
}

#[test]
fn log_entries_and_empty_history() {
    let raw = "abc1234\0abc1234full\0p1 p2\0Ann\02024-01-01\0msg one\nbad\n";
    let entries = parse_log(raw.as_bytes());
    assert_eq!(entries.len(), 1);
    assert_eq!(entries[0].hash, "abc1234");
    assert_eq!(entries[0].parents, vec!["p1".to_string(), "p2".to_string()]);
    assert_eq!(entries[0].message, "msg one");
    let none = git_log(&fail("fatal: your current branch 'main' does not have any commits yet")).unwrap();
    assert!(none.is_empty());
    assert!(git_log(&fail("other")).is_err());
}

#[test]
fn submodules_named_by_last_path_part() {
    let s = list_submodules(&ok(" 1234abc libs/core (heads/main)\n+5678def vendor/x\n"));
    assert_eq!(s.len(), 2);
    assert_eq!(s[0].path, "libs/core");
    assert_eq!(s[0].name, "core");
    assert_eq!(s[1].name, "x");
    assert!(list_submodules(&fail("x")).is_empty());
}

#[test]
fn diffs_of_new_and_tracked_files() {
    let d = untracked_file_diff("a.txt", "x\ny\n");
    assert_eq!(d, "diff --git a/a.txt b/a.txt\nnew file mode 100644\n--- /dev/null\n+++ b/a.txt\n@@ -0,0 +1,2 @@\n+x\n+y\n");
    let g = get_file_diff("a.txt", false, b"", Some("x\n".to_string()));
    assert!(g.diff.starts_with("diff --git a/a.txt b/a.txt"));
    let g = get_file_diff("b.txt", true, b"@@ diff", None);
    assert_eq!(g.diff, "@@ diff");
    assert!(g.staged);
}

#[test]
fn staged_summary_joins_stat_and_detail() {
    let s = get_staged_diff_summary(b" 1 file changed\n", b"+x\n");
    assert!(s.contains("1 file changed"));
    assert!(s.contains("+x"));
}

#[test]
fn stale_locks_and_discards() {
    assert!(!lock_is_stale(1000));
    assert!(lock_is_stale(1001));
    assert_eq!(discard_plan("/r", "a.txt", "?").as_deref(), Some("/r/a.txt"));
    assert_eq!(discard_plan("/r", "a.txt", "M"), None);
}

#[test]
fn invalid_utf8_output_is_replaced() {
    let out = CommandOutput { success: true, stdout: vec![b'o', b'k', 0xff, b'!'], stderr: Vec::new() };
    assert_eq!(run_git(&out).unwrap(), "ok\u{FFFD}!");
    let err = CommandOutput { success: false, stdout: Vec::new(), stderr: vec![0xc3, 0xa9, 0x80] };
    assert_eq!(run_git(&err).unwrap_err(), "é\u{FFFD}");
}
