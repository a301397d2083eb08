use galncelet::amkr::{
    bearer_header, commit_prompt, completions_url, events_url, finish_commit_message, metrics_url, model_infos,
    next_retry_delay, resolve_connection, append_delta, AmkrModel, SseBuffer,
};

#[test]
fn connection_defaults_and_addresses() {
    let c = resolve_connection(None, None, None);
    assert_eq!(c.host, "127.0.0.1");
    assert_eq!(c.port, 8000);
    assert_eq!(c.api_key, "");
    assert_eq!(metrics_url(&c), "http://127.0.0.1:8000/metrics");
    let c = resolve_connection(Some("router".into()), Some(9), Some("k".into()));
    assert_eq!(completions_url(&c), "http://router:9/v1/chat/completions");
    assert_eq!(events_url(&c), "ws://router:9/ws/events");
}

#[test]
fn bearer_only_with_a_key() {
    assert_eq!(bearer_header(""), None);
    assert_eq!(bearer_header("abc").as_deref(), Some("Bearer abc"));
}

#[test]
fn prompt_wraps_the_diff() {
    assert_eq!(commit_prompt(" \n ").unwrap_err(), "没有暂存的更改");
    let p = commit_prompt("+ line").unwrap();
    assert!(p.starts_with("根据以下 git diff 生成一条符合 Conventional Commits 规范的 commit 信息。\n\n规则：\n"));
    assert!(p.contains("- 格式: <type>(<scope>): <subject>\\n\\n<body>\n"));
    assert!(p.ends_with("```\n+ line\n```"));
}

#[test]
fn streamed_lines_are_framed() {
    let mut b = SseBuffer::new();
    assert!(b.push(b"data: {\"a\":1}\ndata: par").len() == 1);
    let out = b.push(b"tial\n\n: comment\ndata: [DONE]\n  data: x  \n");
    assert_eq!(out, vec!["partial".to_string(), "x".to_string()]);
    assert!(b.push(b"no newline yet").is_empty());
    assert_eq!(b.push(b"\n"), Vec::<String>::new());
}

#[test]
fn commit_message_is_trimmed() {
    assert_eq!(finish_commit_message("  feat: x \n").unwrap(), "feat: x");
    assert_eq!(finish_commit_message(" \n").unwrap_err(), "AI 未返回有效内容");
}

#[test]
fn models_mark_the_current_one() {
    let models = vec![
        AmkrModel { id: "a".into(), aliases: None },
        AmkrModel { id: "b".into(), aliases: Some(vec!["bee".into()]) },
    ];
    let infos = model_infos(&models, &Some("b".to_string()));
    assert_eq!(infos.len(), 2);
    assert!(!infos[0].is_current);
    assert!(infos[0].aliases.is_empty());
    assert!(infos[1].is_current);
    assert_eq!(infos[1].aliases, vec!["bee".to_string()]);
    assert!(model_infos(&models, &None).iter().all(|m| !m.is_current));
}

#[test]
fn reconnect_delay_doubles_up_to_thirty() {
    assert_eq!(next_retry_delay(1), 2);
    assert_eq!(next_retry_delay(8), 16);
    assert_eq!(next_retry_delay(16), 30);
    assert_eq!(next_retry_delay(30), 30);
}

#[test]
fn streamed_deltas_are_appended() {
    let mut m = String::from("feat: ");
    assert!(append_delta(&mut m, "{\"choices\":[{\"delta\":{\"content\":\"add x\"}}]}"));
    assert_eq!(m, "feat: add x");
    assert!(!append_delta(&mut m, "{\"choices\":[{\"delta\":{}}]}"));
    assert!(!append_delta(&mut m, "[DONE"));
    assert_eq!(m, "feat: add x");
}
