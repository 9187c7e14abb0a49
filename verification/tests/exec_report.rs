use agent_loop::config::SubscriptionConfig;
use agent_loop::event::SmeeEvent;
use agent_loop::exec::{
    build_prompt, compose_prompt, elapsed_millis, elapsed_secs, rfc3339_from_nanos, run_outcome, start_failure,
    workspace_for, ExecutionResult,
};
use agent_loop::json::parse_json;
use agent_loop::reporter::{
    log_dir_or_default, reporter_actions, reporter_kind, reporter_name, wasm_file_name, ConsoleReporter,
    ReporterError, ReporterKind, WasmReporter,
};

fn event(body: &str, query: Vec<(String, String)>) -> SmeeEvent {
    SmeeEvent {
        headers: vec![("content-type".to_string(), "application/json".to_string())],
        query,
        body: parse_json(body).unwrap(),
        timestamp: 0,
    }
}

#[test]
fn prompt_puts_the_event_after_the_instructions() {
    let p = compose_prompt("  请处理  ", "{}", "（无）", "hi", "T");
    assert_eq!(
        p,
        "请处理\n\n---\n以下是通过 Webhook 接收到的事件信息，请结合上述指令处理：\n\n## 请求头（Headers）\n```json\n{}\n```\n\n## 查询参数（Query Parameters）\n```json\n（无）\n```\n\n## 请求体（Body）\n```\nhi\n```\n\n> 事件接收时间：T"
    );
}

#[test]
fn prompt_shows_string_bodies_as_they_are() {
    let p = build_prompt("处理", &event(r#""plain text body""#, vec![]));
    assert!(p.contains("```\nplain text body\n```"));
    assert!(p.contains("```json\n（无）\n```"));
    assert!(p.contains("\"content-type\": \"application/json\""));
    assert!(p.ends_with("> 事件接收时间：1970-01-01T00:00:00+00:00"));
    let p = build_prompt("处理", &event(r#"{"a":1}"#, vec![("q".to_string(), "v".to_string())]));
    assert!(p.contains("```\n{\n  \"a\": 1\n}\n```"));
    assert!(p.contains("\"q\": \"v\""));
}

#[test]
fn process_outcomes() {
    let ok = run_outcome(b"out", b"", true, Some(0));
    assert_eq!(ok.output, "out");
    assert!(ok.success && ok.error.is_none());
    let failed = run_outcome(b"out", b"err", false, Some(2));
    assert_eq!(failed.output, "out\n[stderr]\nerr");
    assert_eq!(failed.error.as_deref(), Some("进程退出码: 2"));
    let killed = run_outcome(b"", b"", false, None);
    assert_eq!(killed.error.as_deref(), Some("进程退出码: -1"));
    let lossy = run_outcome(&[0x61, 0xff], b"", true, Some(0));
    assert_eq!(lossy.output, "a\u{fffd}");
    let missing = start_failure("not found".to_string());
    assert!(!missing.success && missing.output.is_empty());
}

#[test]
fn durations_round_toward_zero() {
    assert_eq!(elapsed_millis(0, 1_999_999), 1);
    assert_eq!(elapsed_millis(1_999_999, 0), -1);
    assert_eq!(elapsed_secs(0, 61_500_000_000), 61);
    assert_eq!(elapsed_millis(i64::MIN, i64::MAX), 18_446_744_073_709);
    assert_eq!(rfc3339_from_nanos(1_500_000_000), "1970-01-01T00:00:01.500+00:00");
}

fn sub(workspace: Option<&str>) -> SubscriptionConfig {
    SubscriptionConfig {
        name: "s".to_string(),
        smee_url: "https://smee.io/x".to_string(),
        enabled: true,
        base_prompt: "p".to_string(),
        workspace: workspace.map(|w| w.to_string()),
        reporter: None,
        filter_regex: None,
        wasm_policy: None,
    }
}

#[test]
fn workspace_falls_back_to_the_default() {
    assert_eq!(workspace_for(&sub(Some("/w")), "/home"), "/w");
    assert_eq!(workspace_for(&sub(None), "/home"), "/home");
}

fn result(success: bool) -> ExecutionResult {
    ExecutionResult {
        subscription_name: "test".to_string(),
        success,
        output: if success { "some output".to_string() } else { String::new() },
        error: if success { None } else { Some("oops".to_string()) },
        started_at: 0,
        finished_at: 1_000_000_000,
        prompt: "do something".to_string(),
    }
}

#[test]
fn console_reporter_prints_and_appends() {
    let r = ConsoleReporter::new("./logs".to_string());
    let ok = r.report(&result(true));
    let sep = "─".repeat(60);
    assert_eq!(
        ok.stdout_head,
        format!("\n{sep}\n✅ [test] 执行完成\n   开始: 1970-01-01T00:00:00+00:00\n   耗时: 1000ms\n{sep}\n")
    );
    assert_eq!(ok.stdout_tail, format!("some output\n{sep}\n\n"));
    assert!(ok.stderr.is_none());
    assert_eq!(ok.log_file, "test.log");
    assert!(ok.log_entry.contains("SUCCESS") && ok.log_entry.contains("do something"));
    let bad = r.report(&result(false));
    assert_eq!(bad.stderr.as_deref(), Some("❌ 错误: oops\n"));
    assert_eq!(bad.stdout_tail, format!("{sep}\n\n"));
}

#[test]
fn wasm_reporter_input_and_answers() {
    let r = WasmReporter { wasm_path: "/x.wasm".to_string(), log_dir: "/logs".to_string() };
    let v: serde_json::Value = serde_json::from_str(&r.input_text(&result(false))).unwrap();
    assert_eq!(v["subscription_name"], "test");
    assert_eq!(v["success"], false);
    assert_eq!(v["error"], "oops");
    assert_eq!(v["duration_ms"], 1000);
    assert_eq!(v["log_dir"], "/logs");
    assert_eq!(v["started_at"], "1970-01-01T00:00:00+00:00");
    let v: serde_json::Value = serde_json::from_str(&r.input_text(&result(true))).unwrap();
    assert!(v["error"].is_null());

    let a = reporter_actions(r#"{"stdout":"hi","append_file":{"path":"/l/t.log","content":"c"}}"#).unwrap();
    assert_eq!(a.stdout.as_deref(), Some("hi"));
    assert!(a.stderr.is_none());
    let f = a.append.unwrap().unwrap();
    assert_eq!((f.path.as_str(), f.content.as_str()), ("/l/t.log", "c"));
    let a = reporter_actions(r#"{"stderr":"e","append_file":{"content":"c"}}"#).unwrap();
    assert_eq!(a.stderr.as_deref(), Some("e"));
    assert!(matches!(a.append, Err(ReporterError::MissingPath)));
    let a = reporter_actions(r#"{"append_file":{"path":"p"}}"#).unwrap();
    assert!(matches!(a.append, Err(ReporterError::MissingContent)));
    assert!(matches!(reporter_actions(r#"{}"#).unwrap().append, Ok(None)));
    assert!(matches!(reporter_actions("nope"), Err(ReporterError::NotJson)));
    assert_eq!(ReporterError::MissingPath.message(), "append_file 缺少 path 字段");
}

#[test]
fn reporter_choice() {
    assert_eq!(reporter_name(None), "console");
    assert_eq!(reporter_name(Some("slack")), "slack");
    assert_eq!(wasm_file_name("slack"), "slack.wasm");
    assert!(matches!(reporter_kind("slack", true), ReporterKind::Wasm));
    assert!(matches!(reporter_kind("console", false), ReporterKind::Console));
    match reporter_kind("slack", false) {
        ReporterKind::ConsoleFallback { warning } => {
            assert_eq!(warning, "⚠️  未找到汇报器 \"slack\"（WASM 或内置均不存在），回退到 console")
        }
        _ => panic!("expected the fallback"),
    }
    assert_eq!(log_dir_or_default(None), "./logs");
    assert_eq!(log_dir_or_default(Some("/var/log".to_string())), "/var/log");
}
