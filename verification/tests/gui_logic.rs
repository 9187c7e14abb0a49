use agent_loop::config::{projects_from_toml, Agent};
use agent_loop::conn::ConnState;
use agent_loop::event_log::{LogEntry, LogKind};
use agent_loop::gui::{
    belongs_to_agent, can_create, cap_log, clear_agent_log, command_action, command_parts, condition_fields,
    conn_label, filter_label, group_heading, group_sessions, is_session_boundary, omitted_count, omitted_note,
    option_list, project_label, setting_from_fields, split_words, visible_entries, KindFilter,
};

fn entry(kind: LogKind, source: &str, key: &str, summary: &str) -> LogEntry {
    LogEntry {
        clock: "12:00:00".to_string(),
        kind,
        source: source.to_string(),
        session_key: key.to_string(),
        summary: summary.to_string(),
        detail: String::new(),
    }
}

#[test]
fn typed_commands_become_card_actions() {
    assert_eq!(command_action(" /model switch k2 "), "cmd:/model switch k2");
    assert_eq!(command_action("current"), "cmd:/current");
    assert_eq!(command_action("cmd:/dir /tmp"), "cmd:/dir /tmp");
}

#[test]
fn entries_belong_by_name_or_session() {
    assert!(belongs_to_agent(&entry(LogKind::System, "a", "", "x"), "a", "k"));
    assert!(belongs_to_agent(&entry(LogKind::System, "cc-connect", "k", "x"), "a", "k"));
    assert!(!belongs_to_agent(&entry(LogKind::System, "cc-connect", "", "x"), "a", ""));
    assert!(is_session_boundary(&entry(LogKind::System, "系统", "k", "🧹 请求清除会话上下文（/new）")));
    assert!(!is_session_boundary(&entry(LogKind::System, "系统", "k", "x")));
}

#[test]
fn sessions_split_at_clear_requests() {
    let logs = vec![
        entry(LogKind::Webhook, "a", "k", "收到 Webhook 事件"),
        entry(LogKind::System, "b", "", "other agent"),
        entry(LogKind::Result, "a", "k", "执行完成（1s）"),
        entry(LogKind::System, "系统", "k", "🧹 请求清除会话上下文（/new）"),
        entry(LogKind::Error, "a", "", "执行失败（1s）: x"),
        entry(LogKind::System, "系统", "k", "🧹 请求清除会话上下文（/new）"),
    ];
    let all = KindFilter { webhook: true, result: true, system: true };
    let visible = visible_entries(&logs, "a", "k", &all);
    assert_eq!(visible, vec![0, 2, 3, 4, 5]);
    let groups = group_sessions(&logs, &visible);
    assert_eq!(groups, vec![vec![0, 1], vec![2, 3], vec![4]]);
    let only_errors = KindFilter { webhook: false, result: false, system: false };
    assert_eq!(visible_entries(&logs, "a", "k", &only_errors), vec![4]);
    let starts_with_boundary = vec![entry(LogKind::System, "系统", "k", "🧹 x")];
    assert_eq!(group_sessions(&starts_with_boundary, &[0]), vec![vec![0]]);
}

#[test]
fn the_log_keeps_the_last_thousand_entries() {
    let mut logs: Vec<LogEntry> = (0..1005).map(|i| entry(LogKind::System, "s", "", &i.to_string())).collect();
    cap_log(&mut logs);
    assert_eq!(logs.len(), 1000);
    assert_eq!(logs[0].summary, "5");
    assert_eq!(logs[999].summary, "1004");
    let mut few = vec![entry(LogKind::System, "s", "", "x")];
    cap_log(&mut few);
    assert_eq!(few.len(), 1);
}

#[test]
fn clearing_an_agent_keeps_the_others() {
    let mut logs = vec![
        entry(LogKind::System, "a", "", "1"),
        entry(LogKind::System, "b", "", "2"),
        entry(LogKind::System, "x", "k", "3"),
        entry(LogKind::System, "c", "", "4"),
    ];
    clear_agent_log(&mut logs, "a", "k");
    assert_eq!(logs.iter().map(|e| e.summary.as_str()).collect::<Vec<_>>(), vec!["2", "4"]);
}

#[test]
fn agent_form_fields() {
    let mut a = Agent::default();
    assert!(!can_create(&a));
    a.name = "n".to_string();
    a.webhook_url = "https://smee.io/x".to_string();
    a.base_prompt = "p".to_string();
    assert!(can_create(&a));
    assert_eq!(filter_label("none"), "无过滤");
    assert_eq!(filter_label("regex:a"), "自定义正则");
    assert_eq!(filter_label("pr-mention"), "pr-mention");
    assert_eq!(project_label(""), "(默认项目)");
    assert_eq!(project_label("master"), "master");
    assert_eq!(condition_fields("regex:a && b"), vec!["a", "b", ""]);
    assert_eq!(condition_fields("regex:a&&b&&c&&d"), vec!["a", "b", "c"]);
    assert_eq!(condition_fields("regex:"), vec!["", "", ""]);
    let fields = vec!["a".to_string(), " ".to_string(), "c ".to_string()];
    assert_eq!(setting_from_fields(&fields), "regex:a &&  && c");
    let fields = vec!["a".to_string(), "".to_string(), "".to_string()];
    assert_eq!(setting_from_fields(&fields), "regex:a");
    let fields = vec!["".to_string(), "".to_string(), "".to_string()];
    assert_eq!(setting_from_fields(&fields), "regex:");
}

#[test]
fn status_bar_labels() {
    assert_eq!(conn_label(true, ConnState::Connected, Some(42)), "● cc-connect 已连接 · PID 42");
    assert_eq!(conn_label(true, ConnState::Connecting, None), "● cc-connect 连接中…");
    assert_eq!(conn_label(true, ConnState::Disconnected, None), "● cc-connect 已断开");
    assert_eq!(conn_label(false, ConnState::Connected, None), "● cc-connect 未连接");
}

#[test]
fn extracts_project_names_from_cc_connect_config() {
    let text = r#"
[bridge]
enabled = true

[[projects]]
  name = "master"
  [projects.agent.options]
    work_dir = "/tmp/a"
  [[projects.agent.providers]]
    name = "zhipu-glm"

[[projects]]
  name = "dev"
  [[projects.agent.providers]]
    name = "aicoding"
"#;
    assert_eq!(projects_from_toml(text), vec!["master", "dev"]);
}

#[test]
fn invalid_or_empty_toml_yields_empty_list() {
    assert!(projects_from_toml("not [ valid").is_empty());
    assert!(projects_from_toml("").is_empty());
}

#[test]
fn repeated_neighbouring_projects_are_listed_once() {
    let text = "[[projects]]\nname = \"a\"\n[[projects]]\nname = \"a\"\n[[projects]]\nname = \"b\"\n[[projects]]\nname = \"a\"\n[[projects]]\nid = 3\n";
    assert_eq!(projects_from_toml(text), vec!["a", "b", "a"]);
}

#[test]
fn group_headings_and_omissions() {
    assert_eq!(group_heading(2, true, "10:00:00", "10:05:00", 3), "── 当前会话 · 自 10:00:00 · 3 条 ──");
    assert_eq!(group_heading(0, false, "09:00:00", "09:30:00", 12), "会话 1 · 09:00:00 – 09:30:00 · 12 条");
    assert_eq!(omitted_count(120), 70);
    assert_eq!(omitted_count(50), 0);
    assert_eq!(omitted_note(70), "… 已省略较早的 70 条");
}

#[test]
fn start_commands_split_into_words() {
    assert_eq!(split_words("  cc-connect  --config\t/tmp/c.toml "), vec!["cc-connect", "--config", "/tmp/c.toml"]);
    assert_eq!(split_words("a\tb\n c"), vec!["a", "b", "c"]);
    assert!(split_words("   ").is_empty());
    let (p, args) = command_parts("cc-connect -c x.toml").unwrap();
    assert_eq!(p, "cc-connect");
    assert_eq!(args, vec!["-c", "x.toml"]);
    assert!(command_parts(" \t ").is_none());
}

#[test]
fn plugin_choices_are_sorted_once() {
    let found = vec!["security-filter".to_string(), "pr-mention".to_string(), "none".to_string()];
    assert_eq!(option_list("none", &found, Some("regex")), vec!["none", "pr-mention", "regex", "security-filter"]);
    let found = vec!["slack".to_string(), "console".to_string(), "Alpha".to_string()];
    assert_eq!(option_list("console", &found, None), vec!["Alpha", "console", "slack"]);
    assert_eq!(option_list("b", &[], Some("ab")), vec!["ab", "b"]);
}
