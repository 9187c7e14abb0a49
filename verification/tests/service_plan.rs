use agent_loop::config::{Agent, AppConfig};
use agent_loop::event_log::LogKind;
use agent_loop::service::{
    agent_session, enabled_agents, outcome_line, parse_filter, plan_ctrl, plan_service, probe_actions,
    project_for_name, project_for_session, project_of, session_bindings, session_identity, session_key_for,
    BridgeRequest, CtrlCmd,
};

fn agent(name: &str, enabled: bool, project: &str) -> Agent {
    Agent {
        name: name.to_string(),
        webhook_url: "https://smee.io/abc".to_string(),
        enabled,
        base_prompt: "处理 issue".to_string(),
        project: project.to_string(),
        reporter: Some("console".to_string()),
        filter_regex: None,
    }
}

fn hex6(s: &str) -> bool {
    s.len() == 6 && s.chars().all(|c| c.is_ascii_digit() || ('a'..='f').contains(&c))
}

#[test]
fn identity_keeps_readable_ascii_and_adds_a_hash() {
    let id = session_identity("Issue 处理");
    assert!(id.starts_with("issue-"), "{id}");
    assert!(hex6(&id["issue-".len()..]), "{id}");
    let id = session_identity("处理");
    assert!(id.starts_with("sub-"), "{id}");
    assert!(hex6(&id["sub-".len()..]), "{id}");
    let id = session_identity("--My_Bot--");
    assert!(id.starts_with("my-bot-"), "{id}");
    assert!(hex6(&id["my-bot-".len()..]), "{id}");
    assert_eq!(session_identity("a"), session_identity("a"));
    assert!(session_identity("Issue 处理")
        .chars()
        .all(|c| c.is_ascii_lowercase() || c.is_ascii_digit() || c == '-'));
}

#[test]
fn session_key_repeats_the_identity() {
    let id = session_identity("issue处理");
    assert_eq!(session_key_for("issue处理"), format!("agent-loop:{id}:{id}"));
    assert_eq!(session_key_for("x"), session_key_for("x"));
}

#[test]
fn filter_settings_are_read() {
    assert_eq!(parse_filter(None), (None, None));
    assert_eq!(parse_filter(Some("none")), (None, None));
    assert_eq!(parse_filter(Some("")), (None, None));
    assert_eq!(parse_filter(Some("regex:")), (None, None));
    assert_eq!(parse_filter(Some("regex:@bot && opened")), (Some("@bot && opened".to_string()), None));
    assert_eq!(parse_filter(Some("security-filter")), (None, Some("security-filter".to_string())));
}

#[test]
fn blank_project_means_the_default_one() {
    assert_eq!(project_of(&agent("a", true, "  master ")), Some("master".to_string()));
    assert_eq!(project_of(&agent("a", true, "   ")), None);
    assert_eq!(project_of(&agent("a", true, "")), None);
}

#[test]
fn bindings_follow_the_enabled_agents() {
    let agents = vec![agent("a", true, "p1"), agent("b", false, "p2"), agent("c", true, "")];
    let enabled = enabled_agents(&agents);
    assert_eq!(enabled.iter().map(|a| a.name.as_str()).collect::<Vec<_>>(), vec!["a", "c"]);
    let bindings = session_bindings(&enabled);
    assert_eq!(bindings.len(), 2);
    assert_eq!(bindings[0].session_key, session_key_for("a"));
    assert_eq!(bindings[0].project, Some("p1".to_string()));
    assert_eq!(bindings[1].project, None);
    assert_eq!(project_for_session(&bindings, &session_key_for("a")), Some("p1".to_string()));
    assert_eq!(project_for_session(&bindings, "agent-loop:zz:zz"), None);
    // the last agent of a name wins, as in a map built in order
    let twice = vec![agent("a", true, "p1"), agent("a", true, "p9")];
    assert_eq!(project_for_name(&twice, "a"), Some("p9".to_string()));
    assert_eq!(project_for_session(&session_bindings(&twice), &session_key_for("a")), Some("p9".to_string()));
}

#[test]
fn control_commands_become_bridge_requests() {
    let agents = vec![agent("a", true, "p1")];
    let bindings = session_bindings(&agents);
    let key = session_key_for("a");

    let plan = plan_ctrl(CtrlCmd::ClearSession { session_key: key.clone() }, &bindings, &agents);
    let log = plan.log.unwrap();
    assert_eq!(log.summary, "🧹 请求清除会话上下文（/new）");
    assert_eq!(log.source, "系统");
    match plan.request {
        BridgeRequest::CardAction { session_key, project, action } => {
            assert_eq!(session_key, key);
            assert_eq!(project, Some("p1".to_string()));
            assert_eq!(action, "cmd:/new");
        }
        _ => panic!("expected a card action"),
    }

    let plan = plan_ctrl(
        CtrlCmd::CardAction { session_key: key.clone(), action: "cmd:/model switch k2".to_string() },
        &bindings,
        &agents,
    );
    assert!(plan.log.is_none());
    assert!(matches!(plan.request, BridgeRequest::CardAction { ref action, .. } if action == "cmd:/model switch k2"));

    let plan = plan_ctrl(CtrlCmd::Message { sub_name: "a".to_string(), content: "你好".to_string() }, &bindings, &agents);
    let log = plan.log.unwrap();
    assert_eq!(log.summary, "📤 已推送手动消息，等待执行结果...");
    assert_eq!(log.detail, "你好");
    assert_eq!(log.session_key, key);
    match plan.request {
        BridgeRequest::Ask { session_key, project, user_id, user_name, content } => {
            assert_eq!(session_key, key);
            assert_eq!(project, Some("p1".to_string()));
            assert_eq!(user_id, session_identity("a"));
            assert_eq!(user_name, "a");
            assert_eq!(content, "你好");
        }
        _ => panic!("expected a request"),
    }
}

#[test]
fn service_start_warns_about_token_and_agents() {
    let config = AppConfig {
        ws_url: "ws://localhost:9810/bridge/ws".to_string(),
        bridge_token: "   ".to_string(),
        cc_connect_command: "cc-connect".to_string(),
        agents: vec![agent("a", false, "")],
    };
    let plan = plan_service(&config);
    assert_eq!(plan.warnings.len(), 2);
    assert_eq!(plan.warnings[0].summary, "⚠️ 未配置 Bridge Token，cc-connect 可能拒绝连接（HTTP 401）");
    assert_eq!(plan.warnings[1].summary, "⚠️ 没有启用的订阅，仅维持与 cc-connect 的连接");
    assert!(plan.agents.is_empty());
    let config = AppConfig { bridge_token: " tok ".to_string(), agents: vec![agent("a", true, "")], ..config };
    let plan = plan_service(&config);
    assert!(plan.warnings.is_empty());
    assert_eq!(plan.token, "tok");
    assert_eq!(plan.bindings.len(), 1);
}

#[test]
fn agent_sessions_and_outcomes() {
    let mut a = agent("a", true, " p ");
    a.filter_regex = Some("regex:@bot".to_string());
    let s = agent_session(&a);
    assert_eq!(s.session_key, session_key_for("a"));
    assert_eq!(s.project, Some("p".to_string()));
    assert_eq!(s.filter_regex, Some("@bot".to_string()));
    assert_eq!(s.wasm_policy, None);
    let probes = probe_actions();
    assert_eq!(probes, vec!["cmd:/dir".to_string(), "cmd:/current".to_string()]);

    let ok = outcome_line("a", "k", "执行", 12, &Ok("output".to_string()));
    assert_eq!(ok.kind, LogKind::Result);
    assert_eq!(ok.summary, "执行完成（12s）");
    assert_eq!(ok.detail, "output");
    let err = outcome_line("a", "k", "手动消息执行", 3, &Err("超时".to_string()));
    assert_eq!(err.kind, LogKind::Error);
    assert_eq!(err.summary, "手动消息执行失败（3s）: 超时");
    assert_eq!(err.detail, "");
}
