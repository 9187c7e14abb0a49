use agent_loop::bridge::{pick_allow_action, truncate, BridgeButton, Inbound, Outbound};
use agent_loop::client::{
    connect_url, handle_inbound, next_backoff, register_reply, Actor, ActorInput, ActorNext, InboundAction,
    PendingReplies, RegisterReply,
};
use agent_loop::conn::ConnState;
use agent_loop::event_log::LogKind;
use agent_loop::protocol::{outbound_text, parse_inbound, register_message};

fn json(text: &str) -> serde_json::Value {
    serde_json::from_str(text).unwrap()
}

#[test]
fn outbound_uses_protocol_type_tags() {
    let register = register_message("agent-loop", "0.1.0");
    let v = json(&outbound_text(&register));
    assert_eq!(v["type"], "register");
    assert_eq!(v["platform"], "agent-loop");
    assert_eq!(v["capabilities"][1], "buttons");
    assert_eq!(v["metadata"]["protocol_version"], 1);
    assert_eq!(v["metadata"]["permission_mode"], "bypassPermissions");

    let action = Outbound::CardAction {
        session_key: "agent-loop:a:a".into(),
        action: "perm:req-1:allow".into(),
        reply_ctx: "ctx-1".into(),
        project: None,
    };
    let v = json(&outbound_text(&action));
    assert_eq!(v["type"], "card_action");
    assert!(v.get("project").is_none());

    let ping = Outbound::Ping { ts: 123 };
    let v = json(&outbound_text(&ping));
    assert_eq!(v["type"], "ping");
    assert_eq!(v["ts"], 123);
}

#[test]
fn routed_messages_carry_their_project() {
    let msg = Outbound::Message {
        msg_id: "m-1".into(),
        session_key: "agent-loop:a:a".into(),
        user_id: "a".into(),
        user_name: "A".into(),
        content: "hello".into(),
        reply_ctx: "ctx".into(),
        project: Some("master".into()),
    };
    let v = json(&outbound_text(&msg));
    assert_eq!(
        v,
        json(r#"{"type":"message","msg_id":"m-1","session_key":"agent-loop:a:a","user_id":"a","user_name":"A","content":"hello","reply_ctx":"ctx","project":"master"}"#)
    );
}

#[test]
fn inbound_parses_protocol_messages() {
    let ack = parse_inbound(r#"{"type":"register_ack","ok":true,"error":""}"#).unwrap();
    assert!(matches!(ack, Inbound::RegisterAck { ok: true, .. }));

    let reply = parse_inbound(
        r#"{"type":"reply","session_key":"a:b:c","reply_ctx":"x","content":"done","format":"text"}"#,
    )
    .unwrap();
    match reply {
        Inbound::Reply { reply_ctx, content, .. } => {
            assert_eq!(reply_ctx, "x");
            assert_eq!(content, "done");
        }
        other => panic!("unexpected: {other:?}"),
    }

    let buttons = parse_inbound(
        r#"{"type":"buttons","session_key":"a:b:c","reply_ctx":"x","content":"允许？",
            "buttons":[[{"text":"✅ 允许","data":"perm:req-123:allow"}]]}"#,
    )
    .unwrap();
    match buttons {
        Inbound::Buttons { buttons, .. } => {
            assert_eq!(buttons[0][0].data, "perm:req-123:allow");
        }
        other => panic!("unexpected: {other:?}"),
    }
}

#[test]
fn unknown_inbound_types_fall_into_other() {
    for raw in [
        r#"{"type":"reply_stream","delta":"...","done":false}"#,
        r#"{"type":"typing_start","session_key":"a:b:c"}"#,
        r#"{"type":"card","session_key":"a:b:c","card":{}}"#,
    ] {
        let msg = parse_inbound(raw).unwrap();
        assert!(matches!(msg, Inbound::Other), "should ignore: {raw}");
    }
}

#[test]
fn inbound_defaults_and_refusals() {
    match parse_inbound(r#"{"type":"reply"}"#).unwrap() {
        Inbound::Reply { session_key, reply_ctx, content } => {
            assert!(session_key.is_empty() && reply_ctx.is_empty() && content.is_empty());
        }
        other => panic!("unexpected: {other:?}"),
    }
    assert!(matches!(parse_inbound(r#"{"type":"pong"}"#), Some(Inbound::Pong { ts: 0 })));
    assert!(matches!(parse_inbound(r#"{"type":"pong","ts":77}"#), Some(Inbound::Pong { ts: 77 })));
    assert!(parse_inbound(r#"{"type":"pong","ts":-1}"#).is_none());
    assert!(parse_inbound(r#"{"type":"pong","ts":1.5}"#).is_none());
    assert!(parse_inbound(r#"{"type":"register_ack"}"#).is_none());
    assert!(parse_inbound(r#"{"type":"reply","content":5}"#).is_none());
    assert!(parse_inbound(r#"{"type":"buttons","buttons":[{"text":"x"}]}"#).is_none());
    assert!(parse_inbound(r#"{"content":"no type"}"#).is_none());
    assert!(parse_inbound("[1,2]").is_none());
    assert!(parse_inbound("not json").is_none());
}

fn button(text: &str, data: &str) -> BridgeButton {
    BridgeButton { text: text.to_string(), data: data.to_string() }
}

#[test]
fn allow_button_is_found_row_by_row() {
    let rows = vec![
        vec![button("❌ 拒绝", "perm:req-1:deny")],
        vec![button("✅ 允许", "perm:req-1:allow"), button("Allow all", "x")],
    ];
    assert_eq!(pick_allow_action(&rows), Some("perm:req-1:allow".to_string()));
    assert_eq!(pick_allow_action(&[vec![button("OK", "PERM:1:APPROVE")]]), Some("PERM:1:APPROVE".to_string()));
    assert_eq!(pick_allow_action(&[vec![button("同意", "d")]]), Some("d".to_string()));
    assert_eq!(pick_allow_action(&[vec![button("no", "perm:allowed")]]), None);
    assert_eq!(pick_allow_action(&[]), None);
}

#[test]
fn truncation_adds_an_ellipsis() {
    assert_eq!(truncate("abc", 3), "abc");
    assert_eq!(truncate("abcd", 3), "abc…");
    assert_eq!(truncate("中文字符", 2), "中文…");
}

#[test]
fn replies_reach_the_waiting_request_once() {
    let mut pending = PendingReplies::new();
    pending.insert("ctx-1".to_string(), 7);
    pending.insert("ctx-2".to_string(), 8);
    assert_eq!(pending.len(), 2);
    let reply = r#"{"type":"reply","session_key":"s","reply_ctx":"ctx-1","content":"任务完成"}"#;
    match handle_inbound(reply, &mut pending) {
        InboundAction::Deliver { ticket, content } => {
            assert_eq!(ticket, 7);
            assert_eq!(content, "任务完成");
        }
        _ => panic!("expected delivery"),
    }
    assert_eq!(pending.len(), 1);
    // the same reply again is a push nobody waits for
    match handle_inbound(reply, &mut pending) {
        InboundAction::Log(line) => {
            assert_eq!(line.kind, LogKind::System);
            assert_eq!(line.summary, "📩 任务完成");
            assert_eq!(line.detail, "任务完成");
        }
        _ => panic!("expected a log line"),
    }
    let mut left = pending.drain();
    left.sort();
    assert_eq!(left, vec![8]);
    assert_eq!(pending.len(), 0);
}

#[test]
fn insert_replaces_a_waiting_request() {
    let mut pending = PendingReplies::new();
    pending.insert("ctx".to_string(), 1);
    pending.insert("ctx".to_string(), 2);
    assert_eq!(pending.len(), 1);
    assert_eq!(pending.take("ctx"), Some(2));
    assert_eq!(pending.take("ctx"), None);
}

#[test]
fn permission_buttons_are_pressed() {
    let mut pending = PendingReplies::new();
    let msg = r#"{"type":"buttons","session_key":"agent-loop:t:t","reply_ctx":"r-1","content":"允许执行工具：bash(ls)？",
        "buttons":[[{"text":"✅ 允许","data":"perm:req-1:allow"},{"text":"❌ 拒绝","data":"perm:req-1:deny"}]]}"#;
    match handle_inbound(msg, &mut pending) {
        InboundAction::AutoAllow { log, reply } => {
            assert_eq!(log.summary, "🔓 自动允许权限请求: 允许执行工具：bash(ls)？");
            let v = json(&outbound_text(&reply));
            assert_eq!(v["type"], "card_action");
            assert_eq!(v["action"], "perm:req-1:allow");
            assert_eq!(v["reply_ctx"], "r-1");
            assert_eq!(v["session_key"], "agent-loop:t:t");
        }
        _ => panic!("expected an automatic allow"),
    }
    let none = r#"{"type":"buttons","content":"选择模型","buttons":[[{"text":"k2","data":"model:k2"}]]}"#;
    match handle_inbound(none, &mut pending) {
        InboundAction::Log(line) => assert_eq!(line.summary, "⚠️ 收到无法自动处理的按钮消息，已忽略: 选择模型"),
        _ => panic!("expected a log line"),
    }
}

#[test]
fn errors_and_garbage_are_logged() {
    let mut pending = PendingReplies::new();
    match handle_inbound(r#"{"type":"error","code":"E1","message":"bad"}"#, &mut pending) {
        InboundAction::Log(line) => {
            assert_eq!(line.kind, LogKind::Error);
            assert_eq!(line.source, "cc-connect");
            assert_eq!(line.summary, "[E1] bad");
        }
        _ => panic!("expected an error line"),
    }
    let long = "x".repeat(2100);
    match handle_inbound(&long, &mut pending) {
        InboundAction::Log(line) => {
            assert_eq!(line.summary, "收到无法解析的消息");
            assert_eq!(line.detail.chars().count(), 2001);
        }
        _ => panic!("expected an error line"),
    }
    assert!(matches!(handle_inbound(r#"{"type":"pong","ts":1}"#, &mut pending), InboundAction::Ignore));
}

#[test]
fn registration_answers() {
    assert!(matches!(register_reply(r#"{"type":"register_ack","ok":true,"error":""}"#), RegisterReply::Accepted));
    match register_reply(r#"{"type":"register_ack","ok":false,"error":"bad token"}"#) {
        RegisterReply::Rejected(e) => assert_eq!(e, "bad token"),
        _ => panic!("expected a rejection"),
    }
    assert!(matches!(register_reply(r#"{"type":"pong"}"#), RegisterReply::Ignore));
}

#[test]
fn reconnect_waits_double_up_to_a_minute() {
    let mut b = 1;
    let mut seen = vec![];
    for _ in 0..8 {
        seen.push(b);
        b = next_backoff(b);
    }
    assert_eq!(seen, vec![1, 2, 4, 8, 16, 32, 60, 60]);
}

#[test]
fn actor_resets_after_registering() {
    let mut actor = Actor::new();
    let step = actor.step("agent-loop", ActorInput::ConnectFailed("refused".to_string()));
    assert_eq!(step.status, ConnState::Disconnected);
    assert!(matches!(step.next, ActorNext::Retry(1)));
    assert_eq!(step.logs[0].summary, "连接失败: refused");
    assert_eq!(step.logs[1].summary, "⏳ 1 秒后重连...");
    let step = actor.step("agent-loop", ActorInput::ConnectFailed("refused".to_string()));
    assert!(matches!(step.next, ActorNext::Retry(2)));
    assert_eq!(actor.wait_secs(), 4);
    let step = actor.step("agent-loop", ActorInput::Connected);
    assert_eq!(step.status, ConnState::Connected);
    assert_eq!(step.logs[0].summary, "✅ 已注册到 cc-connect（platform: agent-loop, 权限模式: bypassPermissions）");
    assert_eq!(actor.wait_secs(), 1);
    let step = actor.step("agent-loop", ActorInput::ServeEnded(Some("reset".to_string())));
    assert!(matches!(step.next, ActorNext::Retry(1)));
    assert_eq!(step.logs[0].summary, "连接中断: reset");
    let step = actor.step("agent-loop", ActorInput::ServeEnded(None));
    assert!(matches!(step.next, ActorNext::Stop));
    let (state, line) = actor.attempt("ws://localhost:9810/bridge/ws");
    assert_eq!(state, ConnState::Connecting);
    assert_eq!(line.summary, "🔌 正在连接 cc-connect: ws://localhost:9810/bridge/ws");
}

#[test]
fn connect_url_carries_the_token() {
    assert_eq!(
        connect_url("ws://127.0.0.1:9810/bridge/ws", "secret-token").unwrap(),
        "ws://127.0.0.1:9810/bridge/ws?token=secret-token"
    );
    assert_eq!(connect_url("ws://localhost:9810/bridge/ws", "").unwrap(), "ws://localhost:9810/bridge/ws");
    assert_eq!(connect_url("not a url", "t").unwrap_err(), "WS 地址无效: not a url");
}
