use agent_loop::bridge::Outbound;
use agent_loop::protocol::{outbound_text, register_message};
use agent_loop::client::{Actor, ActorInput, ActorNext};
use agent_loop::config::{default_config_content, Agent};
use agent_loop::event::{render_event, render_event_pretty, SmeeEvent};
use agent_loop::event_log::LogKind;
use agent_loop::filter::{start_filters, FilterResult, FilterStep};
use agent_loop::json::parse_json;
use agent_loop::json_write::push_json_string;
use agent_loop::service::{agent_session, finish_event, plan_event, webhook_line, EventPlan};
use agent_loop::sse::Utf8Chunker;

fn sample() -> SmeeEvent {
    SmeeEvent {
        headers: vec![("x-github-event".to_string(), "issues".to_string())],
        query: vec![],
        body: parse_json(r#"{"issue":{"body":"@bot 请处理"},"action":"opened"}"#).unwrap(),
        timestamp: 1783401631255,
    }
}

fn agent() -> Agent {
    Agent {
        name: "a".to_string(),
        webhook_url: "https://smee.io/abc".to_string(),
        enabled: true,
        base_prompt: "处理 issue".to_string(),
        project: "".to_string(),
        reporter: None,
        filter_regex: None,
    }
}

#[test]
fn default_config_escapes_the_home_directory() {
    for home in ["C:\\Users\\bob", "/home/a\"b", "/home/bob", "/tmp/tab\there"] {
        let text = default_config_content(home);
        let v: serde_json::Value = serde_json::from_str(&text).unwrap();
        assert_eq!(v["defaultWorkspace"], home);
        assert!(v["subscriptions"].as_array().unwrap().is_empty());
    }
    assert_eq!(
        default_config_content("C:\\Users\\bob"),
        "{\n  \"defaultWorkspace\": \"C:\\\\Users\\\\bob\",\n  \"subscriptions\": []\n}\n"
    );
}

#[test]
fn json_strings_are_escaped_as_serde_json_does() {
    for s in ["plain", "q\"uote", "back\\slash", "nl\nr\rt\tb\u{8}f\u{c}", "ctl\u{1}\u{1f}", "中文 ✅", "del\u{7f}/"] {
        let mut v: Vec<char> = Vec::new();
        push_json_string(&mut v, s);
        let ours: String = v.into_iter().collect();
        assert_eq!(ours, serde_json::to_string(s).unwrap());
    }
}

#[test]
fn event_text_keeps_field_order() {
    assert_eq!(
        render_event(&sample()),
        r#"{"headers":{"x-github-event":"issues"},"query":{},"body":{"action":"opened","issue":{"body":"@bot 请处理"}},"timestamp":1783401631255}"#
    );
    let mut e = sample();
    e.query = vec![("a".to_string(), "1".to_string()), ("b".to_string(), "x\"y".to_string())];
    assert_eq!(
        render_event(&e),
        r#"{"headers":{"x-github-event":"issues"},"query":{"a":"1","b":"x\"y"},"body":{"action":"opened","issue":{"body":"@bot 请处理"}},"timestamp":1783401631255}"#
    );
}

#[test]
fn filters_see_headers_before_body() {
    match start_filters(sample(), Some("headers.*body"), None).unwrap() {
        FilterStep::Decided(fr) => assert!(fr.allow),
        _ => panic!("expected a decision"),
    }
    match start_filters(sample(), Some("body.*headers"), None).unwrap() {
        FilterStep::Decided(fr) => assert!(!fr.allow),
        _ => panic!("expected a decision"),
    }
    match start_filters(sample(), None, Some("p")).unwrap() {
        FilterStep::RunPolicy { input, .. } => assert_eq!(input, render_event(&sample())),
        _ => panic!("expected the plugin to run"),
    }
}

#[test]
fn webhook_detail_is_indented_in_field_order() {
    let expected = "{\n  \"headers\": {\n    \"x-github-event\": \"issues\"\n  },\n  \"query\": {},\n  \"body\": {\n    \"action\": \"opened\",\n    \"issue\": {\n      \"body\": \"@bot 请处理\"\n    }\n  },\n  \"timestamp\": 1783401631255\n}";
    assert_eq!(render_event_pretty(&sample()), expected);
    let s = agent_session(&agent());
    let line = webhook_line(&s, &sample());
    assert_eq!(line.kind, LogKind::Webhook);
    assert_eq!(line.summary, "收到 Webhook 事件");
    assert_eq!(line.detail, expected);
    let mut e = sample();
    e.headers.push(("b".to_string(), "2".to_string()));
    e.body = parse_json("7").unwrap();
    assert_eq!(
        render_event_pretty(&e),
        "{\n  \"headers\": {\n    \"x-github-event\": \"issues\",\n    \"b\": \"2\"\n  },\n  \"query\": {},\n  \"body\": 7,\n  \"timestamp\": 1783401631255\n}"
    );
}

#[test]
fn chunker_drops_an_invalid_tail_and_keeps_an_unfinished_one() {
    let mut c = Utf8Chunker::new();
    assert_eq!(c.feed(&[b'a', 0xf0, 0x28]), "a");
    assert_eq!(c.feed(b"b"), "b");
    let crab = "🦀".as_bytes();
    assert_eq!(c.feed(&[b'x', crab[0], crab[1]]), "x");
    assert_eq!(c.feed(&crab[2..]), "🦀");
}

#[test]
fn backoff_doubles_up_to_a_minute_and_resets() {
    let mut actor = Actor::new();
    let mut waits = Vec::new();
    for k in 0..9 {
        let input = if k % 2 == 0 {
            ActorInput::ConnectFailed("refused".to_string())
        } else {
            ActorInput::ServeEnded(Some("reset".to_string()))
        };
        match actor.step("agent-loop", input).next {
            ActorNext::Retry(w) => waits.push(w),
            _ => panic!("expected a retry"),
        }
    }
    assert_eq!(waits, vec![1, 2, 4, 8, 16, 32, 60, 60, 60]);
    actor.step("agent-loop", ActorInput::Connected);
    match actor.step("agent-loop", ActorInput::ConnectFailed("refused".to_string())).next {
        ActorNext::Retry(w) => assert_eq!(w, 1),
        _ => panic!("expected a retry"),
    }
}

#[test]
fn events_are_planned_and_finished() {
    let a = agent();
    let s = agent_session(&a);
    match plan_event(&a, &s, Err("坏的正则".to_string())) {
        EventPlan::Skip(l) => {
            assert_eq!(l.kind, LogKind::Error);
            assert_eq!(l.summary, "过滤器错误: 坏的正则");
        }
        _ => panic!("expected a skip"),
    }
    match plan_event(&a, &s, Ok(FilterResult { allow: false, event: sample() })) {
        EventPlan::Skip(l) => assert_eq!(l.summary, "🚫 事件已被过滤，跳过"),
        _ => panic!("expected a skip"),
    }
    match plan_event(&a, &s, Ok(FilterResult { allow: true, event: sample() })) {
        EventPlan::Submit { actions, line, prompt } => {
            assert_eq!(actions, vec!["cmd:/dir".to_string(), "cmd:/current".to_string()]);
            assert!(prompt.starts_with("处理 issue"));
            assert_eq!(line.summary, "🤖 已提交 cc-connect，等待执行结果...");
            assert_eq!(line.detail, prompt);
            assert_eq!(line.session_key, s.session_key);
        }
        _ => panic!("expected a submission"),
    }
    let (line, result) = finish_event(&a, &s, "p".to_string(), 0, 12_500_000_000, Ok("done".to_string()));
    assert_eq!(line.kind, LogKind::Result);
    assert_eq!(line.summary, "执行完成（12s）");
    assert_eq!(line.detail, "done");
    assert!(result.success);
    assert_eq!(result.output, "done");
    assert_eq!(result.error, None);
    assert_eq!(result.prompt, "p");
    assert_eq!(result.subscription_name, "a");
    let (line, result) = finish_event(&a, &s, "p".to_string(), 5, 3_000_000_005, Err("超时".to_string()));
    assert_eq!(line.kind, LogKind::Error);
    assert_eq!(line.summary, "执行失败（3s）: 超时");
    assert!(!result.success);
    assert_eq!(result.output, "");
    assert_eq!(result.error, Some("超时".to_string()));
    assert_eq!(result.finished_at, 3_000_000_005);
}

#[test]
fn outgoing_frames_keep_type_first_and_field_order() {
    assert_eq!(
        outbound_text(&register_message("agent-loop", "0.1.0")),
        r#"{"type":"register","platform":"agent-loop","capabilities":["text","buttons"],"metadata":{"description":"Agent Loop Bridge 适配器","permission_mode":"bypassPermissions","protocol_version":1,"version":"0.1.0"}}"#
    );
    let msg = Outbound::Message {
        msg_id: "m-1".into(),
        session_key: "agent-loop:a:a".into(),
        user_id: "a".into(),
        user_name: "A".into(),
        content: "line\n\"q\"".into(),
        reply_ctx: "ctx".into(),
        project: Some("master".into()),
    };
    assert_eq!(
        outbound_text(&msg),
        r#"{"type":"message","msg_id":"m-1","session_key":"agent-loop:a:a","user_id":"a","user_name":"A","content":"line\n\"q\"","reply_ctx":"ctx","project":"master"}"#
    );
    let action = Outbound::CardAction {
        session_key: "k".into(),
        action: "cmd:/dir".into(),
        reply_ctx: "".into(),
        project: None,
    };
    assert_eq!(
        outbound_text(&action),
        r#"{"type":"card_action","session_key":"k","action":"cmd:/dir","reply_ctx":""}"#
    );
    assert_eq!(outbound_text(&Outbound::Ping { ts: 42 }), r#"{"type":"ping","ts":42}"#);
}

#[test]
fn any_chunking_reassembles_the_text() {
    let text = "a€🦀中 x\nÿ";
    let bytes = text.as_bytes();
    for size in 1..=bytes.len() {
        let mut c = Utf8Chunker::new();
        let mut out = String::new();
        for chunk in bytes.chunks(size) {
            out.push_str(&c.feed(chunk));
        }
        assert_eq!(out, text, "chunk size {size}");
    }
    for cut in 0..=bytes.len() {
        let mut c = Utf8Chunker::new();
        let mut out = c.feed(&bytes[..cut]);
        out.push_str(&c.feed(&bytes[cut..]));
        assert_eq!(out, text, "cut at {cut}");
    }
}
