use agent_loop::event::{event_from_json, event_to_json, parse_smee_payload, parse_u64, SmeeEvent};
use agent_loop::filter::{
    finish_policy, read_policy_output, regex_conditions, split_and, start_filters, FilterError, FilterStep,
};
use agent_loop::frame::write_output;
use agent_loop::json::{parse_json, render_json, JsonValue};

fn sample() -> SmeeEvent {
    SmeeEvent {
        headers: vec![("x-github-event".to_string(), "issues".to_string())],
        query: vec![],
        body: parse_json(r#"{"action":"opened","issue":{"body":"@bot 请处理"}}"#).unwrap(),
        timestamp: 1783401631255,
    }
}

#[test]
fn payloads_keep_string_headers_and_query() {
    let e = parse_smee_payload(
        r#"{"headers":{"a":"1","b":2},"query":{"q":"x"},"body":{"k":true},"x-extra":1}"#,
    )
    .unwrap();
    assert_eq!(e.headers, vec![("a".to_string(), "1".to_string())]);
    assert_eq!(e.query, vec![("q".to_string(), "x".to_string())]);
    assert_eq!(render_json(&e.body), r#"{"k":true}"#);
    assert!(e.timestamp > 1_600_000_000_000);
    let e = parse_smee_payload(r#"{"headers":"nope"}"#).unwrap();
    assert!(e.headers.is_empty() && e.query.is_empty());
    assert!(matches!(e.body, JsonValue::Null));
    assert!(parse_smee_payload("[1]").is_none());
    assert!(parse_smee_payload("garbage").is_none());
}

#[test]
fn events_read_back_from_their_json() {
    let e = sample();
    let back = event_from_json(&event_to_json(&e)).unwrap();
    assert_eq!(back.headers, e.headers);
    assert_eq!(back.query, e.query);
    assert_eq!(render_json(&back.body), render_json(&e.body));
    assert_eq!(back.timestamp, e.timestamp);
    let text = render_json(&event_to_json(&e));
    let v: serde_json::Value = serde_json::from_str(&text).unwrap();
    assert_eq!(v["timestamp"], 1783401631255u64);
    assert_eq!(v["headers"]["x-github-event"], "issues");
}

#[test]
fn event_shapes_that_do_not_read_back() {
    let j = |t: &str| parse_json(t).unwrap();
    assert!(event_from_json(&j(r#"{"headers":{},"query":{},"body":1}"#)).is_none());
    assert!(event_from_json(&j(r#"{"headers":{"a":1},"query":{},"body":1,"timestamp":0}"#)).is_none());
    assert!(event_from_json(&j(r#"{"headers":{},"query":{},"body":1,"timestamp":-5}"#)).is_none());
    assert!(event_from_json(&j(r#"{"headers":{},"query":{},"timestamp":5}"#)).is_none());
    let arr = event_from_json(&j(r#"[{"h":"v"},{},null,9]"#)).unwrap();
    assert_eq!(arr.headers, vec![("h".to_string(), "v".to_string())]);
    assert_eq!(arr.timestamp, 9);
    assert!(event_from_json(&j(r#"[{},{},null]"#)).is_none());
}

#[test]
fn numbers_read_as_u64() {
    assert_eq!(parse_u64("0"), Some(0));
    assert_eq!(parse_u64("18446744073709551615"), Some(u64::MAX));
    assert_eq!(parse_u64("18446744073709551616"), None);
    assert_eq!(parse_u64("1.0"), None);
    assert_eq!(parse_u64("-1"), None);
    assert_eq!(parse_u64(""), None);
}

#[test]
fn pattern_settings_split_into_conditions() {
    assert_eq!(split_and("a&&b && c"), vec!["a", "b ", " c"]);
    assert_eq!(split_and("a&&&b"), vec!["a", "&b"]);
    assert_eq!(split_and(""), vec![""]);
    assert_eq!(regex_conditions(" @bot &&  && opened "), vec!["@bot", "opened"]);
    assert!(regex_conditions("   ").is_empty());
}

#[test]
fn every_condition_must_match() {
    match start_filters(sample(), Some("@bot && opened"), None).unwrap() {
        FilterStep::Decided(fr) => assert!(fr.allow),
        _ => panic!("expected a decision"),
    }
    match start_filters(sample(), Some("@bot && closed"), None).unwrap() {
        FilterStep::Decided(fr) => assert!(!fr.allow),
        _ => panic!("expected a decision"),
    }
    match start_filters(sample(), Some("@bot && ("), None) {
        Err(FilterError::InvalidRegex(p)) => {
            assert_eq!(p, "(");
            assert_eq!(FilterError::InvalidRegex(p).message(), "正则表达式无效: (");
        }
        _ => panic!("expected an invalid pattern"),
    }
    match start_filters(sample(), None, Some("security-filter")).unwrap() {
        FilterStep::RunPolicy { plugin, input, .. } => {
            assert_eq!(plugin, "security-filter");
            let v: serde_json::Value = serde_json::from_str(&input).unwrap();
            assert_eq!(v["body"]["action"], "opened");
        }
        _ => panic!("expected the plugin to run"),
    }
    match start_filters(sample(), None, None).unwrap() {
        FilterStep::Decided(fr) => assert!(fr.allow),
        _ => panic!("expected a decision"),
    }
}

#[test]
fn plugin_answers() {
    let fr = finish_policy(sample(), r#"{"allow":false}"#).unwrap();
    assert!(!fr.allow);
    let fr = finish_policy(
        sample(),
        r#"{"allow":true,"json":{"headers":{},"query":{},"body":{"x":1},"timestamp":5}}"#,
    )
    .unwrap();
    assert!(fr.allow);
    assert!(fr.event.headers.is_empty());
    assert_eq!(fr.event.timestamp, 5);
    let fr = finish_policy(sample(), r#"{"allow":true,"json":"not an event"}"#).unwrap();
    assert_eq!(fr.event.timestamp, 1783401631255);
    assert_eq!(finish_policy(sample(), "oops").err(), Some(FilterError::OutputNotJson));
    assert_eq!(finish_policy(sample(), r#"{"allow":"yes"}"#).err(), Some(FilterError::MissingAllow));
    assert_eq!(FilterError::MissingAllow.message(), "WASM 输出必须包含布尔类型的 'allow' 字段");
}

#[test]
fn plugin_memory_is_read_through_the_frame() {
    let mut mem = vec![0u8; 3];
    mem.extend(write_output(br#"{"allow":true}"#));
    assert_eq!(read_policy_output(&mem, 3).unwrap(), r#"{"allow":true}"#);
    assert_eq!(read_policy_output(&mem, mem.len() - 2).err(), Some(FilterError::LengthOutOfBounds));
    let short = &mem[..mem.len() - 1];
    assert_eq!(read_policy_output(short, 3).err(), Some(FilterError::DataOutOfBounds));
    let mut bad = write_output(&[0xff, 0xfe]);
    bad.push(0);
    assert_eq!(read_policy_output(&bad, 0).err(), Some(FilterError::OutputNotUtf8));
}
