use agent_loop::json::JsonValue;
use agent_loop::mention::{evaluate_issue, evaluate_pr, process, MentionPolicy};

const ISSUE_MENTION: &str = "@claude01";
const PR_MENTION: &str = "@claude0805";

fn event(body: &str) -> String {
    format!(r#"{{"headers":{{}},"query":{{}},"body":{body},"timestamp":1783401631255}}"#)
}

fn new_issue_body(issue_text: &str) -> String {
    format!(
        r#"{{"action":"opened","issue":{{"number":1,"title":"测试","body":"{issue_text}"}},"repository":{{"full_name":"Instaon/insta-develop-skills"}}}}"#
    )
}

fn comment_body(issue_text: &str, comment_text: &str) -> String {
    format!(
        r#"{{"action":"created","issue":{{"number":1,"title":"测试","body":"{issue_text}"}},"comment":{{"id":4900436262,"body":"{comment_text}"}},"repository":{{"full_name":"Instaon/insta-develop-skills"}}}}"#
    )
}

fn pr_body(action: &str, title: &str, text: &str) -> String {
    format!(
        r#"{{"action":"{action}","number":2,"pull_request":{{"number":2,"title":"{title}","body":"{text}"}},"repository":{{"full_name":"Instaon/insta-develop-skills"}}}}"#
    )
}

fn issue(input: &str) -> Option<JsonValue> {
    evaluate_issue(input, ISSUE_MENTION)
}

fn pr(input: &str) -> Option<JsonValue> {
    evaluate_pr(input, PR_MENTION)
}

fn is_true(v: Option<&JsonValue>) -> bool {
    matches!(v, Some(JsonValue::Bool(true)))
}

fn str_is(v: Option<&JsonValue>, s: &str) -> bool {
    matches!(v, Some(JsonValue::Str(t)) if t == s)
}

fn num_is(v: Option<&JsonValue>, s: &str) -> bool {
    matches!(v, Some(JsonValue::Number(t)) if t == s)
}

fn empty_object(v: Option<&JsonValue>) -> bool {
    matches!(v, Some(JsonValue::Object(m)) if m.is_empty())
}

#[test]
fn allows_new_issue_with_mention() {
    let out = issue(&event(&new_issue_body("请处理 @claude01 谢谢"))).unwrap();
    assert!(is_true(out.get("allow")));
    let json = out.get("json").unwrap();
    assert!(str_is(json.get("body").unwrap().get("action"), "opened"));
    assert!(empty_object(json.get("headers")));
}

#[test]
fn allows_comment_with_mention_in_comment_body() {
    let out = issue(&event(&comment_body("普通正文", "@claude01 看一下"))).unwrap();
    assert!(is_true(out.get("allow")));
    let comment = out.get("json").unwrap().get("body").unwrap().get("comment").unwrap();
    assert!(num_is(comment.get("id"), "4900436262"));
}

#[test]
fn comment_event_ignores_issue_body_mention() {
    assert!(issue(&event(&comment_body("正文有 @claude01", "无关回复"))).is_none());
}

#[test]
fn does_not_match_other_account() {
    assert!(issue(&event(&new_issue_body("请处理 @claude0805"))).is_none());
    assert!(issue(&event(&comment_body("正文", "@claude0805 看一下"))).is_none());
}

#[test]
fn opened_event_ignores_comment_field() {
    let b = r#"{"action":"opened","issue":{"number":1,"title":"测试","body":"普通正文"},"repository":{"full_name":"Instaon/insta-develop-skills"},"comment":{"body":"@claude01"}}"#;
    assert!(issue(&event(b)).is_none());
}

#[test]
fn created_without_comment_object_is_filtered() {
    let b = r#"{"action":"created","issue":{"number":1,"title":"测试","body":"@claude01"},"repository":{"full_name":"Instaon/insta-develop-skills"}}"#;
    assert!(issue(&event(b)).is_none());
}

#[test]
fn filters_without_mention() {
    assert!(issue(&event(&new_issue_body("测试123jjk"))).is_none());
    assert!(issue(&event(&comment_body("测试123jjk", "什么情况啊"))).is_none());
}

#[test]
fn filters_wrong_action() {
    let b = r#"{"action":"closed","issue":{"number":1,"title":"测试","body":"@claude01"}}"#;
    assert!(issue(&event(b)).is_none());
    let b = r#"{"action":"edited","issue":{"number":1,"title":"测试","body":"x"},"comment":{"id":1,"body":"@claude01"}}"#;
    assert!(issue(&event(b)).is_none());
}

#[test]
fn lib_filters_wrong_action() {
    for action in ["closed", "synchronize", "edited", "reopened"] {
        assert!(pr(&event(&pr_body(action, "t", "@claude0805"))).is_none());
    }
}

#[test]
fn filters_non_issue_events_and_bad_shapes() {
    assert!(issue(&event(r#"{"action":"created","ref":"refs/heads/main"}"#)).is_none());
    assert!(issue(&event(r#""plain string""#)).is_none());
    assert!(issue(&event(r#"{"action":123,"issue":{}}"#)).is_none());
    assert!(issue(&event("null")).is_none());
    assert!(issue("not json at all").is_none());
    assert!(issue(r#"{"no_body": true}"#).is_none());
    assert!(issue(&event(r#"{"action":"opened","issue":"oops"}"#)).is_none());
    assert!(issue(&event(r#"{"action":"opened","issue":{"body":null}}"#)).is_none());
}

#[test]
fn allows_pr_with_mention_in_body() {
    let out = pr(&event(&pr_body("opened", "docs: 补充", "@claude0805 请审查"))).unwrap();
    assert!(is_true(out.get("allow")));
    let json = out.get("json").unwrap();
    assert!(num_is(json.get("body").unwrap().get("pull_request").unwrap().get("number"), "2"));
    assert!(empty_object(json.get("headers")));
}

#[test]
fn allows_pr_with_mention_in_title() {
    assert!(pr(&event(&pr_body("opened", "@claude0805 帮忙看这个 PR", "Fixes #42"))).is_some());
}

#[test]
fn filters_pr_without_mention() {
    assert!(pr(&event(&pr_body("opened", "docs: README 补充", "Fixes #42"))).is_none());
}

#[test]
fn filters_non_pr_events_and_bad_shapes() {
    assert!(pr(&event(r#"{"action":"opened","issue":{"body":"@claude0805"}}"#)).is_none());
    assert!(pr(&event(r#""plain string""#)).is_none());
    assert!(pr(&event(r#"{"action":"opened","pull_request":"oops"}"#)).is_none());
    assert!(pr(&event(r#"{"action":123,"pull_request":{}}"#)).is_none());
    assert!(pr(&event("null")).is_none());
    assert!(pr("not json at all").is_none());
    assert!(pr(r#"{"no_body": true}"#).is_none());
    assert!(pr(&event(r#"{"action":"opened","pull_request":{"title":"t","body":null}}"#)).is_none());
}

#[test]
fn allowed_event_keeps_body_and_timestamp_only() {
    let input = r#"{"headers":{"x-github-event":"issues"},"query":{"a":"b"},"body":{"action":"opened","issue":{"body":"@claude01"}},"timestamp":42}"#;
    let out = issue(input).unwrap();
    let json = out.get("json").unwrap();
    assert!(empty_object(json.get("headers")));
    assert!(empty_object(json.get("query")));
    assert!(num_is(json.get("timestamp"), "42"));
}

#[test]
fn missing_timestamp_becomes_zero() {
    let input = r#"{"body":{"action":"opened","issue":{"body":"@claude01"}}}"#;
    let out = issue(input).unwrap();
    assert!(num_is(out.get("json").unwrap().get("timestamp"), "0"));
}

#[test]
fn process_frames_the_answer() {
    let denied = process(MentionPolicy::Issue, b"not json", ISSUE_MENTION);
    let text = br#"{"allow":false}"#;
    assert_eq!(&denied[..4], &(text.len() as u32).to_le_bytes());
    assert_eq!(&denied[4..], text);

    let input = event(&new_issue_body("@claude01"));
    let allowed = process(MentionPolicy::Issue, input.as_bytes(), ISSUE_MENTION);
    let n = u32::from_le_bytes([allowed[0], allowed[1], allowed[2], allowed[3]]) as usize;
    assert_eq!(n, allowed.len() - 4);
    let body = std::str::from_utf8(&allowed[4..]).unwrap();
    assert!(body.starts_with(r#"{"allow":true,"json":{"body":"#));

    let invalid = process(MentionPolicy::PullRequest, &[0xff, 0xfe], PR_MENTION);
    assert_eq!(&invalid[4..], text);
}
