//! Mention policies: let an event through only when a new issue, a new issue
//! comment, or a newly opened pull request mentions a given account.
//!
//! Anything that fails to parse, lacks a field or has a field of the wrong
//! type is filtered out. When an event is let through, the event handed on
//! keeps only its body (headers and query are emptied).
use vstd::prelude::*;
use crate::frame::{framed, write_output};
use crate::json::{
    as_str, get, is_obj, member, json_parse, json_text, parse_json, render_json, Json, JsonValue,
};
use crate::text::{chars_of, contains, str_contains, string_of, utf8_check};
use vstd::string::StringSliceAdditionalSpecFns;

verus! {

/// The text of a string member, or empty text when it is missing or not a string.
pub open spec fn str_or_empty(j: Option<Json>) -> Seq<char> {
    match as_str(j) {
        Some(s) => s,
        None => Seq::empty(),
    }
}

/// The answer that lets an event through: `allow` set, and the event reduced
/// to its body and timestamp (0 when it has none).
pub open spec fn allow_answer(event: Json, body: Json) -> Json {
    let ts = match get(event, "timestamp"@) {
        Some(t) => t,
        None => Json::Num("0"@),
    };
    Json::Obj(
        seq![
            ("allow"@, Json::Bool(true)),
            (
                "json"@,
                Json::Obj(
                    seq![
                        ("body"@, body),
                        ("headers"@, Json::Obj(Seq::empty())),
                        ("query"@, Json::Obj(Seq::empty())),
                        ("timestamp"@, ts),
                    ],
                ),
            ),
        ],
    )
}

/// The issue policy on a parsed event.
pub open spec fn issue_verdict(event: Json, mention: Seq<char>) -> Option<Json> {
    match get(event, "body"@) {
        None => None,
        Some(body) => match get(body, "issue"@) {
            None => None,
            Some(issue) => if !is_obj(issue) {
                None
            } else {
                match as_str(get(body, "action"@)) {
                    None => None,
                    Some(action) => {
                        let mentioned: Option<bool> = if action == "opened"@ {
                            Some(contains(str_or_empty(get(issue, "body"@)), mention))
                        } else if action == "created"@ {
                            match get(body, "comment"@) {
                                None => None,
                                Some(comment) => Some(
                                    contains(str_or_empty(get(comment, "body"@)), mention),
                                ),
                            }
                        } else {
                            Some(false)
                        };
                        match mentioned {
                            Some(true) => Some(allow_answer(event, body)),
                            _ => None,
                        }
                    },
                }
            },
        },
    }
}

/// The pull request policy on a parsed event.
pub open spec fn pr_verdict(event: Json, mention: Seq<char>) -> Option<Json> {
    match get(event, "body"@) {
        None => None,
        Some(body) => match get(body, "pull_request"@) {
            None => None,
            Some(pr) => if !is_obj(pr) {
                None
            } else {
                match as_str(get(body, "action"@)) {
                    None => None,
                    Some(action) => if action != "opened"@ {
                        None
                    } else if contains(str_or_empty(get(pr, "body"@)), mention) || contains(
                        str_or_empty(get(pr, "title"@)),
                        mention,
                    ) {
                        Some(allow_answer(event, body))
                    } else {
                        None
                    },
                }
            },
        },
    }
}

/// The text of a string member, or empty text.
fn text_or_empty(j: Option<&JsonValue>) -> (r: Vec<char>)
    ensures
        r@ == str_or_empty(
            match j {
                Some(v) => Some(v@),
                None => None,
            },
        ),
{
    match j {
        Some(v) => match v.as_str() {
            Some(s) => chars_of(s.as_str()),
            None => Vec::new(),
        },
        None => Vec::new(),
    }
}

fn empty_object() -> (r: JsonValue)
    ensures
        r@ == Json::Obj(Seq::empty()),
{
    let m: Vec<(String, JsonValue)> = Vec::new();
    proof {
        assert(crate::json::jms(m@) =~= Seq::<(Seq<char>, Json)>::empty());
    }
    JsonValue::Object(m)
}

fn key(s: &str) -> (r: String)
    ensures
        r@ == s@,
{
    string_of(chars_of(s).as_slice())
}

/// Builds the answer that lets the event through.
fn allow(event: &JsonValue, body: &JsonValue) -> (r: JsonValue)
    ensures
        r@ == allow_answer(event@, body@),
{
    let ts = match event.get("timestamp") {
        Some(t) => t.deep_clone(),
        None => JsonValue::Number(key("0")),
    };
    let mut inner: Vec<(String, JsonValue)> = Vec::new();
    inner.push((key("body"), body.deep_clone()));
    inner.push((key("headers"), empty_object()));
    inner.push((key("query"), empty_object()));
    inner.push((key("timestamp"), ts));
    let mut outer: Vec<(String, JsonValue)> = Vec::new();
    outer.push((key("allow"), JsonValue::Bool(true)));
    outer.push((key("json"), JsonValue::Object(inner)));
    let r = JsonValue::Object(outer);
    proof {
        let inner_s = seq![
            ("body"@, body@),
            ("headers"@, Json::Obj(Seq::empty())),
            ("query"@, Json::Obj(Seq::empty())),
            ("timestamp"@, ts@),
        ];
        crate::json::lemma_jms(inner@);
        crate::json::lemma_jms(outer@);
        assert(crate::json::jms(inner@) =~= inner_s);
        assert(crate::json::jms(outer@) =~= seq![
            ("allow"@, Json::Bool(true)),
            ("json"@, Json::Obj(inner_s)),
        ]);
    }
    r
}

fn opt_view(j: Option<&JsonValue>) -> (r: Ghost<Option<Json>>)
    ensures
        r@ == match j {
            Some(v) => Some(v@),
            None => None::<Json>,
        },
{
    Ghost(
        match j {
            Some(v) => Some(v@),
            None => None,
        },
    )
}

/// The issue policy on event text: `Some(answer)` lets the event through.
pub fn evaluate_issue(input: &str, mention: &str) -> (r: Option<JsonValue>)
    ensures
        match json_parse(input@) {
            None => r is None,
            Some(ev) => match r {
                Some(v) => issue_verdict(ev, mention@) == Some(v@),
                None => issue_verdict(ev, mention@) is None,
            },
        },
{
    let event = match parse_json(input) {
        Some(e) => e,
        None => return None,
    };
    let body = match event.get("body") {
        Some(b) => b,
        None => return None,
    };
    let issue = match body.get("issue") {
        Some(i) => i,
        None => return None,
    };
    if !issue.is_object() {
        return None;
    }
    let action = match body.get("action") {
        Some(a) => match a.as_str() {
            Some(s) => s,
            None => return None,
        },
        None => return None,
    };
    let m = chars_of(mention);
    let act = chars_of(action.as_str());
    let mentioned = if crate::text::chars_eq_str(act.as_slice(), "opened") {
        let t = text_or_empty(issue.get("body"));
        crate::text::contains_chars(t.as_slice(), m.as_slice())
    } else if crate::text::chars_eq_str(act.as_slice(), "created") {
        let comment = match body.get("comment") {
            Some(c) => c,
            None => return None,
        };
        let t = text_or_empty(comment.get("body"));
        crate::text::contains_chars(t.as_slice(), m.as_slice())
    } else {
        false
    };
    if !mentioned {
        return None;
    }
    Some(allow(&event, body))
}

/// The pull request policy on event text: `Some(answer)` lets the event through.
pub fn evaluate_pr(input: &str, mention: &str) -> (r: Option<JsonValue>)
    ensures
        match json_parse(input@) {
            None => r is None,
            Some(ev) => match r {
                Some(v) => pr_verdict(ev, mention@) == Some(v@),
                None => pr_verdict(ev, mention@) is None,
            },
        },
{
    let event = match parse_json(input) {
        Some(e) => e,
        None => return None,
    };
    let body = match event.get("body") {
        Some(b) => b,
        None => return None,
    };
    let pr = match body.get("pull_request") {
        Some(p) => p,
        None => return None,
    };
    if !pr.is_object() {
        return None;
    }
    let action = match body.get("action") {
        Some(a) => match a.as_str() {
            Some(s) => s,
            None => return None,
        },
        None => return None,
    };
    let act = chars_of(action.as_str());
    if !crate::text::chars_eq_str(act.as_slice(), "opened") {
        return None;
    }
    let m = chars_of(mention);
    let b = text_or_empty(pr.get("body"));
    let t = text_or_empty(pr.get("title"));
    if !crate::text::contains_chars(b.as_slice(), m.as_slice()) && !crate::text::contains_chars(
        t.as_slice(),
        m.as_slice(),
    ) {
        return None;
    }
    Some(allow(&event, body))
}

/// The text a policy hands back when it lets nothing through.
pub open spec fn deny_text() -> Seq<char> {
    "{\"allow\":false}"@
}

/// The text a policy hands back: the JSON of the event it lets through, or the refusal text.
pub open spec fn answer_text(verdict: Option<Json>) -> Seq<char> {
    match verdict {
        Some(v) => json_text(v),
        None => deny_text(),
    }
}

/// Which policy a plugin runs.
#[derive(Debug, Clone, Copy, PartialEq, Eq, Structural)]
pub enum MentionPolicy {
    /// New issues and new issue comments.
    Issue,
    /// Newly opened pull requests.
    PullRequest,
}

/// The verdict of a policy on the raw input: input that is not UTF-8 or not
/// JSON is filtered out.
pub open spec fn verdict_on_bytes(policy: MentionPolicy, input: Seq<u8>, mention: Seq<char>) -> Option<Json> {
    if !vstd::utf8::valid_utf8(input) {
        None
    } else {
        match json_parse(vstd::utf8::decode_utf8(input)) {
            None => None,
            Some(ev) => match policy {
                MentionPolicy::Issue => issue_verdict(ev, mention),
                MentionPolicy::PullRequest => pr_verdict(ev, mention),
            },
        }
    }
}

/// What a mention policy hands on when it lets an event through: `allow`
/// is true, and the event keeps its body and timestamp (0 when it has none)
/// while its headers and query are emptied.
pub proof fn law_allow_answer(e: Json, body: Json)
    ensures
        get(allow_answer(e, body), "allow"@) == Some(Json::Bool(true)),
        get(allow_answer(e, body), "json"@) matches Some(j) && {
            &&& get(j, "body"@) == Some(body)
            &&& get(j, "headers"@) == Some(Json::Obj(Seq::empty()))
            &&& get(j, "query"@) == Some(Json::Obj(Seq::empty()))
            &&& get(j, "timestamp"@) == Some(
                match get(e, "timestamp"@) {
                    Some(t) => t,
                    None => Json::Num("0"@),
                },
            )
        },
{
    reveal_strlit("allow");
    reveal_strlit("json");
    reveal_strlit("body");
    reveal_strlit("headers");
    reveal_strlit("query");
    reveal_strlit("timestamp");
    assert("allow"@.len() != "json"@.len());
    assert("body"@.len() != "headers"@.len() && "body"@.len() != "query"@.len() && "body"@.len() != "timestamp"@.len());
    assert("headers"@.len() != "query"@.len() && "headers"@.len() != "timestamp"@.len());
    assert("query"@.len() != "timestamp"@.len());
    let ts = match get(e, "timestamp"@) {
        Some(t) => t,
        None => Json::Num("0"@),
    };
    let inner = seq![
        ("body"@, body),
        ("headers"@, Json::Obj(Seq::empty())),
        ("query"@, Json::Obj(Seq::empty())),
        ("timestamp"@, ts),
    ];
    let outer = seq![("allow"@, Json::Bool(true)), ("json"@, Json::Obj(inner))];
    assert(outer.drop_first() =~= seq![("json"@, Json::Obj(inner))]);
    assert(inner.drop_first() =~= seq![
        ("headers"@, Json::Obj(Seq::empty())),
        ("query"@, Json::Obj(Seq::empty())),
        ("timestamp"@, ts),
    ]);
    assert(inner.drop_first().drop_first() =~= seq![("query"@, Json::Obj(Seq::empty())), ("timestamp"@, ts)]);
    assert(inner.drop_first().drop_first().drop_first() =~= seq![("timestamp"@, ts)]);
    assert(allow_answer(e, body) == Json::Obj(outer));
    assert(outer[0].0 != "json"@);
    assert(member(outer.drop_first(), "json"@) == Some(Json::Obj(inner)));
    assert(member(outer, "json"@) == Some(Json::Obj(inner)));
    assert(get(allow_answer(e, body), "json"@) == Some(Json::Obj(inner)));
    let j = Json::Obj(inner);
    assert(get(j, "body"@) == Some(body));
    assert(member(inner.drop_first(), "headers"@) == Some(Json::Obj(Seq::<(Seq<char>, Json)>::empty())));
    assert(get(j, "headers"@) == Some(Json::Obj(Seq::<(Seq<char>, Json)>::empty())));
    assert(member(inner.drop_first().drop_first(), "query"@) == Some(Json::Obj(Seq::<(Seq<char>, Json)>::empty())));
    assert(member(inner.drop_first(), "query"@) == Some(Json::Obj(Seq::<(Seq<char>, Json)>::empty())));
    assert(get(j, "query"@) == Some(Json::Obj(Seq::<(Seq<char>, Json)>::empty())));
    assert(member(inner.drop_first().drop_first().drop_first(), "timestamp"@) == Some(ts));
    assert(member(inner.drop_first().drop_first(), "timestamp"@) == Some(ts));
    assert(member(inner.drop_first(), "timestamp"@) == Some(ts));
    assert(get(j, "timestamp"@) == Some(ts));
}

/// The pull-request plugin lets through exactly the newly opened pull
/// requests that mention the account: on UTF-8 input whose JSON event `e` has
/// a `body` with a `pull_request` object and a string `action`, the verdict
/// lets the event through (reduced to its body) when the action is `opened`
/// and the pull request's title or body contains the mention, and refuses it
/// otherwise.
pub proof fn law_pr_mention(input: Seq<u8>, mention: Seq<char>, e: Json, body: Json, pr: Json, action: Seq<char>)
    requires
        vstd::utf8::valid_utf8(input),
        json_parse(vstd::utf8::decode_utf8(input)) == Some(e),
        get(e, "body"@) == Some(body),
        get(body, "pull_request"@) == Some(pr),
        pr is Obj,
        get(body, "action"@) == Some(Json::Str(action)),
    ensures
        (action == "opened"@ && (contains(str_or_empty(get(pr, "title"@)), mention) || contains(
            str_or_empty(get(pr, "body"@)),
            mention,
        ))) ==> verdict_on_bytes(MentionPolicy::PullRequest, input, mention) == Some(allow_answer(e, body)),
        !(action == "opened"@ && (contains(str_or_empty(get(pr, "title"@)), mention) || contains(
            str_or_empty(get(pr, "body"@)),
            mention,
        ))) ==> verdict_on_bytes(MentionPolicy::PullRequest, input, mention) is None,
{
}

/// Whatever the pull-request plugin lets through is an opened pull request
/// that mentions the account, reduced to its body.
pub proof fn law_pr_allowed_only_if_mentioned(input: Seq<u8>, mention: Seq<char>)
    requires
        verdict_on_bytes(MentionPolicy::PullRequest, input, mention) is Some,
    ensures
        vstd::utf8::valid_utf8(input),
        ({
            let e = json_parse(vstd::utf8::decode_utf8(input)).unwrap();
            let body = get(e, "body"@).unwrap();
            let pr = get(body, "pull_request"@).unwrap();
            &&& json_parse(vstd::utf8::decode_utf8(input)) is Some
            &&& get(e, "body"@) is Some
            &&& get(body, "pull_request"@) is Some
            &&& pr is Obj
            &&& get(body, "action"@) == Some(Json::Str("opened"@))
            &&& (contains(str_or_empty(get(pr, "title"@)), mention) || contains(str_or_empty(get(pr, "body"@)), mention))
            &&& verdict_on_bytes(MentionPolicy::PullRequest, input, mention) == Some(allow_answer(e, body))
        }),
{
}

/// The issue plugin lets through exactly the new issues and new comments on
/// issues that mention the account: on UTF-8 input whose JSON event `e` has a
/// `body` with an `issue` object and a string `action`, an `opened` issue is
/// let through (reduced to its body) when the issue body contains the
/// mention, a `created` comment when the comment body does, and nothing else.
pub proof fn law_issue_mention(input: Seq<u8>, mention: Seq<char>, e: Json, body: Json, issue: Json, action: Seq<char>)
    requires
        vstd::utf8::valid_utf8(input),
        json_parse(vstd::utf8::decode_utf8(input)) == Some(e),
        get(e, "body"@) == Some(body),
        get(body, "issue"@) == Some(issue),
        issue is Obj,
        get(body, "action"@) == Some(Json::Str(action)),
    ensures
        action == "opened"@ && contains(str_or_empty(get(issue, "body"@)), mention) ==> verdict_on_bytes(
            MentionPolicy::Issue,
            input,
            mention,
        ) == Some(allow_answer(e, body)),
        action == "created"@ && (get(body, "comment"@) matches Some(c) && contains(str_or_empty(get(c, "body"@)), mention))
            ==> verdict_on_bytes(MentionPolicy::Issue, input, mention) == Some(allow_answer(e, body)),
        action != "opened"@ && action != "created"@ ==> verdict_on_bytes(MentionPolicy::Issue, input, mention) is None,
        action == "opened"@ && !contains(str_or_empty(get(issue, "body"@)), mention) ==> verdict_on_bytes(
            MentionPolicy::Issue,
            input,
            mention,
        ) is None,
{
    reveal_strlit("opened");
    reveal_strlit("created");
    assert("opened"@.len() != "created"@.len());
}

/// A mention policy on the raw event bytes: the framed answer (the deny
/// answer when the input is not UTF-8 or the event is filtered out).
pub fn process(policy: MentionPolicy, input: &[u8], mention: &str) -> (out: Vec<u8>)
    ensures
        out@ == framed(vstd::utf8::encode_utf8(answer_text(verdict_on_bytes(policy, input@, mention@)))),
{
    let check = utf8_check(input);
    let verdict: Option<JsonValue> = if check.valid_up_to == input.len() {
        assert(input@.take(input@.len() as int) == input@);
        let text = string_of(crate::text::decode_valid_utf8(input).as_slice());
        match policy {
            MentionPolicy::Issue => evaluate_issue(text.as_str(), mention),
            MentionPolicy::PullRequest => evaluate_pr(text.as_str(), mention),
        }
    } else {
        assert(input@.take(input@.len() as int) == input@);
        None
    };
    let answer = match &verdict {
        Some(v) => render_json(v),
        None => key("{\"allow\":false}"),
    };
    write_output(answer.as_str().as_bytes())
}

} // verus!
