//! The bridge protocol messages as JSON: how an incoming message is read and
//! an outgoing one is written.
//!
//! Every message is a JSON object whose `type` member names its kind in
//! snake case. Incoming members that a kind does not use are ignored; a
//! missing string, list or number member reads as empty or zero, but a member
//! of the wrong kind makes the whole message unreadable. Kinds the adapter did
//! not ask for read as [`Inbound::Other`].
use vstd::prelude::*;
use crate::bridge::{BridgeButton, Inbound, Outbound, RegisterMetadata};
use crate::event::{parse_u64, u64_text};
use crate::json::{get, jv, jvs, lemma_jvs, json_parse, parse_json, Json, JsonValue};
use crate::text::{chars_of, decimal, push_all, push_decimal, string_of};
use crate::json_write::{json_string, push_json_string};

verus! {

/// An incoming message in specifications.
pub enum InboundV {
    RegisterAck { ok: bool, error: Seq<char> },
    Reply { session_key: Seq<char>, reply_ctx: Seq<char>, content: Seq<char> },
    Buttons {
        session_key: Seq<char>,
        reply_ctx: Seq<char>,
        content: Seq<char>,
        buttons: Seq<Seq<(Seq<char>, Seq<char>)>>,
    },
    Error { code: Seq<char>, message: Seq<char> },
    Pong { ts: u64 },
    Other,
}

/// The buttons, row by row, as (text, data) pairs.
pub open spec fn rows_view(rows: Seq<Vec<BridgeButton>>) -> Seq<Seq<(Seq<char>, Seq<char>)>> {
    rows.map_values(|row: Vec<BridgeButton>| row@.map_values(|b: BridgeButton| (b.text@, b.data@)))
}

/// An incoming message as plain values.
pub open spec fn inbound_view(m: Inbound) -> InboundV {
    match m {
        Inbound::RegisterAck { ok, error } => InboundV::RegisterAck { ok, error: error@ },
        Inbound::Reply { session_key, reply_ctx, content } => InboundV::Reply {
            session_key: session_key@,
            reply_ctx: reply_ctx@,
            content: content@,
        },
        Inbound::Buttons { session_key, reply_ctx, content, buttons } => InboundV::Buttons {
            session_key: session_key@,
            reply_ctx: reply_ctx@,
            content: content@,
            buttons: rows_view(buttons@),
        },
        Inbound::Error { code, message } => InboundV::Error { code: code@, message: message@ },
        Inbound::Pong { ts } => InboundV::Pong { ts },
        Inbound::Other => InboundV::Other,
    }
}

/// A string member that defaults to empty: its text, empty when missing,
/// `None` when it is not a string.
pub open spec fn text_member(j: Json, k: Seq<char>) -> Option<Seq<char>> {
    match get(j, k) {
        None => Some(Seq::empty()),
        Some(Json::Str(s)) => Some(s),
        Some(_) => None,
    }
}

/// A number member that defaults to zero.
pub open spec fn u64_member(j: Json, k: Seq<char>) -> Option<u64> {
    match get(j, k) {
        None => Some(0),
        Some(Json::Num(t)) => u64_text(t),
        Some(_) => None,
    }
}

/// A button: an object with optional `text` and `data` strings.
pub open spec fn button_decode(j: Json) -> Option<(Seq<char>, Seq<char>)> {
    match j {
        Json::Obj(_) => match (text_member(j, "text"@), text_member(j, "data"@)) {
            (Some(t), Some(d)) => Some((t, d)),
            _ => None,
        },
        _ => None,
    }
}

/// A row of buttons.
pub open spec fn row_decode(a: Seq<Json>) -> Option<Seq<(Seq<char>, Seq<char>)>>
    decreases a.len(),
{
    if a.len() == 0 {
        Some(Seq::empty())
    } else {
        match (row_decode(a.drop_last()), button_decode(a.last())) {
            (Some(r), Some(b)) => Some(r.push(b)),
            _ => None,
        }
    }
}

/// Rows of buttons: each an array of buttons.
pub open spec fn rows_decode(a: Seq<Json>) -> Option<Seq<Seq<(Seq<char>, Seq<char>)>>>
    decreases a.len(),
{
    if a.len() == 0 {
        Some(Seq::empty())
    } else {
        match (rows_decode(a.drop_last()), a.last()) {
            (Some(r), Json::Arr(x)) => match row_decode(x) {
                Some(row) => Some(r.push(row)),
                None => None,
            },
            _ => None,
        }
    }
}

/// The `buttons` member: rows of buttons, none when missing.
pub open spec fn buttons_member(j: Json) -> Option<Seq<Seq<(Seq<char>, Seq<char>)>>> {
    match get(j, "buttons"@) {
        None => Some(Seq::empty()),
        Some(Json::Arr(a)) => rows_decode(a),
        Some(_) => None,
    }
}

/// An incoming message read from JSON; `None` when it is not an object with a
/// string `type`, or a member it uses has the wrong kind.
pub open spec fn inbound_decode(j: Json) -> Option<InboundV> {
    match get(j, "type"@) {
        Some(Json::Str(t)) => if t == "register_ack"@ {
            match (get(j, "ok"@), text_member(j, "error"@)) {
                (Some(Json::Bool(ok)), Some(error)) => Some(InboundV::RegisterAck { ok, error }),
                _ => None,
            }
        } else if t == "reply"@ {
            match (text_member(j, "session_key"@), text_member(j, "reply_ctx"@), text_member(j, "content"@)) {
                (Some(session_key), Some(reply_ctx), Some(content)) => Some(InboundV::Reply { session_key, reply_ctx, content }),
                _ => None,
            }
        } else if t == "buttons"@ {
            match (text_member(j, "session_key"@), text_member(j, "reply_ctx"@), text_member(j, "content"@), buttons_member(j)) {
                (Some(session_key), Some(reply_ctx), Some(content), Some(buttons)) => Some(InboundV::Buttons { session_key, reply_ctx, content, buttons }),
                _ => None,
            }
        } else if t == "error"@ {
            match (text_member(j, "code"@), text_member(j, "message"@)) {
                (Some(code), Some(message)) => Some(InboundV::Error { code, message }),
                _ => None,
            }
        } else if t == "pong"@ {
            match u64_member(j, "ts"@) {
                Some(ts) => Some(InboundV::Pong { ts }),
                None => None,
            }
        } else {
            Some(InboundV::Other)
        },
        _ => None,
    }
}

fn text_of(v: Option<&JsonValue>) -> (r: Option<String>)
    ensures
        ({
            let o = match v { Some(x) => Some(x@), None => None };
            let d = match o {
                None => Some(Seq::<char>::empty()),
                Some(Json::Str(s)) => Some(s),
                Some(_) => None,
            };
            match r {
                Some(s) => d == Some(s@),
                None => d is None,
            }
        }),
{
    match v {
        None => Some(String::new()),
        Some(JsonValue::Str(s)) => Some(s.clone()),
        Some(_) => None,
    }
}

fn button_from(v: &JsonValue) -> (r: Option<BridgeButton>)
    ensures
        match r {
            Some(b) => button_decode(v@) == Some((b.text@, b.data@)),
            None => button_decode(v@) is None,
        },
{
    if !v.is_object() {
        return None;
    }
    let text = match text_of(v.get("text")) {
        Some(t) => t,
        None => return None,
    };
    let data = match text_of(v.get("data")) {
        Some(d) => d,
        None => return None,
    };
    Some(BridgeButton { text, data })
}

proof fn lemma_row_decode_prefix(a: Seq<Json>, i: int)
    requires
        0 <= i <= a.len(),
        row_decode(a.take(i)) is None,
    ensures
        row_decode(a) is None,
    decreases a.len() - i,
{
    if i < a.len() {
        assert(a.take(i + 1).drop_last() == a.take(i));
        lemma_row_decode_prefix(a, i + 1);
    } else {
        assert(a.take(i) == a);
    }
}

proof fn lemma_rows_decode_prefix(a: Seq<Json>, i: int)
    requires
        0 <= i <= a.len(),
        rows_decode(a.take(i)) is None,
    ensures
        rows_decode(a) is None,
    decreases a.len() - i,
{
    if i < a.len() {
        assert(a.take(i + 1).drop_last() == a.take(i));
        lemma_rows_decode_prefix(a, i + 1);
    } else {
        assert(a.take(i) == a);
    }
}

proof fn lemma_jvs_take(a: Seq<JsonValue>, i: int)
    requires
        0 <= i <= a.len(),
    ensures
        jvs(a.take(i)) == jvs(a).take(i),
{
    lemma_jvs(a);
    lemma_jvs(a.take(i));
    assert(jvs(a.take(i)) =~= jvs(a).take(i));
}

fn row_from(a: &Vec<JsonValue>) -> (r: Option<Vec<BridgeButton>>)
    ensures
        match r {
            Some(row) => row_decode(jvs(a@)) == Some(row@.map_values(|b: BridgeButton| (b.text@, b.data@))),
            None => row_decode(jvs(a@)) is None,
        },
{
    let mut row: Vec<BridgeButton> = Vec::new();
    let mut i: usize = 0;
    assert(a@.take(0) =~= Seq::<JsonValue>::empty());
    while i < a.len()
        invariant
            i <= a@.len(),
            row_decode(jvs(a@.take(i as int))) == Some(row@.map_values(|b: BridgeButton| (b.text@, b.data@))),
        decreases a@.len() - i,
    {
        proof {
            assert(a@.take(i + 1).drop_last() == a@.take(i as int));
            assert(a@.take(i + 1).last() == a@[i as int]);
            assert(jvs(a@.take(i + 1)).drop_last() == jvs(a@.take(i as int)));
        }
        match button_from(&a[i]) {
            Some(b) => {
                let ghost before = row@;
                row.push(b);
                proof {
                    assert(row@.map_values(|b: BridgeButton| (b.text@, b.data@)) =~= before.map_values(
                        |b: BridgeButton| (b.text@, b.data@),
                    ).push((b.text@, b.data@)));
                }
            },
            None => {
                proof {
                    lemma_jvs_take(a@, i + 1);
                    lemma_jvs(a@);
                    lemma_row_decode_prefix(jvs(a@), i + 1);
                }
                return None;
            },
        }
        i = i + 1;
    }
    assert(a@.take(a@.len() as int) == a@);
    Some(row)
}

fn rows_from(v: Option<&JsonValue>) -> (r: Option<Vec<Vec<BridgeButton>>>)
    ensures
        ({
            let d = match v {
                None => Some(Seq::<Seq<(Seq<char>, Seq<char>)>>::empty()),
                Some(x) => match x@ {
                    Json::Arr(a) => rows_decode(a),
                    _ => None,
                },
            };
            match r {
                Some(rows) => d == Some(rows_view(rows@)),
                None => d is None,
            }
        }),
{
    let a = match v {
        None => {
            let rows: Vec<Vec<BridgeButton>> = Vec::new();
            assert(rows_view(rows@) =~= Seq::<Seq<(Seq<char>, Seq<char>)>>::empty());
            return Some(rows);
        },
        Some(JsonValue::Array(a)) => a,
        Some(_) => return None,
    };
    let mut rows: Vec<Vec<BridgeButton>> = Vec::new();
    let mut i: usize = 0;
    assert(a@.take(0) =~= Seq::<JsonValue>::empty());
    assert(rows_view(rows@) =~= Seq::<Seq<(Seq<char>, Seq<char>)>>::empty());
    while i < a.len()
        invariant
            i <= a@.len(),
            v matches Some(x) && x@ == Json::Arr(jvs(a@)),
            rows_decode(jvs(a@.take(i as int))) == Some(rows_view(rows@)),
        decreases a@.len() - i,
    {
        proof {
            assert(a@.take(i + 1).drop_last() == a@.take(i as int));
            assert(a@.take(i + 1).last() == a@[i as int]);
            assert(jvs(a@.take(i + 1)).drop_last() == jvs(a@.take(i as int)));
        }
        let row = match &a[i] {
            JsonValue::Array(x) => row_from(x),
            _ => None,
        };
        match row {
            Some(row) => {
                let ghost before = rows@;
                rows.push(row);
                proof {
                    assert(rows_view(rows@) =~= rows_view(before).push(
                        row@.map_values(|b: BridgeButton| (b.text@, b.data@)),
                    ));
                }
            },
            None => {
                proof {
                    assert(jvs(a@.take(i + 1)).last() == jv(a@[i as int]));
                    assert(rows_decode(jvs(a@.take(i + 1))) is None);
                    lemma_jvs_take(a@, i + 1);
                    lemma_jvs(a@);
                    lemma_rows_decode_prefix(jvs(a@), i + 1);
                }
                return None;
            },
        }
        i = i + 1;
    }
    assert(a@.take(a@.len() as int) == a@);
    Some(rows)
}

fn u64_of(v: Option<&JsonValue>) -> (r: Option<u64>)
    ensures
        r == match v {
            None => Some(0u64),
            Some(x) => match x@ {
                Json::Num(t) => u64_text(t),
                _ => None,
            },
        },
{
    match v {
        None => Some(0),
        Some(JsonValue::Number(t)) => parse_u64(t.as_str()),
        Some(_) => None,
    }
}

/// Reads an incoming message from JSON (see [`inbound_decode`]).
pub fn decode_inbound(v: &JsonValue) -> (r: Option<Inbound>)
    ensures
        match r {
            Some(m) => inbound_decode(v@) == Some(inbound_view(m)),
            None => inbound_decode(v@) is None,
        },
{
    let t = match v.get("type") {
        Some(JsonValue::Str(t)) => chars_of(t.as_str()),
        _ => return None,
    };
    if crate::text::chars_eq_str(t.as_slice(), "register_ack") {
        let ok = match v.get("ok") {
            Some(JsonValue::Bool(b)) => *b,
            _ => return None,
        };
        let error = match text_of(v.get("error")) {
            Some(e) => e,
            None => return None,
        };
        Some(Inbound::RegisterAck { ok, error })
    } else if crate::text::chars_eq_str(t.as_slice(), "reply") {
        let session_key = match text_of(v.get("session_key")) {
            Some(x) => x,
            None => return None,
        };
        let reply_ctx = match text_of(v.get("reply_ctx")) {
            Some(x) => x,
            None => return None,
        };
        let content = match text_of(v.get("content")) {
            Some(x) => x,
            None => return None,
        };
        Some(Inbound::Reply { session_key, reply_ctx, content })
    } else if crate::text::chars_eq_str(t.as_slice(), "buttons") {
        let session_key = match text_of(v.get("session_key")) {
            Some(x) => x,
            None => return None,
        };
        let reply_ctx = match text_of(v.get("reply_ctx")) {
            Some(x) => x,
            None => return None,
        };
        let content = match text_of(v.get("content")) {
            Some(x) => x,
            None => return None,
        };
        let buttons = match rows_from(v.get("buttons")) {
            Some(x) => x,
            None => return None,
        };
        Some(Inbound::Buttons { session_key, reply_ctx, content, buttons })
    } else if crate::text::chars_eq_str(t.as_slice(), "error") {
        let code = match text_of(v.get("code")) {
            Some(x) => x,
            None => return None,
        };
        let message = match text_of(v.get("message")) {
            Some(x) => x,
            None => return None,
        };
        Some(Inbound::Error { code, message })
    } else if crate::text::chars_eq_str(t.as_slice(), "pong") {
        match u64_of(v.get("ts")) {
            Some(ts) => Some(Inbound::Pong { ts }),
            None => None,
        }
    } else {
        Some(Inbound::Other)
    }
}

/// Reads an incoming message from its text; `None` when the text is not JSON
/// or not a message.
pub fn parse_inbound(text: &str) -> (r: Option<Inbound>)
    ensures
        match r {
            Some(m) => json_parse(text@) matches Some(j) && inbound_decode(j) == Some(inbound_view(m)),
            None => json_parse(text@) matches Some(j) ==> inbound_decode(j) is None,
        },
{
    match parse_json(text) {
        Some(v) => decode_inbound(&v),
        None => None,
    }
}

// ── outgoing messages ───────────────────────────────────────────

fn text(s: &str) -> (r: String)
    ensures
        r@ == s@,
{
    string_of(chars_of(s).as_slice())
}

/// A string member as compact JSON text: `"key":"value"`, both escaped.
pub open spec fn str_member(k: Seq<char>, v: Seq<char>) -> Seq<char> {
    json_string(k) + seq![':'] + json_string(v)
}

/// Strings as the items of a compact JSON array, separated by commas.
pub open spec fn string_list(s: Seq<Seq<char>>) -> Seq<char>
    decreases s.len(),
{
    if s.len() == 0 {
        Seq::empty()
    } else if s.len() == 1 {
        json_string(s[0])
    } else {
        string_list(s.drop_last()) + seq![','] + json_string(s.last())
    }
}

/// The text of the `project` member, with its leading comma, when a project is set.
pub open spec fn project_text(p: Option<String>) -> Seq<char> {
    match p {
        Some(s) => seq![','] + str_member("project"@, s@),
        None => Seq::empty(),
    }
}

/// The register metadata as compact JSON text, its members in name order
/// (it is a JSON map).
pub open spec fn metadata_text(m: RegisterMetadata) -> Seq<char> {
    seq!['{'] + str_member("description"@, m.description@) + seq![','] + str_member(
        "permission_mode"@,
        m.permission_mode@,
    ) + seq![','] + json_string("protocol_version"@) + seq![':'] + decimal(m.protocol_version as nat)
        + seq![','] + str_member("version"@, m.version@) + seq!['}']
}

/// The register message as compact JSON text.
pub open spec fn register_wire(platform: Seq<char>, capabilities: Seq<Seq<char>>, metadata: RegisterMetadata) -> Seq<char> {
    seq!['{'] + str_member("type"@, "register"@) + seq![','] + str_member("platform"@, platform) + seq![',']
        + json_string("capabilities"@) + seq![':', '['] + string_list(capabilities) + seq![']', ',']
        + json_string("metadata"@) + seq![':'] + metadata_text(metadata) + seq!['}']
}

/// A user message as compact JSON text.
pub open spec fn message_wire(
    msg_id: Seq<char>,
    session_key: Seq<char>,
    user_id: Seq<char>,
    user_name: Seq<char>,
    content: Seq<char>,
    reply_ctx: Seq<char>,
    project: Option<String>,
) -> Seq<char> {
    seq!['{'] + str_member("type"@, "message"@) + seq![','] + str_member("msg_id"@, msg_id) + seq![',']
        + str_member("session_key"@, session_key) + seq![','] + str_member("user_id"@, user_id) + seq![',']
        + str_member("user_name"@, user_name) + seq![','] + str_member("content"@, content) + seq![',']
        + str_member("reply_ctx"@, reply_ctx) + project_text(project) + seq!['}']
}

/// A card action as compact JSON text.
pub open spec fn card_wire(session_key: Seq<char>, action: Seq<char>, reply_ctx: Seq<char>, project: Option<String>) -> Seq<char> {
    seq!['{'] + str_member("type"@, "card_action"@) + seq![','] + str_member("session_key"@, session_key)
        + seq![','] + str_member("action"@, action) + seq![','] + str_member("reply_ctx"@, reply_ctx)
        + project_text(project) + seq!['}']
}

/// A ping as compact JSON text.
pub open spec fn ping_wire(ts: u64) -> Seq<char> {
    seq!['{'] + str_member("type"@, "ping"@) + seq![','] + json_string("ts"@) + seq![':'] + decimal(ts as nat)
        + seq!['}']
}

/// An outgoing message as compact JSON text: `type` first, then the fields in
/// declaration order (the routing `project`, when set, last).
pub open spec fn outbound_wire(m: Outbound) -> Seq<char> {
    match m {
        Outbound::Register { platform, capabilities, metadata } => register_wire(
            platform@,
            capabilities@.map_values(|c: String| c@),
            metadata,
        ),
        Outbound::Message { msg_id, session_key, user_id, user_name, content, reply_ctx, project } => message_wire(
            msg_id@,
            session_key@,
            user_id@,
            user_name@,
            content@,
            reply_ctx@,
            project,
        ),
        Outbound::CardAction { session_key, action, reply_ctx, project } => card_wire(
            session_key@,
            action@,
            reply_ctx@,
            project,
        ),
        Outbound::Ping { ts } => ping_wire(ts),
    }
}

fn push_str_member(v: &mut Vec<char>, k: &str, val: &str)
    ensures
        final(v)@ == old(v)@ + str_member(k@, val@),
{
    push_json_string(v, k);
    v.push(':');
    push_json_string(v, val);
    assert(final(v)@ =~= old(v)@ + str_member(k@, val@));
}

fn push_string_list(v: &mut Vec<char>, l: &Vec<String>)
    ensures
        final(v)@ == old(v)@ + string_list(l@.map_values(|c: String| c@)),
{
    let ghost lv = l@.map_values(|c: String| c@);
    let mut i: usize = 0;
    while i < l.len()
        invariant
            i <= l@.len(),
            lv == l@.map_values(|c: String| c@),
            v@ == old(v)@ + string_list(lv.take(i as int)),
        decreases l@.len() - i,
    {
        if i > 0 {
            v.push(',');
        }
        push_json_string(v, l[i].as_str());
        proof {
            let t = lv.take(i + 1 as int);
            assert(t.drop_last() =~= lv.take(i as int));
            assert(t.last() == l@[i as int]@);
            if i == 0 {
                assert(lv.take(0) =~= Seq::<Seq<char>>::empty());
            }
            assert(v@ =~= old(v)@ + string_list(t));
        }
        i = i + 1;
    }
    assert(lv.take(l@.len() as int) =~= lv);
}

fn push_project(v: &mut Vec<char>, p: &Option<String>)
    ensures
        final(v)@ == old(v)@ + project_text(*p),
{
    match p {
        Some(s) => {
            v.push(',');
            push_str_member(v, "project", s.as_str());
            assert(final(v)@ =~= old(v)@ + project_text(*p));
        },
        None => {
            assert(final(v)@ =~= old(v)@ + project_text(*p));
        },
    }
}

fn metadata_string(metadata: &RegisterMetadata) -> (r: Vec<char>)
    ensures
        r@ == metadata_text(*metadata),
{
    let mut v: Vec<char> = Vec::new();
    v.push('{');
    push_str_member(&mut v, "description", metadata.description.as_str());
    v.push(',');
    push_str_member(&mut v, "permission_mode", metadata.permission_mode.as_str());
    v.push(',');
    push_json_string(&mut v, "protocol_version");
    v.push(':');
    push_decimal(&mut v, metadata.protocol_version);
    v.push(',');
    push_str_member(&mut v, "version", metadata.version.as_str());
    v.push('}');
    assert(v@ =~= metadata_text(*metadata));
    v
}

fn register_string(platform: &String, capabilities: &Vec<String>, metadata: &RegisterMetadata) -> (r: Vec<char>)
    ensures
        r@ == register_wire(platform@, capabilities@.map_values(|c: String| c@), *metadata),
{
    let mut v: Vec<char> = Vec::new();
    v.push('{');
    push_str_member(&mut v, "type", "register");
    v.push(',');
    push_str_member(&mut v, "platform", platform.as_str());
    v.push(',');
    push_json_string(&mut v, "capabilities");
    v.push(':');
    v.push('[');
    push_string_list(&mut v, capabilities);
    v.push(']');
    v.push(',');
    push_json_string(&mut v, "metadata");
    v.push(':');
    let md = metadata_string(metadata);
    push_all(&mut v, md.as_slice());
    v.push('}');
    assert(v@ =~= register_wire(platform@, capabilities@.map_values(|c: String| c@), *metadata));
    v
}

fn message_string(
    msg_id: &String,
    session_key: &String,
    user_id: &String,
    user_name: &String,
    content: &String,
    reply_ctx: &String,
    project: &Option<String>,
) -> (r: Vec<char>)
    ensures
        r@ == message_wire(msg_id@, session_key@, user_id@, user_name@, content@, reply_ctx@, *project),
{
    let mut v: Vec<char> = Vec::new();
    v.push('{');
    push_str_member(&mut v, "type", "message");
    v.push(',');
    push_str_member(&mut v, "msg_id", msg_id.as_str());
    v.push(',');
    push_str_member(&mut v, "session_key", session_key.as_str());
    v.push(',');
    push_str_member(&mut v, "user_id", user_id.as_str());
    v.push(',');
    push_str_member(&mut v, "user_name", user_name.as_str());
    v.push(',');
    push_str_member(&mut v, "content", content.as_str());
    v.push(',');
    push_str_member(&mut v, "reply_ctx", reply_ctx.as_str());
    push_project(&mut v, project);
    v.push('}');
    assert(v@ =~= message_wire(msg_id@, session_key@, user_id@, user_name@, content@, reply_ctx@, *project));
    v
}

fn card_string(session_key: &String, action: &String, reply_ctx: &String, project: &Option<String>) -> (r: Vec<char>)
    ensures
        r@ == card_wire(session_key@, action@, reply_ctx@, *project),
{
    let mut v: Vec<char> = Vec::new();
    v.push('{');
    push_str_member(&mut v, "type", "card_action");
    v.push(',');
    push_str_member(&mut v, "session_key", session_key.as_str());
    v.push(',');
    push_str_member(&mut v, "action", action.as_str());
    v.push(',');
    push_str_member(&mut v, "reply_ctx", reply_ctx.as_str());
    push_project(&mut v, project);
    v.push('}');
    assert(v@ =~= card_wire(session_key@, action@, reply_ctx@, *project));
    v
}

fn ping_string(ts: u64) -> (r: Vec<char>)
    ensures
        r@ == ping_wire(ts),
{
    let mut v: Vec<char> = Vec::new();
    v.push('{');
    push_str_member(&mut v, "type", "ping");
    v.push(',');
    push_json_string(&mut v, "ts");
    v.push(':');
    push_decimal(&mut v, ts);
    v.push('}');
    assert(v@ =~= ping_wire(ts));
    v
}

/// The text sent for an outgoing message (see [`outbound_wire`]): `type`
/// first, then the fields in declaration order.
pub fn outbound_text(m: &Outbound) -> (r: String)
    ensures
        r@ == outbound_wire(*m),
{
    let v = match m {
        Outbound::Register { platform, capabilities, metadata } => register_string(platform, capabilities, metadata),
        Outbound::Message { msg_id, session_key, user_id, user_name, content, reply_ctx, project } => message_string(
            msg_id,
            session_key,
            user_id,
            user_name,
            content,
            reply_ctx,
            project,
        ),
        Outbound::CardAction { session_key, action, reply_ctx, project } => card_string(
            session_key,
            action,
            reply_ctx,
            project,
        ),
        Outbound::Ping { ts } => ping_string(*ts),
    };
    string_of(v.as_slice())
}

/// The register message: platform, the `text` and `buttons` capabilities
/// only (no streamed progress, buttons to allow permission requests), and
/// metadata asking for the agent to run with `bypassPermissions`.
pub fn register_message(platform: &str, version: &str) -> (r: Outbound)
    ensures
        r matches Outbound::Register { platform: p, capabilities, metadata } && p@ == platform@
            && capabilities@.len() == 2 && capabilities@[0]@ == "text"@ && capabilities@[1]@ == "buttons"@
            && metadata.protocol_version == 1 && metadata.version@ == version@
            && metadata.description@ == "Agent Loop Bridge 适配器"@
            && metadata.permission_mode@ == "bypassPermissions"@,
{
    let mut capabilities: Vec<String> = Vec::new();
    capabilities.push(text("text"));
    capabilities.push(text("buttons"));
    Outbound::Register {
        platform: text(platform),
        capabilities,
        metadata: RegisterMetadata {
            protocol_version: 1,
            version: text(version),
            description: text("Agent Loop Bridge 适配器"),
            permission_mode: text("bypassPermissions"),
        },
    }
}

} // verus!
