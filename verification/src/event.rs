//! Webhook events relayed by the channel: how a relayed payload becomes an
//! event, and how an event is written as JSON and read back from JSON.
use vstd::prelude::*;
use crate::json::{
    get, is_obj, jms, jv, lemma_jms, json_parse, json_pretty, json_text, parse_json, render_json, render_json_pretty, Json,
    JsonValue,
};
use crate::json_write::{json_string, push_json_string};
use crate::text::{chars_of, decimal, push_decimal, push_str, string_of};

verus! {

/// A webhook event: the request's headers and query parameters (string
/// values only), its body, and when it arrived (milliseconds since the epoch).
pub struct SmeeEvent {
    pub headers: Vec<(String, String)>,
    pub query: Vec<(String, String)>,
    pub body: JsonValue,
    pub timestamp: u64,
}

/// The views of name/value pairs.
pub open spec fn pairs_view(v: Seq<(String, String)>) -> Seq<(Seq<char>, Seq<char>)> {
    v.map_values(|p: (String, String)| (p.0@, p.1@))
}

/// The members of an object whose values are strings, with those strings, in order.
pub open spec fn string_members(m: Seq<(Seq<char>, Json)>) -> Seq<(Seq<char>, Seq<char>)>
    decreases m.len(),
{
    if m.len() == 0 {
        Seq::empty()
    } else {
        let rest = string_members(m.drop_last());
        match m.last().1 {
            Json::Str(s) => rest.push((m.last().0, s)),
            _ => rest,
        }
    }
}

/// The string members of an optional object; none when it is missing or not an object.
pub open spec fn string_map_of(j: Option<Json>) -> Seq<(Seq<char>, Seq<char>)> {
    match j {
        Some(Json::Obj(m)) => string_members(m),
        _ => Seq::empty(),
    }
}

/// Whether `e` is the event that a relayed payload `j` gives when it arrives
/// at `now`: string headers and query parameters, the body (null when
/// missing), and the arrival time.
pub open spec fn is_payload_event(e: SmeeEvent, j: Json, now: u64) -> bool {
    &&& pairs_view(e.headers@) == string_map_of(get(j, "headers"@))
    &&& pairs_view(e.query@) == string_map_of(get(j, "query"@))
    &&& e.body@ == match get(j, "body"@) {
        Some(b) => b,
        None => Json::Null,
    }
    &&& e.timestamp == now
}

fn string_pairs(v: Option<&JsonValue>) -> (r: Vec<(String, String)>)
    ensures
        pairs_view(r@) == string_map_of(
            match v {
                Some(x) => Some(x@),
                None => None,
            },
        ),
{
    let mut r: Vec<(String, String)> = Vec::new();
    match v {
        Some(JsonValue::Object(m)) => {
            let mut i: usize = 0;
            while i < m.len()
                invariant
                    i <= m@.len(),
                    pairs_view(r@) == string_members(jms(m@.take(i as int))),
                decreases m@.len() - i,
            {
                proof {
                    assert(m@.take(i + 1).drop_last() == m@.take(i as int));
                    assert(m@.take(i + 1).last() == m@[i as int]);
                    let x = jms(m@.take(i as int));
                    let y = jms(m@.take(i + 1));
                    assert(y == x.push((m@[i as int].0@, jv(m@[i as int].1))));
                    assert(y.drop_last() == x);
                }
                match &m[i].1 {
                    JsonValue::Str(s) => {
                        let ghost before = r@;
                        r.push((m[i].0.clone(), s.clone()));
                        proof {
                            assert(pairs_view(r@) =~= pairs_view(before).push((m@[i as int].0@, s@)));
                        }
                    },
                    _ => {},
                }
                i = i + 1;
            }
            assert(m@.take(m@.len() as int) == m@);
        },
        _ => {
            assert(pairs_view(r@) =~= Seq::<(Seq<char>, Seq<char>)>::empty());
        },
    }
    r
}

/// The event that a relayed payload gives when it arrives at `now`; `None`
/// when the payload is not a JSON object.
pub fn payload_event(v: &JsonValue, now: u64) -> (r: Option<SmeeEvent>)
    ensures
        r is Some <==> is_obj(v@),
        r matches Some(e) ==> is_payload_event(e, v@, now),
{
    if !v.is_object() {
        return None;
    }
    let headers = string_pairs(v.get("headers"));
    let query = string_pairs(v.get("query"));
    let body = match v.get("body") {
        Some(b) => b.deep_clone(),
        None => JsonValue::Null,
    };
    Some(SmeeEvent { headers, query, body, timestamp: now })
}

/// The current time in milliseconds since the Unix epoch
/// (`SystemTime::now`, 0 if the clock is set before the epoch). Nothing is
/// stated of the value: it is the machine's clock.
#[verifier::external_body]
fn now_millis() -> u64 {
    std::time::SystemTime::now()
        .duration_since(std::time::UNIX_EPOCH)
        .map(|d| d.as_millis() as u64)
        .unwrap_or(0)
}

/// Reads a relayed payload: JSON text whose object holds `headers`, `query`
/// and `body`; the event is stamped with the current time. `None` when the
/// text is not JSON or not an object.
pub fn parse_smee_payload(raw: &str) -> (r: Option<SmeeEvent>)
    ensures
        match json_parse(raw@) {
            None => r is None,
            Some(j) => {
                &&& (r is Some <==> is_obj(j))
                &&& (r matches Some(e) ==> is_payload_event(e, j, e.timestamp))
            },
        },
{
    let v = match parse_json(raw) {
        Some(v) => v,
        None => return None,
    };
    if !v.is_object() {
        return None;
    }
    let now = now_millis();
    payload_event(&v, now)
}

// ── events as JSON ──────────────────────────────────────────────

/// An object of string members.
pub open spec fn string_object(p: Seq<(Seq<char>, Seq<char>)>) -> Json {
    Json::Obj(p.map_values(|q: (Seq<char>, Seq<char>)| (q.0, Json::Str(q.1))))
}

/// An event as a JSON value: members `headers`, `query`, `body` and
/// `timestamp`. (Rendering this value through `serde_json` sorts the keys;
/// [`event_text`] gives the text in field order.)
pub open spec fn event_json(e: SmeeEvent) -> Json {
    Json::Obj(
        seq![
            ("headers"@, string_object(pairs_view(e.headers@))),
            ("query"@, string_object(pairs_view(e.query@))),
            ("body"@, e.body@),
            ("timestamp"@, Json::Num(decimal(e.timestamp as nat))),
        ],
    )
}

fn key(s: &str) -> (r: String)
    ensures
        r@ == s@,
{
    string_of(chars_of(s).as_slice())
}

fn pairs_object(p: &Vec<(String, String)>) -> (r: JsonValue)
    ensures
        r@ == string_object(pairs_view(p@)),
{
    let mut m: Vec<(String, JsonValue)> = Vec::new();
    let mut i: usize = 0;
    while i < p.len()
        invariant
            i <= p@.len(),
            m@.len() == i,
            forall|k: int| 0 <= k < i ==> (#[trigger] m@[k]).0@ == p@[k].0@ && m@[k].1@ == Json::Str(p@[k].1@),
        decreases p@.len() - i,
    {
        m.push((p[i].0.clone(), JsonValue::Str(p[i].1.clone())));
        i = i + 1;
    }
    proof {
        lemma_jms(m@);
        assert(jms(m@) =~= pairs_view(p@).map_values(|q: (Seq<char>, Seq<char>)| (q.0, Json::Str(q.1))));
    }
    JsonValue::Object(m)
}

/// An event written as JSON (what serializing the event gives).
pub fn event_to_json(e: &SmeeEvent) -> (r: JsonValue)
    ensures
        r@ == event_json(*e),
{
    let mut ts: Vec<char> = Vec::new();
    push_decimal(&mut ts, e.timestamp);
    let mut m: Vec<(String, JsonValue)> = Vec::new();
    m.push((key("headers"), pairs_object(&e.headers)));
    m.push((key("query"), pairs_object(&e.query)));
    m.push((key("body"), e.body.deep_clone()));
    m.push((key("timestamp"), JsonValue::Number(string_of(ts.as_slice()))));
    proof {
        lemma_jms(m@);
        assert(jms(m@) =~= seq![
            ("headers"@, string_object(pairs_view(e.headers@))),
            ("query"@, string_object(pairs_view(e.query@))),
            ("body"@, e.body@),
            ("timestamp"@, Json::Num(decimal(e.timestamp as nat))),
        ]);
    }
    JsonValue::Object(m)
}

// ── events as compact JSON text, in field order ─────────────────

/// One member of a string map as compact JSON text: `"key":"value"`.
pub open spec fn member_text(q: (Seq<char>, Seq<char>)) -> Seq<char> {
    json_string(q.0) + seq![':'] + json_string(q.1)
}

/// The members of a string map as compact JSON text, separated by commas.
pub open spec fn members_text(p: Seq<(Seq<char>, Seq<char>)>) -> Seq<char>
    decreases p.len(),
{
    if p.len() == 0 {
        Seq::empty()
    } else if p.len() == 1 {
        member_text(p[0])
    } else {
        members_text(p.drop_last()) + seq![','] + member_text(p.last())
    }
}

/// A string map as a compact JSON object, its members in order.
pub open spec fn pairs_text(p: Seq<(Seq<char>, Seq<char>)>) -> Seq<char> {
    seq!['{'] + members_text(p) + seq!['}']
}

/// The compact JSON text of an event, its fields in declaration order
/// (`headers`, `query`, `body`, `timestamp`), as serializing the event
/// writes it; the body is rendered by `serde_json`.
pub open spec fn event_text(e: SmeeEvent) -> Seq<char> {
    "{\"headers\":"@ + pairs_text(pairs_view(e.headers@)) + ",\"query\":"@ + pairs_text(
        pairs_view(e.query@),
    ) + ",\"body\":"@ + json_text(e.body@) + ",\"timestamp\":"@ + decimal(e.timestamp as nat)
        + seq!['}']
}

/// Appends a string map as a compact JSON object to `v`.
fn push_pairs_text(v: &mut Vec<char>, p: &Vec<(String, String)>)
    ensures
        final(v)@ == old(v)@ + pairs_text(pairs_view(p@)),
{
    let ghost pv = pairs_view(p@);
    v.push('{');
    let mut i: usize = 0;
    while i < p.len()
        invariant
            i <= p@.len(),
            pv == pairs_view(p@),
            pv.len() == p@.len(),
            v@ == old(v)@ + seq!['{'] + members_text(pv.take(i as int)),
        decreases p@.len() - i,
    {
        let ghost before = v@;
        if i > 0 {
            v.push(',');
        }
        push_json_string(v, p[i].0.as_str());
        v.push(':');
        push_json_string(v, p[i].1.as_str());
        proof {
            let t = pv.take(i + 1 as int);
            assert(t.drop_last() =~= pv.take(i as int));
            assert(t.last() == pv[i as int]);
            assert(pv[i as int] == (p@[i as int].0@, p@[i as int].1@));
            if i == 0 {
                assert(pv.take(0) =~= Seq::<(Seq<char>, Seq<char>)>::empty());
                assert(v@ =~= old(v)@ + seq!['{'] + members_text(t));
            } else {
                assert(v@ =~= old(v)@ + seq!['{'] + members_text(t));
            }
        }
        i = i + 1;
    }
    v.push('}');
    assert(pv.take(p@.len() as int) =~= pv);
    assert(v@ =~= old(v)@ + pairs_text(pairs_view(p@)));
}

/// The compact JSON text of an event, fields in declaration order.
pub fn render_event(e: &SmeeEvent) -> (r: String)
    ensures
        r@ == event_text(*e),
{
    let mut v: Vec<char> = Vec::new();
    push_str(&mut v, "{\"headers\":");
    push_pairs_text(&mut v, &e.headers);
    push_str(&mut v, ",\"query\":");
    push_pairs_text(&mut v, &e.query);
    push_str(&mut v, ",\"body\":");
    let body = render_json(&e.body);
    push_str(&mut v, body.as_str());
    push_str(&mut v, ",\"timestamp\":");
    push_decimal(&mut v, e.timestamp);
    v.push('}');
    string_of(v.as_slice())
}

// ── events as indented JSON text, in field order ────────────────

/// `t` with two more spaces after every line break: indented JSON text moved
/// one level deeper (a JSON text has line breaks only between its tokens).
pub open spec fn indent_more(t: Seq<char>) -> Seq<char>
    decreases t.len(),
{
    if t.len() == 0 {
        Seq::empty()
    } else {
        indent_more(t.drop_last()) + if t.last() == '\n' {
            seq!['\n', ' ', ' ']
        } else {
            seq![t.last()]
        }
    }
}

/// The members of a string map as indented JSON at the second level, each
/// on a line of its own: `"key": "value"`.
pub open spec fn members_pretty(p: Seq<(Seq<char>, Seq<char>)>) -> Seq<char>
    decreases p.len(),
{
    if p.len() == 0 {
        Seq::empty()
    } else {
        members_pretty(p.drop_last()) + (if p.len() == 1 {
            "\n    "@
        } else {
            ",\n    "@
        }) + json_string(p.last().0) + ": "@ + json_string(p.last().1)
    }
}

/// A string map as indented JSON at the second level: `{}` when empty.
pub open spec fn pairs_pretty(p: Seq<(Seq<char>, Seq<char>)>) -> Seq<char> {
    if p.len() == 0 {
        "{}"@
    } else {
        seq!['{'] + members_pretty(p) + "\n  }"@
    }
}

/// The indented JSON text of an event, its fields in declaration order, as
/// serializing the event with two-space indentation writes it; the body is
/// rendered by `serde_json` and moved one level deeper.
pub open spec fn event_pretty(e: SmeeEvent) -> Seq<char> {
    "{\n  \"headers\": "@ + pairs_pretty(pairs_view(e.headers@)) + ",\n  \"query\": "@ + pairs_pretty(
        pairs_view(e.query@),
    ) + ",\n  \"body\": "@ + indent_more(json_pretty(e.body@)) + ",\n  \"timestamp\": "@ + decimal(
        e.timestamp as nat,
    ) + "\n}"@
}

/// Appends `t` to `v`, two more spaces after every line break.
fn push_indented(v: &mut Vec<char>, t: &str)
    ensures
        final(v)@ == old(v)@ + indent_more(t@),
{
    let cs = chars_of(t);
    let mut i: usize = 0;
    while i < cs.len()
        invariant
            i <= cs@.len(),
            cs@ == t@,
            v@ == old(v)@ + indent_more(cs@.take(i as int)),
        decreases cs@.len() - i,
    {
        proof {
            assert(cs@.take(i + 1 as int).drop_last() =~= cs@.take(i as int));
            assert(cs@.take(i + 1 as int).last() == cs@[i as int]);
        }
        if cs[i] == '\n' {
            v.push('\n');
            v.push(' ');
            v.push(' ');
        } else {
            v.push(cs[i]);
        }
        proof {
            assert(v@ =~= old(v)@ + indent_more(cs@.take(i + 1 as int)));
        }
        i = i + 1;
    }
    assert(cs@.take(cs@.len() as int) =~= cs@);
}

/// Appends a string map as indented JSON at the second level to `v`.
fn push_pairs_pretty(v: &mut Vec<char>, p: &Vec<(String, String)>)
    ensures
        final(v)@ == old(v)@ + pairs_pretty(pairs_view(p@)),
{
    let ghost pv = pairs_view(p@);
    if p.len() == 0 {
        push_str(v, "{}");
        return;
    }
    v.push('{');
    let mut i: usize = 0;
    while i < p.len()
        invariant
            i <= p@.len(),
            pv == pairs_view(p@),
            pv.len() == p@.len(),
            v@ == old(v)@ + seq!['{'] + members_pretty(pv.take(i as int)),
        decreases p@.len() - i,
    {
        if i == 0 {
            push_str(v, "\n    ");
        } else {
            push_str(v, ",\n    ");
        }
        push_json_string(v, p[i].0.as_str());
        push_str(v, ": ");
        push_json_string(v, p[i].1.as_str());
        proof {
            let t = pv.take(i + 1 as int);
            assert(t.drop_last() =~= pv.take(i as int));
            assert(t.last() == pv[i as int]);
            assert(pv[i as int] == (p@[i as int].0@, p@[i as int].1@));
            assert(v@ =~= old(v)@ + seq!['{'] + members_pretty(t));
        }
        i = i + 1;
    }
    push_str(v, "\n  }");
    assert(pv.take(p@.len() as int) =~= pv);
    assert(v@ =~= old(v)@ + pairs_pretty(pairs_view(p@)));
}

/// The indented JSON text of an event, fields in declaration order.
pub fn render_event_pretty(e: &SmeeEvent) -> (r: String)
    ensures
        r@ == event_pretty(*e),
{
    let mut v: Vec<char> = Vec::new();
    push_str(&mut v, "{\n  \"headers\": ");
    push_pairs_pretty(&mut v, &e.headers);
    push_str(&mut v, ",\n  \"query\": ");
    push_pairs_pretty(&mut v, &e.query);
    push_str(&mut v, ",\n  \"body\": ");
    let body = render_json_pretty(&e.body);
    push_indented(&mut v, body.as_str());
    push_str(&mut v, ",\n  \"timestamp\": ");
    push_decimal(&mut v, e.timestamp);
    push_str(&mut v, "\n}");
    string_of(v.as_slice())
}

// ── events read back from JSON ──────────────────────────────────

/// Whether every character is a decimal digit.
pub open spec fn all_digits(t: Seq<char>) -> bool {
    forall|i: int| 0 <= i < t.len() ==> '0' <= #[trigger] t[i] && t[i] <= '9'
}

/// The value of a run of decimal digits.
pub open spec fn digits_value(t: Seq<char>) -> nat
    decreases t.len(),
{
    if t.len() == 0 {
        0
    } else {
        digits_value(t.drop_last()) * 10 + (t.last() as nat - 48) as nat
    }
}

/// The unsigned 64-bit number that a JSON number text stands for: plain
/// decimal digits within range (a fraction, an exponent or a sign is refused).
pub open spec fn u64_text(t: Seq<char>) -> Option<u64> {
    if t.len() > 0 && all_digits(t) && digits_value(t) <= u64::MAX {
        Some(digits_value(t) as u64)
    } else {
        None
    }
}

proof fn lemma_digits_grow(t: Seq<char>, i: int)
    requires
        all_digits(t),
        0 <= i <= t.len(),
    ensures
        digits_value(t.take(i)) <= digits_value(t),
    decreases t.len() - i,
{
    if i < t.len() {
        lemma_digits_grow(t, i + 1);
        assert(t.take(i + 1).drop_last() == t.take(i));
        assert(t.take(i + 1).last() == t[i]);
    } else {
        assert(t.take(i) == t);
    }
}

/// Reads a JSON number text as an unsigned 64-bit number.
pub fn parse_u64(t: &str) -> (r: Option<u64>)
    ensures
        r == u64_text(t@),
{
    let cs = chars_of(t);
    if cs.len() == 0 {
        return None;
    }
    let mut i: usize = 0;
    while i < cs.len()
        invariant
            i <= cs@.len(),
            cs@ == t@,
            forall|k: int| 0 <= k < i ==> '0' <= #[trigger] cs@[k] && cs@[k] <= '9',
        decreases cs@.len() - i,
    {
        if cs[i] < '0' || cs[i] > '9' {
            return None;
        }
        i = i + 1;
    }
    let mut acc: u64 = 0;
    let mut j: usize = 0;
    assert(cs@.take(0) =~= Seq::<char>::empty());
    while j < cs.len()
        invariant
            j <= cs@.len(),
            cs@ == t@,
            all_digits(cs@),
            acc == digits_value(cs@.take(j as int)),
        decreases cs@.len() - j,
    {
        let d: u64 = (cs[j] as u32 - 48) as u64;
        proof {
            assert(cs@.take(j + 1).drop_last() == cs@.take(j as int));
            assert(cs@.take(j + 1).last() == cs@[j as int]);
            assert('0' <= cs@[j as int] && cs@[j as int] <= '9');
        }
        match acc.checked_mul(10) {
            Some(a10) => match a10.checked_add(d) {
                Some(a) => {
                    acc = a;
                },
                None => {
                    proof {
                        lemma_digits_grow(cs@, j + 1);
                    }
                    return None;
                },
            },
            None => {
                proof {
                    lemma_digits_grow(cs@, j + 1);
                }
                return None;
            },
        }
        j = j + 1;
    }
    assert(cs@.take(cs@.len() as int) == cs@);
    Some(acc)
}

/// Every member of an object is a string: then their pairs; otherwise `None`
/// (a map of strings is refused when a value is not a string).
pub open spec fn all_string_members(m: Seq<(Seq<char>, Json)>) -> Option<Seq<(Seq<char>, Seq<char>)>>
    decreases m.len(),
{
    if m.len() == 0 {
        Some(Seq::empty())
    } else {
        match (all_string_members(m.drop_last()), m.last().1) {
            (Some(rest), Json::Str(s)) => Some(rest.push((m.last().0, s))),
            _ => None,
        }
    }
}

/// A map of strings read from JSON: an object whose values are all strings.
pub open spec fn string_map_decode(j: Json) -> Option<Seq<(Seq<char>, Seq<char>)>> {
    match j {
        Json::Obj(m) => all_string_members(m),
        _ => None,
    }
}

/// An event read back from its four fields; `None` when one is missing or
/// of the wrong kind.
pub open spec fn event_fields_decode(h: Option<Json>, q: Option<Json>, b: Option<Json>, t: Option<Json>) -> Option<(Seq<(Seq<char>, Seq<char>)>, Seq<(Seq<char>, Seq<char>)>, Json, u64)> {
    match (h, q, b, t) {
        (Some(h), Some(q), Some(b), Some(Json::Num(t))) => match (string_map_decode(h), string_map_decode(q), u64_text(t)) {
            (Some(hs), Some(qs), Some(ts)) => Some((hs, qs, b, ts)),
            _ => None,
        },
        _ => None,
    }
}

/// An event read back from JSON the way its deserializer reads it: an object
/// with `headers` and `query` (objects of strings), `body` (any value) and
/// `timestamp` (an unsigned 64-bit number), other members ignored; or an
/// array of exactly these four values in that order.
pub open spec fn event_decode(j: Json) -> Option<(Seq<(Seq<char>, Seq<char>)>, Seq<(Seq<char>, Seq<char>)>, Json, u64)> {
    match j {
        Json::Obj(_) => event_fields_decode(get(j, "headers"@), get(j, "query"@), get(j, "body"@), get(j, "timestamp"@)),
        Json::Arr(a) => if a.len() == 4 {
            event_fields_decode(Some(a[0]), Some(a[1]), Some(a[2]), Some(a[3]))
        } else {
            None
        },
        _ => None,
    }
}

fn string_map_from(v: &JsonValue) -> (r: Option<Vec<(String, String)>>)
    ensures
        match r {
            Some(p) => string_map_decode(v@) == Some(pairs_view(p@)),
            None => string_map_decode(v@) is None,
        },
{
    match v {
        JsonValue::Object(m) => {
            let mut r: Vec<(String, String)> = Vec::new();
            let mut i: usize = 0;
            assert(m@.take(0) =~= Seq::<(String, JsonValue)>::empty());
            while i < m.len()
                invariant
                    i <= m@.len(),
                    v@ == Json::Obj(jms(m@)),
                    all_string_members(jms(m@.take(i as int))) == Some(pairs_view(r@)),
                decreases m@.len() - i,
            {
                proof {
                    assert(m@.take(i + 1).drop_last() == m@.take(i as int));
                    assert(m@.take(i + 1).last() == m@[i as int]);
                    let x = jms(m@.take(i as int));
                    let y = jms(m@.take(i + 1));
                    assert(y == x.push((m@[i as int].0@, jv(m@[i as int].1))));
                    assert(y.drop_last() == x);
                    lemma_jms(m@);
                }
                match &m[i].1 {
                    JsonValue::Str(s) => {
                        let ghost before = r@;
                        r.push((m[i].0.clone(), s.clone()));
                        proof {
                            assert(pairs_view(r@) =~= pairs_view(before).push((m@[i as int].0@, s@)));
                        }
                    },
                    _ => {
                        proof {
                            lemma_all_string_members_prefix(jms(m@), i + 1);
                            assert(jms(m@.take(i + 1)) == jms(m@).take(i + 1)) by {
                                lemma_jms_take(m@, i + 1);
                            }
                            assert(m@.take(m@.len() as int) == m@);
                        }
                        return None;
                    },
                }
                i = i + 1;
            }
            assert(m@.take(m@.len() as int) == m@);
            Some(r)
        },
        _ => None,
    }
}

proof fn lemma_jms_take(m: Seq<(String, JsonValue)>, i: int)
    requires
        0 <= i <= m.len(),
    ensures
        jms(m.take(i)) == jms(m).take(i),
{
    lemma_jms(m);
    lemma_jms(m.take(i));
    assert(jms(m.take(i)) =~= jms(m).take(i));
}

proof fn lemma_all_string_members_prefix(m: Seq<(Seq<char>, Json)>, i: int)
    requires
        0 <= i <= m.len(),
        all_string_members(m.take(i)) is None,
    ensures
        all_string_members(m) is None,
    decreases m.len() - i,
{
    if i < m.len() {
        assert(m.take(i + 1).drop_last() == m.take(i));
        lemma_all_string_members_prefix(m, i + 1);
    } else {
        assert(m.take(i) == m);
    }
}

fn fields_event(h: Option<&JsonValue>, q: Option<&JsonValue>, b: Option<&JsonValue>, t: Option<&JsonValue>) -> (r: Option<SmeeEvent>)
    ensures
        ({
            let d = event_fields_decode(
                match h { Some(x) => Some(x@), None => None },
                match q { Some(x) => Some(x@), None => None },
                match b { Some(x) => Some(x@), None => None },
                match t { Some(x) => Some(x@), None => None },
            );
            match r {
                Some(e) => d == Some((pairs_view(e.headers@), pairs_view(e.query@), e.body@, e.timestamp)),
                None => d is None,
            }
        }),
{
    let (h, q, b, t) = match (h, q, b, t) {
        (Some(h), Some(q), Some(b), Some(t)) => (h, q, b, t),
        _ => return None,
    };
    let ts = match t {
        JsonValue::Number(s) => match parse_u64(s.as_str()) {
            Some(n) => n,
            None => return None,
        },
        _ => return None,
    };
    let headers = match string_map_from(h) {
        Some(p) => p,
        None => return None,
    };
    let query = match string_map_from(q) {
        Some(p) => p,
        None => return None,
    };
    Some(SmeeEvent { headers, query, body: b.deep_clone(), timestamp: ts })
}

/// Reads an event back from JSON (see [`event_decode`]); `None` when the
/// value does not have the shape of an event.
pub fn event_from_json(v: &JsonValue) -> (r: Option<SmeeEvent>)
    ensures
        match r {
            Some(e) => event_decode(v@) == Some((pairs_view(e.headers@), pairs_view(e.query@), e.body@, e.timestamp)),
            None => event_decode(v@) is None,
        },
{
    match v {
        JsonValue::Object(_) => fields_event(v.get("headers"), v.get("query"), v.get("body"), v.get("timestamp")),
        JsonValue::Array(a) => {
            proof {
                crate::json::lemma_jvs(a@);
            }
            if a.len() != 4 {
                return None;
            }
            fields_event(Some(&a[0]), Some(&a[1]), Some(&a[2]), Some(&a[3]))
        },
        _ => None,
    }
}

proof fn lemma_decimal_digits(n: nat)
    ensures
        decimal(n).len() > 0,
        all_digits(decimal(n)),
        digits_value(decimal(n)) == n,
    decreases n,
{
    assert(crate::text::digit(n % 10) as nat == 48 + n % 10);
    if n < 10 {
        assert(decimal(n) == seq![crate::text::digit(n)]);
        assert(decimal(n).drop_last() =~= Seq::<char>::empty());
        assert(digits_value(decimal(n)) == digits_value(Seq::<char>::empty()) * 10 + (crate::text::digit(n) as nat - 48) as nat);
    }
    if n >= 10 {
        lemma_decimal_digits(n / 10);
        let d = decimal(n);
        assert(d == decimal(n / 10).push(crate::text::digit(n % 10)));
        assert(d.drop_last() == decimal(n / 10));
        assert forall|i: int| 0 <= i < d.len() implies '0' <= #[trigger] d[i] && d[i] <= '9' by {
            if i < d.len() - 1 {
                assert(d[i] == decimal(n / 10)[i]);
            }
        }
    }
}

proof fn lemma_string_members_roundtrip(p: Seq<(Seq<char>, Seq<char>)>)
    ensures
        all_string_members(p.map_values(|q: (Seq<char>, Seq<char>)| (q.0, Json::Str(q.1)))) == Some(p),
    decreases p.len(),
{
    let m = p.map_values(|q: (Seq<char>, Seq<char>)| (q.0, Json::Str(q.1)));
    if p.len() > 0 {
        lemma_string_members_roundtrip(p.drop_last());
        assert(m.drop_last() =~= p.drop_last().map_values(|q: (Seq<char>, Seq<char>)| (q.0, Json::Str(q.1))));
        assert(p.drop_last().push(p.last()) =~= p);
    } else {
        assert(p =~= Seq::<(Seq<char>, Seq<char>)>::empty());
    }
}

/// An event written as JSON reads back as the same event, so an event handed
/// to a policy plugin and handed back unchanged is the event that went in.
pub proof fn law_event_json_roundtrip(e: SmeeEvent)
    ensures
        event_decode(event_json(e)) == Some(
            (pairs_view(e.headers@), pairs_view(e.query@), e.body@, e.timestamp),
        ),
{
    reveal_strlit("headers");
    reveal_strlit("query");
    reveal_strlit("body");
    reveal_strlit("timestamp");
    assert("headers"@.len() != "query"@.len());
    assert("headers"@.len() != "body"@.len());
    assert("headers"@.len() != "timestamp"@.len());
    assert("query"@.len() != "body"@.len());
    assert("query"@.len() != "timestamp"@.len());
    assert("body"@.len() != "timestamp"@.len());
    let j = event_json(e);
    let m = seq![
        ("headers"@, string_object(pairs_view(e.headers@))),
        ("query"@, string_object(pairs_view(e.query@))),
        ("body"@, e.body@),
        ("timestamp"@, Json::Num(decimal(e.timestamp as nat))),
    ];
    assert(m.drop_first() =~= seq![
        ("query"@, string_object(pairs_view(e.query@))),
        ("body"@, e.body@),
        ("timestamp"@, Json::Num(decimal(e.timestamp as nat))),
    ]);
    assert(m.drop_first().drop_first() =~= seq![
        ("body"@, e.body@),
        ("timestamp"@, Json::Num(decimal(e.timestamp as nat))),
    ]);
    assert(m.drop_first().drop_first().drop_first() =~= seq![
        ("timestamp"@, Json::Num(decimal(e.timestamp as nat))),
    ]);
    assert(get(j, "headers"@) == Some(string_object(pairs_view(e.headers@))));
    assert(crate::json::member(m, "query"@) == crate::json::member(m.drop_first(), "query"@));
    assert(get(j, "query"@) == Some(string_object(pairs_view(e.query@))));
    assert(crate::json::member(m, "body"@) == crate::json::member(m.drop_first(), "body"@));
    assert(crate::json::member(m.drop_first(), "body"@) == crate::json::member(m.drop_first().drop_first(), "body"@));
    assert(get(j, "body"@) == Some(e.body@));
    assert(crate::json::member(m, "timestamp"@) == crate::json::member(m.drop_first(), "timestamp"@));
    assert(crate::json::member(m.drop_first(), "timestamp"@) == crate::json::member(m.drop_first().drop_first(), "timestamp"@));
    assert(crate::json::member(m.drop_first().drop_first(), "timestamp"@) == crate::json::member(m.drop_first().drop_first().drop_first(), "timestamp"@));
    assert(get(j, "timestamp"@) == Some(Json::Num(decimal(e.timestamp as nat))));
    lemma_string_members_roundtrip(pairs_view(e.headers@));
    lemma_string_members_roundtrip(pairs_view(e.query@));
    lemma_decimal_digits(e.timestamp as nat);
}

} // verus!
