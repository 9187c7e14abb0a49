//! JSON values as plain data, with text parsing and rendering done by `serde_json`.
use vstd::prelude::*;
use crate::text::{chars_of, string_of};

verus! {

/// A JSON value in specifications.
pub enum Json {
    Null,
    Bool(bool),
    /// A number, by its JSON text.
    Num(Seq<char>),
    Str(Seq<char>),
    Arr(Seq<Json>),
    /// Members in order; parsed objects hold each key once.
    Obj(Seq<(Seq<char>, Json)>),
}

/// A JSON value.
#[derive(Debug)]
pub enum JsonValue {
    Null,
    Bool(bool),
    /// A number, by its JSON text.
    Number(String),
    Str(String),
    Array(Vec<JsonValue>),
    /// Members in order; parsed objects hold each key once.
    Object(Vec<(String, JsonValue)>),
}

pub open spec fn jv(v: JsonValue) -> Json
    decreases v,
{
    match v {
        JsonValue::Null => Json::Null,
        JsonValue::Bool(b) => Json::Bool(b),
        JsonValue::Number(s) => Json::Num(s@),
        JsonValue::Str(s) => Json::Str(s@),
        JsonValue::Array(a) => Json::Arr(jvs(a@)),
        JsonValue::Object(m) => Json::Obj(jms(m@)),
    }
}

pub open spec fn jvs(s: Seq<JsonValue>) -> Seq<Json>
    decreases s,
{
    if s.len() == 0 {
        Seq::empty()
    } else {
        jvs(s.drop_last()).push(jv(s.last()))
    }
}

pub open spec fn jms(s: Seq<(String, JsonValue)>) -> Seq<(Seq<char>, Json)>
    decreases s,
{
    if s.len() == 0 {
        Seq::empty()
    } else {
        jms(s.drop_last()).push((s.last().0@, jv(s.last().1)))
    }
}

impl View for JsonValue {
    type V = Json;

    open spec fn view(&self) -> Json {
        jv(*self)
    }
}

pub proof fn lemma_jvs(s: Seq<JsonValue>)
    ensures
        jvs(s).len() == s.len(),
        forall|i: int| 0 <= i < s.len() ==> #[trigger] jvs(s)[i] == jv(s[i]),
    decreases s.len(),
{
    if s.len() > 0 {
        lemma_jvs(s.drop_last());
        assert forall|i: int| 0 <= i < s.len() implies #[trigger] jvs(s)[i] == jv(s[i]) by {
            if i < s.len() - 1 {
                assert(s.drop_last()[i] == s[i]);
            }
        }
    }
}

pub proof fn lemma_jms(s: Seq<(String, JsonValue)>)
    ensures
        jms(s).len() == s.len(),
        forall|i: int| 0 <= i < s.len() ==> #[trigger] jms(s)[i] == (s[i].0@, jv(s[i].1)),
    decreases s.len(),
{
    if s.len() > 0 {
        lemma_jms(s.drop_last());
        assert forall|i: int| 0 <= i < s.len() implies #[trigger] jms(s)[i] == (
            s[i].0@,
            jv(s[i].1),
        ) by {
            if i < s.len() - 1 {
                assert(s.drop_last()[i] == s[i]);
            }
        }
    }
}

/// The value of the first member named `key`.
pub open spec fn member(m: Seq<(Seq<char>, Json)>, key: Seq<char>) -> Option<Json>
    decreases m.len(),
{
    if m.len() == 0 {
        None
    } else if m[0].0 == key {
        Some(m[0].1)
    } else {
        member(m.drop_first(), key)
    }
}

/// The member `key` of an object; `None` for a missing member or a value that
/// is not an object (what `serde_json::Value::get` with a string key returns).
pub open spec fn get(j: Json, key: Seq<char>) -> Option<Json> {
    match j {
        Json::Obj(m) => member(m, key),
        _ => None,
    }
}

/// The text of a string value.
pub open spec fn as_str(j: Option<Json>) -> Option<Seq<char>> {
    match j {
        Some(Json::Str(s)) => Some(s),
        _ => None,
    }
}

/// Whether the value is an object.
pub open spec fn is_obj(j: Json) -> bool {
    j is Obj
}

/// The value that `serde_json` parses from `text`, if the text is JSON.
pub uninterp spec fn json_parse(text: Seq<char>) -> Option<Json>;

/// The compact text that `serde_json` renders for a value.
pub uninterp spec fn json_text(v: Json) -> Seq<char>;

/// The indented text that `serde_json` renders for a value.
pub uninterp spec fn json_pretty(v: Json) -> Seq<char>;

/// `serde_json::from_str::<serde_json::Value>`, read into a [`JsonValue`].
/// Its result is named by [`json_parse`]; nothing more of it is stated.
#[verifier::external_body]
pub fn parse_json(text: &str) -> (r: Option<JsonValue>)
    ensures
        match r {
            Some(v) => json_parse(text@) == Some(v@),
            None => json_parse(text@) is None,
        },
{
    serde_json::from_str::<serde_json::Value>(text).ok().map(|v| from_serde(&v))
}

/// `serde_json::to_string` of the value; named by [`json_text`].
#[verifier::external_body]
pub fn render_json(v: &JsonValue) -> (r: String)
    ensures
        r@ == json_text(v@),
{
    serde_json::to_string(&to_serde(v)).unwrap_or_default()
}

/// `serde_json::to_string_pretty` of the value; named by [`json_pretty`].
#[verifier::external_body]
pub fn render_json_pretty(v: &JsonValue) -> (r: String)
    ensures
        r@ == json_pretty(v@),
{
    serde_json::to_string_pretty(&to_serde(v)).unwrap_or_default()
}

/// `serde_json::Value`, carried opaquely between the conversion helpers.
#[verifier::external_type_specification]
#[verifier::external_body]
pub struct ExSerdeValue(serde_json::Value);

/// Reads a `serde_json::Value` into a [`JsonValue`], variant by variant.
#[verifier::external_body]
fn from_serde(v: &serde_json::Value) -> JsonValue {
    match v {
        serde_json::Value::Null => JsonValue::Null,
        serde_json::Value::Bool(b) => JsonValue::Bool(*b),
        serde_json::Value::Number(n) => JsonValue::Number(n.to_string()),
        serde_json::Value::String(s) => JsonValue::Str(s.clone()),
        serde_json::Value::Array(a) => JsonValue::Array(a.iter().map(from_serde).collect()),
        serde_json::Value::Object(m) => JsonValue::Object(
            m.iter().map(|(k, x)| (k.clone(), from_serde(x))).collect(),
        ),
    }
}

/// Writes a [`JsonValue`] as a `serde_json::Value`, variant by variant.
#[verifier::external_body]
fn to_serde(v: &JsonValue) -> serde_json::Value {
    match v {
        JsonValue::Null => serde_json::Value::Null,
        JsonValue::Bool(b) => serde_json::Value::Bool(*b),
        JsonValue::Number(s) => serde_json::from_str(s).unwrap_or(serde_json::Value::Null),
        JsonValue::Str(s) => serde_json::Value::String(s.clone()),
        JsonValue::Array(a) => serde_json::Value::Array(a.iter().map(to_serde).collect()),
        JsonValue::Object(m) => serde_json::Value::Object(
            m.iter().map(|(k, x)| (k.clone(), to_serde(x))).collect(),
        ),
    }
}

impl JsonValue {
    /// The member `key` of an object value (`serde_json::Value::get`).
    pub fn get(&self, key: &str) -> (r: Option<&JsonValue>)
        ensures
            match r {
                Some(v) => get(self@, key@) == Some(v@),
                None => get(self@, key@) is None,
            },
    {
        match self {
            JsonValue::Object(m) => {
                proof {
                    lemma_jms(m@);
                }
                let mut i: usize = 0;
                assert(jms(m@).skip(0) == jms(m@));
                while i < m.len()
                    invariant
                        i <= m@.len(),
                        self@ == Json::Obj(jms(m@)),
                        jms(m@).len() == m@.len(),
                        forall|j: int| 0 <= j < m@.len() ==> #[trigger] jms(m@)[j] == (
                            m@[j].0@,
                            jv(m@[j].1),
                        ),
                        member(jms(m@), key@) == member(jms(m@).skip(i as int), key@),
                    decreases m@.len() - i,
                {
                    let ghost rest = jms(m@).skip(i as int);
                    assert(rest[0] == jms(m@)[i as int]);
                    if crate::text::chars_eq_str(chars_of(m[i].0.as_str()).as_slice(), key) {
                        return Some(&m[i].1);
                    }
                    assert(rest.drop_first() == jms(m@).skip(i + 1));
                    i = i + 1;
                }
                None
            },
            _ => None,
        }
    }

    /// The text of a string value (`serde_json::Value::as_str`).
    pub fn as_str(&self) -> (r: Option<&String>)
        ensures
            match r {
                Some(s) => self@ == Json::Str(s@),
                None => !(self@ is Str),
            },
    {
        match self {
            JsonValue::Str(s) => Some(s),
            _ => None,
        }
    }

    /// Whether this is an object value.
    pub fn is_object(&self) -> (r: bool)
        ensures
            r == is_obj(self@),
    {
        match self {
            JsonValue::Object(_) => true,
            _ => false,
        }
    }

    /// The value of a boolean value (`serde_json::Value::as_bool`).
    pub fn as_bool(&self) -> (r: Option<bool>)
        ensures
            match r {
                Some(b) => self@ == Json::Bool(b),
                None => !(self@ is Bool),
            },
    {
        match self {
            JsonValue::Bool(b) => Some(*b),
            _ => None,
        }
    }

    /// A copy of the value.
    pub fn deep_clone(&self) -> (r: JsonValue)
        ensures
            r@ == self@,
        decreases self,
    {
        match self {
            JsonValue::Null => JsonValue::Null,
            JsonValue::Bool(b) => JsonValue::Bool(*b),
            JsonValue::Number(s) => JsonValue::Number(s.clone()),
            JsonValue::Str(s) => JsonValue::Str(s.clone()),
            JsonValue::Array(a) => {
                let mut out: Vec<JsonValue> = Vec::new();
                let mut i: usize = 0;
                while i < a.len()
                    invariant
                        i <= a@.len(),
                        *self == JsonValue::Array(*a),
                        jvs(out@) == jvs(a@.take(i as int)),
                    decreases a@.len() - i,
                {
                    proof {
                        assert(*self == JsonValue::Array(*a));
                        assert(decreases_to!(*self => (*self)->Array_0));
                        assert(decreases_to!(a => a@));
                        assert(decreases_to!(a@ => a@[i as int]));
                    }
                    let x = a[i].deep_clone();
                    proof {
                        assert(a@.take(i + 1).drop_last() == a@.take(i as int));
                        assert(a@.take(i + 1).last() == a@[i as int]);
                    }
                    let ghost before = out@;
                    out.push(x);
                    proof {
                        assert(out@.drop_last() == before);
                    }
                    i = i + 1;
                }
                assert(a@.take(a@.len() as int) == a@);
                JsonValue::Array(out)
            },
            JsonValue::Object(m) => {
                let mut out: Vec<(String, JsonValue)> = Vec::new();
                let mut i: usize = 0;
                while i < m.len()
                    invariant
                        i <= m@.len(),
                        *self == JsonValue::Object(*m),
                        jms(out@) == jms(m@.take(i as int)),
                    decreases m@.len() - i,
                {
                    let k = m[i].0.clone();
                    proof {
                        assert(*self == JsonValue::Object(*m));
                        assert(decreases_to!(*self => (*self)->Object_0));
                        assert(decreases_to!(m => m@));
                        assert(decreases_to!(m@ => m@[i as int]));
                        assert(decreases_to!(m@[i as int] => m@[i as int].1));
                    }
                    let x = m[i].1.deep_clone();
                    proof {
                        assert(m@.take(i + 1).drop_last() == m@.take(i as int));
                        assert(m@.take(i + 1).last() == m@[i as int]);
                    }
                    let ghost before = out@;
                    out.push((k, x));
                    proof {
                        assert(out@.drop_last() == before);
                    }
                    i = i + 1;
                }
                assert(m@.take(m@.len() as int) == m@);
                JsonValue::Object(out)
            },
        }
    }
}

/// A string value with the characters of `v`.
pub fn str_value(v: &[char]) -> (r: JsonValue)
    ensures
        r@ == Json::Str(v@),
{
    JsonValue::Str(string_of(v))
}

} // verus!
