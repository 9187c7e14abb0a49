//! The two filter stages an event goes through before it reaches the agent:
//! a regular expression on the event's JSON text, then a policy plugin that
//! may refuse the event or hand back a changed one.
//!
//! A policy plugin answers `{"allow": <bool>, "json": <optional event>}` in
//! the output frame of [`crate::frame`].
use vstd::prelude::*;
use crate::event::{event_decode, event_from_json, event_text, pairs_view, render_event, SmeeEvent};
use crate::frame::{le_value, read_output, FrameError};
use crate::json::{get, json_parse, parse_json, Json, JsonValue};
use crate::text::{chars_of, decode_valid_utf8, push_str, string_of, trim, trim_chars, utf8_check};

verus! {

/// `regex::Regex`, carried opaquely inside [`CompiledRegex`].
#[verifier::external_type_specification]
#[verifier::external_body]
pub struct ExRegex(regex::Regex);

/// Whether `regex::Regex::new` accepts the pattern (a valid pattern within
/// the default size limit).
pub uninterp spec fn regex_valid(pattern: Seq<char>) -> bool;

/// Whether the regular expression of `pattern` matches somewhere in `text`
/// (`regex::Regex::is_match`).
pub uninterp spec fn regex_matches(pattern: Seq<char>, text: Seq<char>) -> bool;

/// A compiled regular expression and the pattern it was compiled from.
pub struct CompiledRegex {
    re: regex::Regex,
    pattern: String,
}

impl CompiledRegex {
    /// The pattern the expression was compiled from.
    pub closed spec fn source(&self) -> Seq<char> {
        self.pattern@
    }
}

/// `regex::Regex::new`: `Some` exactly when the pattern is accepted, holding
/// the pattern it was compiled from.
#[verifier::external_body]
fn compile_regex(pattern: &str) -> (r: Option<CompiledRegex>)
    ensures
        r is Some <==> regex_valid(pattern@),
        r matches Some(c) ==> c.source() == pattern@,
{
    match regex::Regex::new(pattern) {
        Ok(re) => Some(CompiledRegex { re, pattern: pattern.to_string() }),
        Err(_) => None,
    }
}

/// `regex::Regex::is_match`, named by [`regex_matches`] over the pattern the
/// expression was compiled from.
#[verifier::external_body]
fn regex_is_match(c: &CompiledRegex, text: &str) -> (r: bool)
    ensures
        r == regex_matches(c.source(), text@),
{
    c.re.is_match(text)
}

/// Whether an event passes the filters, and the event that goes on (which a
/// policy plugin may have changed).
pub struct FilterResult {
    pub allow: bool,
    pub event: SmeeEvent,
}

/// Why filtering failed.
#[derive(Debug, Clone, PartialEq, Eq)]
pub enum FilterError {
    /// The regular expression does not compile.
    InvalidRegex(String),
    /// The plugin's output frame length lies outside its memory.
    LengthOutOfBounds,
    /// The plugin's output runs past the end of its memory.
    DataOutOfBounds,
    /// The plugin's output is not UTF-8.
    OutputNotUtf8,
    /// The plugin's output is not JSON.
    OutputNotJson,
    /// The plugin's output has no boolean `allow`.
    MissingAllow,
}

/// The message of a filter error.
pub open spec fn filter_error_text(e: FilterError) -> Seq<char> {
    match e {
        FilterError::InvalidRegex(p) => "正则表达式无效: "@ + p@,
        FilterError::LengthOutOfBounds => "WASM 内存越界（读取输出长度）"@,
        FilterError::DataOutOfBounds => "WASM 内存越界（读取输出数据）"@,
        FilterError::OutputNotUtf8 => "WASM 输出非 UTF-8"@,
        FilterError::OutputNotJson => "WASM 输出非合法 JSON"@,
        FilterError::MissingAllow => "WASM 输出必须包含布尔类型的 'allow' 字段"@,
    }
}

impl FilterError {
    /// The message of the error.
    pub fn message(&self) -> (r: String)
        ensures
            r@ == filter_error_text(*self),
    {
        let mut v: Vec<char> = Vec::new();
        match self {
            FilterError::InvalidRegex(p) => {
                push_str(&mut v, "正则表达式无效: ");
                push_str(&mut v, p.as_str());
            },
            FilterError::LengthOutOfBounds => push_str(&mut v, "WASM 内存越界（读取输出长度）"),
            FilterError::DataOutOfBounds => push_str(&mut v, "WASM 内存越界（读取输出数据）"),
            FilterError::OutputNotUtf8 => push_str(&mut v, "WASM 输出非 UTF-8"),
            FilterError::OutputNotJson => push_str(&mut v, "WASM 输出非合法 JSON"),
            FilterError::MissingAllow => push_str(&mut v, "WASM 输出必须包含布尔类型的 'allow' 字段"),
        }
        proof {
            assert(v@ =~= filter_error_text(*self));
        }
        string_of(v.as_slice())
    }
}

/// Where filtering stands after the regular expression: decided, or waiting
/// for a policy plugin to judge the event's JSON text.
pub enum FilterStep {
    Decided(FilterResult),
    RunPolicy { plugin: String, input: String, event: SmeeEvent },
}

/// The pieces of `s` between the `&&` separators found left to right from
/// `i`, the current piece starting at `start`.
pub open spec fn split_and_from(s: Seq<char>, start: int, i: int) -> Seq<Seq<char>>
    decreases s.len() - i,
{
    if i + 2 > s.len() {
        seq![s.subrange(start, s.len() as int)]
    } else if s[i] == '&' && s[i + 1] == '&' {
        seq![s.subrange(start, i)] + split_and_from(s, i + 2, i + 2)
    } else {
        split_and_from(s, start, i + 1)
    }
}

/// The texts of a list of strings.
pub open spec fn strings_view(v: Seq<String>) -> Seq<Seq<char>> {
    v.map_values(|x: String| x@)
}

/// The pieces trimmed, the empty ones left out.
pub open spec fn kept_pieces(pieces: Seq<Seq<char>>) -> Seq<Seq<char>>
    decreases pieces.len(),
{
    if pieces.len() == 0 {
        Seq::empty()
    } else {
        let rest = kept_pieces(pieces.drop_last());
        if trim(pieces.last()).len() > 0 {
            rest.push(trim(pieces.last()))
        } else {
            rest
        }
    }
}

/// The conditions of a pattern setting: its `&&`-separated pieces, trimmed,
/// the empty ones left out. All of them must match for an event to pass.
pub open spec fn conditions(s: Seq<char>) -> Seq<Seq<char>> {
    kept_pieces(split_and_from(s, 0, 0))
}

proof fn lemma_split_step(s: Seq<char>, start: int, i: int)
    requires
        0 <= start <= i,
        i + 2 <= s.len(),
        !(s[i] == '&' && s[i + 1] == '&'),
    ensures
        split_and_from(s, start, i) == split_and_from(s, start, i + 1),
{
}

fn piece(s: &Vec<char>, start: usize, end: usize) -> (r: String)
    requires
        start <= end <= s@.len(),
    ensures
        r@ == s@.subrange(start as int, end as int),
{
    let mut p: Vec<char> = Vec::new();
    let mut k: usize = start;
    while k < end
        invariant
            start <= k <= end <= s@.len(),
            p@ == s@.subrange(start as int, k as int),
        decreases end - k,
    {
        p.push(s[k]);
        k = k + 1;
    }
    string_of(p.as_slice())
}

/// The pieces of `s` between `&&` separators, left to right
/// (`str::split("&&")`).
pub fn split_and(s: &str) -> (r: Vec<String>)
    ensures
        strings_view(r@) == split_and_from(s@, 0, 0),
{
    let cs = chars_of(s);
    let ghost whole = split_and_from(cs@, 0, 0);
    let mut out: Vec<String> = Vec::new();
    let mut start: usize = 0;
    let mut i: usize = 0;
    assert(strings_view(out@) + whole =~= whole);
    while cs.len() - i >= 2
        invariant
            start <= i <= cs@.len(),
            cs@ == s@,
            whole == split_and_from(cs@, 0, 0),
            strings_view(out@) + split_and_from(cs@, start as int, i as int) == whole,
        decreases cs@.len() - i,
    {
        if cs[i] == '&' && cs[i + 1] == '&' {
            let p = piece(&cs, start, i);
            let ghost before = strings_view(out@);
            out.push(p);
            proof {
                assert(split_and_from(cs@, start as int, i as int) == seq![p@] + split_and_from(cs@, i + 2, i + 2));
                assert(strings_view(out@) =~= before + seq![p@]);
            }
            i = i + 2;
            start = i;
        } else {
            proof {
                lemma_split_step(cs@, start as int, i as int);
            }
            i = i + 1;
        }
    }
    let p = piece(&cs, start, cs.len());
    let ghost before = strings_view(out@);
    out.push(p);
    proof {
        assert(split_and_from(cs@, start as int, i as int) == seq![p@]);
        assert(strings_view(out@) =~= before + seq![p@]);
    }
    out
}

/// The conditions of a pattern setting (see [`conditions`]).
pub fn regex_conditions(pattern: &str) -> (r: Vec<String>)
    ensures
        strings_view(r@) == conditions(pattern@),
{
    let pieces = split_and(pattern);
    let ghost ps = strings_view(pieces@);
    let mut out: Vec<String> = Vec::new();
    let mut i: usize = 0;
    assert(ps.take(0) =~= Seq::<Seq<char>>::empty());
    while i < pieces.len()
        invariant
            i <= pieces@.len(),
            ps == strings_view(pieces@),
            strings_view(out@) == kept_pieces(ps.take(i as int)),
        decreases pieces@.len() - i,
    {
        proof {
            assert(ps.take(i + 1).drop_last() == ps.take(i as int));
            assert(ps.take(i + 1).last() == pieces@[i as int]@);
        }
        let t = trim_chars(chars_of(pieces[i].as_str()).as_slice());
        if t.len() > 0 {
            let ghost before = strings_view(out@);
            out.push(string_of(t.as_slice()));
            assert(strings_view(out@) =~= before.push(t@));
        }
        i = i + 1;
    }
    assert(ps.take(ps.len() as int) == ps);
    out
}

/// The first condition that does not compile, if any.
pub open spec fn first_invalid(cs: Seq<Seq<char>>) -> Option<Seq<char>>
    decreases cs.len(),
{
    if cs.len() == 0 {
        None
    } else if !regex_valid(cs[0]) {
        Some(cs[0])
    } else {
        first_invalid(cs.drop_first())
    }
}

/// Every condition matches the text.
pub open spec fn all_match(cs: Seq<Seq<char>>, text: Seq<char>) -> bool {
    forall|i: int| 0 <= i < cs.len() ==> regex_matches(#[trigger] cs[i], text)
}

/// The first stage: the conditions of the pattern setting are compiled (the
/// first one that does not compile is an error) and an event whose JSON text
/// one of them does not match is refused; then, with a policy plugin, the
/// plugin is to judge the event's JSON text; otherwise the event passes.
pub fn start_filters(event: SmeeEvent, filter_regex: Option<&str>, wasm_policy: Option<&str>) -> (r: Result<FilterStep, FilterError>)
    ensures
        ({
            let cs = match filter_regex {
                Some(p) => conditions(p@),
                None => Seq::empty(),
            };
            let passes = all_match(cs, event_text(event));
            match first_invalid(cs) {
                Some(c) => r matches Err(FilterError::InvalidRegex(q)) && q@ == c,
                None => r matches Ok(step) && match step {
                    FilterStep::Decided(fr) => {
                        &&& fr.event == event
                        &&& fr.allow == (passes && wasm_policy is None)
                        &&& (fr.allow || !passes)
                    },
                    FilterStep::RunPolicy { plugin, input, event: e } => {
                        &&& passes
                        &&& e == event
                        &&& wasm_policy matches Some(w) && plugin@ == w@
                        &&& input@ == event_text(event)
                    },
                },
            }
        }),
{
    let conds: Vec<String> = match filter_regex {
        Some(p) => regex_conditions(p),
        None => Vec::new(),
    };
    let ghost cs = strings_view(conds@);
    assert(cs == match filter_regex {
        Some(p) => conditions(p@),
        None => Seq::<Seq<char>>::empty(),
    });
    let mut compiled: Vec<CompiledRegex> = Vec::new();
    let mut i: usize = 0;
    assert(cs.skip(0) == cs);
    while i < conds.len()
        invariant
            i <= conds@.len(),
            cs == match filter_regex {
                Some(p) => conditions(p@),
                None => Seq::<Seq<char>>::empty(),
            },
            cs == strings_view(conds@),
            first_invalid(cs) == first_invalid(cs.skip(i as int)),
            compiled@.len() == i,
            forall|k: int| 0 <= k < i ==> (#[trigger] compiled@[k]).source() == cs[k],
        decreases conds@.len() - i,
    {
        assert(cs.skip(i as int)[0] == cs[i as int]);
        assert(cs[i as int] == conds@[i as int]@);
        match compile_regex(conds[i].as_str()) {
            Some(re) => {
                compiled.push(re);
                assert(cs.skip(i as int).drop_first() == cs.skip(i + 1));
            },
            None => {
                assert(first_invalid(cs.skip(i as int)) == Some(cs[i as int]));
                return Err(FilterError::InvalidRegex(conds[i].clone()));
            },
        }
        i = i + 1;
    }
    assert(cs.skip(i as int).len() == 0);
    let text = render_event(&event);
    let mut j: usize = 0;
    while j < compiled.len()
        invariant
            j <= compiled@.len(),
            compiled@.len() == cs.len(),
            forall|k: int| 0 <= k < compiled@.len() ==> (#[trigger] compiled@[k]).source() == cs[k],
            cs == match filter_regex {
                Some(p) => conditions(p@),
                None => Seq::<Seq<char>>::empty(),
            },
            text@ == event_text(event),
            first_invalid(cs) is None,
            forall|k: int| 0 <= k < j ==> regex_matches(#[trigger] cs[k], text@),
        decreases compiled@.len() - j,
    {
        if !regex_is_match(&compiled[j], text.as_str()) {
            assert(!all_match(cs, event_text(event))) by {
                assert(!regex_matches(cs[j as int], text@));
            }
            return Ok(FilterStep::Decided(FilterResult { allow: false, event }));
        }
        j = j + 1;
    }
    match wasm_policy {
        Some(plugin) => Ok(FilterStep::RunPolicy { plugin: string_of(chars_of(plugin).as_slice()), input: text, event }),
        None => Ok(FilterStep::Decided(FilterResult { allow: true, event })),
    }
}

/// The bytes of a plugin's answer frame at `ptr` in its memory, or why they
/// cannot be read.
pub open spec fn output_bytes(mem: Seq<u8>, ptr: int) -> Result<Seq<u8>, FilterError> {
    if ptr + 4 > mem.len() {
        Err(FilterError::LengthOutOfBounds)
    } else {
        let n = le_value(mem.subrange(ptr, ptr + 4));
        if ptr + 4 + n > mem.len() {
            Err(FilterError::DataOutOfBounds)
        } else {
            Ok(mem.subrange(ptr + 4, ptr + 4 + n))
        }
    }
}

/// The answer text of a plugin, read from its memory at `ptr`: the framed
/// bytes, which must be UTF-8.
pub open spec fn output_text(mem: Seq<u8>, ptr: int) -> Result<Seq<char>, FilterError> {
    match output_bytes(mem, ptr) {
        Err(e) => Err(e),
        Ok(b) => if vstd::utf8::valid_utf8(b) {
            Ok(vstd::utf8::decode_utf8(b))
        } else {
            Err(FilterError::OutputNotUtf8)
        },
    }
}

/// Reads a plugin's answer text from its memory at `ptr`.
pub fn read_policy_output(mem: &[u8], ptr: usize) -> (r: Result<String, FilterError>)
    ensures
        match output_text(mem@, ptr as int) {
            Ok(t) => r matches Ok(s) && s@ == t,
            Err(e) => r == Err::<String, FilterError>(e),
        },
{
    let bytes = match read_output(mem, ptr) {
        Ok(b) => b,
        Err(FrameError::LengthOutOfBounds) => return Err(FilterError::LengthOutOfBounds),
        Err(FrameError::DataOutOfBounds) => return Err(FilterError::DataOutOfBounds),
    };
    let check = utf8_check(bytes.as_slice());
    assert(bytes@.take(bytes@.len() as int) == bytes@);
    if check.valid_up_to != bytes.len() {
        return Err(FilterError::OutputNotUtf8);
    }
    Ok(string_of(decode_valid_utf8(bytes.as_slice()).as_slice()))
}

/// A plugin's answer: whether it allows the event, and the changed event it
/// hands back (`json`), if any.
pub open spec fn policy_answer(text: Seq<char>) -> Result<(bool, Option<Json>), FilterError> {
    match json_parse(text) {
        None => Err(FilterError::OutputNotJson),
        Some(j) => match get(j, "allow"@) {
            Some(Json::Bool(b)) => Ok((b, get(j, "json"@))),
            _ => Err(FilterError::MissingAllow),
        },
    }
}

/// The parts of an event, as [`event_decode`] gives them.
pub open spec fn event_parts(e: SmeeEvent) -> (Seq<(Seq<char>, Seq<char>)>, Seq<(Seq<char>, Seq<char>)>, Json, u64) {
    (pairs_view(e.headers@), pairs_view(e.query@), e.body@, e.timestamp)
}

/// The second stage, on the plugin's answer text: a refused event stays as it
/// was; an allowed one is replaced by the event the plugin handed back when
/// that reads as an event, and kept otherwise.
pub fn finish_policy(event: SmeeEvent, output: &str) -> (r: Result<FilterResult, FilterError>)
    ensures
        match policy_answer(output@) {
            Err(e) => r == Err::<FilterResult, FilterError>(e),
            Ok((allow, changed)) => r matches Ok(fr) && fr.allow == allow && if !allow {
                fr.event == event
            } else {
                match changed {
                    Some(m) => match event_decode(m) {
                        Some(d) => event_parts(fr.event) == d,
                        None => fr.event == event,
                    },
                    None => fr.event == event,
                }
            },
        },
{
    let v = match parse_json(output) {
        Some(v) => v,
        None => return Err(FilterError::OutputNotJson),
    };
    let allow = match v.get("allow") {
        Some(a) => match a.as_bool() {
            Some(b) => b,
            None => return Err(FilterError::MissingAllow),
        },
        None => return Err(FilterError::MissingAllow),
    };
    if !allow {
        return Ok(FilterResult { allow: false, event });
    }
    match v.get("json") {
        Some(m) => match event_from_json(m) {
            Some(e) => Ok(FilterResult { allow: true, event: e }),
            None => Ok(FilterResult { allow: true, event }),
        },
        None => Ok(FilterResult { allow: true, event }),
    }
}

} // verus!
