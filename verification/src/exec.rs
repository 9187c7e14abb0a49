//! Running the agent for an event: the prompt it is given, the workspace it
//! runs in, and how the process's output becomes a result.
use vstd::prelude::*;
use crate::config::SubscriptionConfig;
use crate::event::{pairs_view, string_object, SmeeEvent};
use crate::json::{json_pretty, render_json_pretty, Json, JsonValue};
use crate::service::opt_view;
use crate::text::{
    chars_of, lossy_text, push_signed_decimal, push_str, signed_decimal, string_of, trim, trim_chars,
    utf8_lossy,
};

verus! {

// ── the prompt ──────────────────────────────────────────────────

/// The prompt: the trimmed base prompt, then the event's headers, query
/// parameters, body and arrival time, each under its heading.
pub open spec fn prompt_text(base: Seq<char>, headers: Seq<char>, query: Seq<char>, body: Seq<char>, time: Seq<char>) -> Seq<char> {
    trim(base) + "\n\n---\n以下是通过 Webhook 接收到的事件信息，请结合上述指令处理：\n\n## 请求头（Headers）\n```json\n"@
        + headers + "\n```\n\n## 查询参数（Query Parameters）\n```json\n"@ + query
        + "\n```\n\n## 请求体（Body）\n```\n"@ + body + "\n```\n\n> 事件接收时间："@ + time
}

/// Puts the prompt together from its parts (see [`prompt_text`]).
pub fn compose_prompt(base: &str, headers: &str, query: &str, body: &str, time: &str) -> (r: String)
    ensures
        r@ == prompt_text(base@, headers@, query@, body@, time@),
{
    let mut v: Vec<char> = trim_chars(chars_of(base).as_slice());
    push_str(&mut v, "\n\n---\n以下是通过 Webhook 接收到的事件信息，请结合上述指令处理：\n\n## 请求头（Headers）\n```json\n");
    push_str(&mut v, headers);
    push_str(&mut v, "\n```\n\n## 查询参数（Query Parameters）\n```json\n");
    push_str(&mut v, query);
    push_str(&mut v, "\n```\n\n## 请求体（Body）\n```\n");
    push_str(&mut v, body);
    push_str(&mut v, "\n```\n\n> 事件接收时间：");
    push_str(&mut v, time);
    string_of(v.as_slice())
}

/// The body as shown in the prompt: a string body as it is, any other value
/// as indented JSON.
pub open spec fn body_text(e: SmeeEvent) -> Seq<char> {
    match e.body@ {
        Json::Str(s) => s,
        v => json_pretty(v),
    }
}

/// The headers as indented JSON.
pub open spec fn headers_text(e: SmeeEvent) -> Seq<char> {
    json_pretty(string_object(pairs_view(e.headers@)))
}

/// The query parameters as indented JSON, or （无） when there are none.
pub open spec fn query_text(e: SmeeEvent) -> Seq<char> {
    if e.query@.len() == 0 {
        "（无）"@
    } else {
        json_pretty(string_object(pairs_view(e.query@)))
    }
}

/// The RFC 3339 text of an instant given in milliseconds since the epoch,
/// if it is within the calendar's range.
pub uninterp spec fn millis_rfc3339(ms: i64) -> Option<Seq<char>>;

/// `chrono::DateTime::<Utc>::from_timestamp_millis`, then `to_rfc3339`:
/// named by [`millis_rfc3339`].
#[verifier::external_body]
fn rfc3339_from_millis(ms: i64) -> (r: Option<String>)
    ensures
        opt_view(r) == millis_rfc3339(ms),
{
    chrono::DateTime::from_timestamp_millis(ms).map(|dt| dt.to_rfc3339())
}

/// The arrival time as RFC 3339 text (the timestamp read as a signed
/// number), empty when out of range.
pub open spec fn time_text(e: SmeeEvent) -> Seq<char> {
    match millis_rfc3339(e.timestamp as i64) {
        Some(t) => t,
        None => Seq::empty(),
    }
}

fn pretty_pairs(p: &Vec<(String, String)>) -> (r: String)
    ensures
        r@ == json_pretty(string_object(pairs_view(p@))),
{
    let mut m: Vec<(String, JsonValue)> = Vec::new();
    let mut i: usize = 0;
    while i < p.len()
        invariant
            i <= p@.len(),
            m@.len() == i,
            forall|k: int| 0 <= k < i ==> (#[trigger] m@[k]).0@ == p@[k].0@ && m@[k].1@ == Json::Str(p@[k].1@),
        decreases p@.len() - i,
    {
        m.push((p[i].0.clone(), JsonValue::Str(p[i].1.clone())));
        i = i + 1;
    }
    proof {
        crate::json::lemma_jms(m@);
        assert(crate::json::jms(m@) =~= pairs_view(p@).map_values(
            |q: (Seq<char>, Seq<char>)| (q.0, Json::Str(q.1)),
        ));
    }
    render_json_pretty(&JsonValue::Object(m))
}

/// The prompt for an event (see [`prompt_text`]).
pub fn build_prompt(base_prompt: &str, event: &SmeeEvent) -> (r: String)
    ensures
        r@ == prompt_text(base_prompt@, headers_text(*event), query_text(*event), body_text(*event), time_text(*event)),
{
    let body = match &event.body {
        JsonValue::Str(s) => s.clone(),
        v => render_json_pretty(v),
    };
    let headers = pretty_pairs(&event.headers);
    let query = if event.query.len() == 0 {
        string_of(chars_of("（无）").as_slice())
    } else {
        pretty_pairs(&event.query)
    };
    #[verifier::truncate]
    let ms = event.timestamp as i64;
    let time = match rfc3339_from_millis(ms) {
        Some(t) => t,
        None => String::new(),
    };
    compose_prompt(base_prompt, headers.as_str(), query.as_str(), body.as_str(), time.as_str())
}

/// The workspace of a subscription: its own, or the default one.
pub fn workspace_for(sub: &SubscriptionConfig, default_workspace: &str) -> (r: String)
    ensures
        r@ == match sub.workspace {
            Some(w) => w@,
            None => default_workspace@,
        },
{
    match &sub.workspace {
        Some(w) => w.clone(),
        None => string_of(chars_of(default_workspace).as_slice()),
    }
}

// ── the process's outcome ───────────────────────────────────────

/// What a run of the agent gave: its output, whether it succeeded, and the error.
pub struct RunOutcome {
    pub output: String,
    pub success: bool,
    pub error: Option<String>,
}

/// Standard output, followed by a marked standard error section when there is any.
pub open spec fn combined_text(stdout: Seq<char>, stderr: Seq<char>) -> Seq<char> {
    if stderr.len() == 0 {
        stdout
    } else {
        stdout + "\n[stderr]\n"@ + stderr
    }
}

/// The outcome of a finished process: its two outputs (decoded leniently)
/// combined; on failure the error gives the exit code (-1 when there is none,
/// as for a process ended by a signal).
pub fn run_outcome(stdout: &[u8], stderr: &[u8], success: bool, code: Option<i32>) -> (r: RunOutcome)
    ensures
        r.output@ == combined_text(lossy_text(stdout@), lossy_text(stderr@)),
        r.success == success,
        success ==> r.error is None,
        !success ==> (r.error matches Some(e) && e@ == "进程退出码: "@ + signed_decimal(
            match code {
                Some(c) => c as int,
                None => -1,
            },
        )),
{
    let out = utf8_lossy(stdout);
    let err = utf8_lossy(stderr);
    let output = if err.as_str().is_empty() {
        proof {
            assert(err@.len() == 0);
        }
        out
    } else {
        let mut v: Vec<char> = chars_of(out.as_str());
        push_str(&mut v, "\n[stderr]\n");
        push_str(&mut v, err.as_str());
        string_of(v.as_slice())
    };
    if success {
        RunOutcome { output, success: true, error: None }
    } else {
        let c: i64 = match code {
            Some(c) => c as i64,
            None => -1,
        };
        let mut v: Vec<char> = Vec::new();
        push_str(&mut v, "进程退出码: ");
        push_signed_decimal(&mut v, c);
        RunOutcome { output, success: false, error: Some(string_of(v.as_slice())) }
    }
}

/// The outcome when the process could not be started: no output, the error.
pub fn start_failure(error: String) -> (r: RunOutcome)
    ensures
        r.output@ == Seq::<char>::empty(),
        !r.success,
        r.error == Some(error),
{
    RunOutcome { output: String::new(), success: false, error: Some(error) }
}

// ── times ───────────────────────────────────────────────────────

/// The current time in nanoseconds since the epoch (`chrono::Utc::now`; 0
/// outside the range of a signed 64-bit count). Nothing is stated of it: it
/// is the machine's clock.
#[verifier::external_body]
pub fn now_nanos() -> i64 {
    chrono::Utc::now().timestamp_nanos_opt().unwrap_or(0)
}

/// The RFC 3339 text of an instant given in nanoseconds since the epoch.
pub uninterp spec fn nanos_rfc3339(n: i64) -> Seq<char>;

/// `chrono::DateTime::<Utc>::from_timestamp_nanos`, then `to_rfc3339`:
/// named by [`nanos_rfc3339`].
#[verifier::external_body]
pub fn rfc3339_from_nanos(n: i64) -> (r: String)
    ensures
        r@ == nanos_rfc3339(n),
{
    chrono::DateTime::from_timestamp_nanos(n).to_rfc3339()
}

/// `a / b` rounded toward zero (`b > 0`).
pub open spec fn div_toward_zero(a: int, b: int) -> int {
    if a >= 0 {
        a / b
    } else {
        -((-a) / b)
    }
}

fn elapsed(start: i64, end: i64, unit: i128) -> (r: i64)
    requires
        unit >= 1000,
    ensures
        r == div_toward_zero(end - start, unit as int),
{
    let d: i128 = end as i128 - start as i128;
    if d >= 0 {
        let q = d / unit;
        assert(d / unit <= d / 1000) by (nonlinear_arith)
            requires
                d >= 0,
                unit >= 1000,
        {
            vstd::arithmetic::div_mod::lemma_div_is_ordered_by_denominator(d as int, 1000, unit as int);
        }
        q as i64
    } else {
        let e: i128 = -d;
        let q = e / unit;
        assert(e / unit <= e / 1000) by (nonlinear_arith)
            requires
                e >= 0,
                unit >= 1000,
        {
            vstd::arithmetic::div_mod::lemma_div_is_ordered_by_denominator(e as int, 1000, unit as int);
        }
        -(q as i64)
    }
}

/// Whole milliseconds from `start` to `end` (nanosecond instants), rounded
/// toward zero.
pub fn elapsed_millis(start: i64, end: i64) -> (r: i64)
    ensures
        r == div_toward_zero(end - start, 1_000_000),
{
    elapsed(start, end, 1_000_000)
}

/// Whole seconds from `start` to `end` (nanosecond instants), rounded toward zero.
pub fn elapsed_secs(start: i64, end: i64) -> (r: i64)
    ensures
        r == div_toward_zero(end - start, 1_000_000_000),
{
    elapsed(start, end, 1_000_000_000)
}

/// The result of running the agent for a subscription.
pub struct ExecutionResult {
    pub subscription_name: String,
    pub success: bool,
    pub output: String,
    pub error: Option<String>,
    /// Start, in nanoseconds since the epoch.
    pub started_at: i64,
    /// End, in nanoseconds since the epoch.
    pub finished_at: i64,
    pub prompt: String,
}

} // verus!
