//! Reporters: what is done with each execution result. The built-in console
//! reporter prints a block and appends an entry to the subscription's log
//! file; a WASM reporter gets the result as JSON and answers with what to
//! print and which file to append to.
use vstd::prelude::*;
use crate::exec::{div_toward_zero, elapsed_millis, nanos_rfc3339, rfc3339_from_nanos, ExecutionResult};
use crate::json::{get, json_parse, json_text, lemma_jms, jms, parse_json, render_json, Json, JsonValue};
use crate::report::{
    AppendFile, console_head, error_text, format_log_entry, log_entry_text, push_error, push_repeat, repeat,
    ReportInput,
};
use crate::service::opt_view;
use crate::text::{chars_of, push_signed_decimal, push_str, signed_decimal, string_of};

verus! {

/// The reporter name in effect: the configured one, or `console`.
pub open spec fn reporter_name_spec(name: Option<Seq<char>>) -> Seq<char> {
    match name {
        Some(n) => n,
        None => "console"@,
    }
}

/// The reporter name in effect.
pub fn reporter_name(name: Option<&str>) -> (r: String)
    ensures
        r@ == reporter_name_spec(
            match name {
                Some(n) => Some(n@),
                None => None,
            },
        ),
{
    match name {
        Some(n) => string_of(chars_of(n).as_slice()),
        None => string_of(chars_of("console").as_slice()),
    }
}

/// The file name of a WASM reporter: `<name>.wasm`.
pub fn wasm_file_name(name: &str) -> (r: String)
    ensures
        r@ == name@ + ".wasm"@,
{
    let mut v = chars_of(name);
    push_str(&mut v, ".wasm");
    string_of(v.as_slice())
}

/// Which reporter serves a name.
pub enum ReporterKind {
    /// The WASM reporter file of that name.
    Wasm,
    /// The built-in console reporter.
    Console,
    /// No reporter of that name exists: the console reporter, with a warning.
    ConsoleFallback { warning: String },
}

/// Which reporter serves `name`, given whether its WASM file exists: the WASM
/// file first, then the built-in `console`; any other name falls back to the
/// console reporter with a warning.
pub fn reporter_kind(name: &str, wasm_exists: bool) -> (r: ReporterKind)
    ensures
        wasm_exists ==> r is Wasm,
        !wasm_exists && name@ == "console"@ ==> r is Console,
        !wasm_exists && name@ != "console"@ ==> (r matches ReporterKind::ConsoleFallback { warning }
            && warning@ == "⚠️  未找到汇报器 \""@ + name@ + "\"（WASM 或内置均不存在），回退到 console"@),
{
    if wasm_exists {
        ReporterKind::Wasm
    } else if crate::text::chars_eq_str(chars_of(name).as_slice(), "console") {
        ReporterKind::Console
    } else {
        let mut v: Vec<char> = Vec::new();
        push_str(&mut v, "⚠️  未找到汇报器 \"");
        push_str(&mut v, name);
        push_str(&mut v, "\"（WASM 或内置均不存在），回退到 console");
        ReporterKind::ConsoleFallback { warning: string_of(v.as_slice()) }
    }
}

/// The log directory: the configured one, or `./logs`.
pub fn log_dir_or_default(configured: Option<String>) -> (r: String)
    ensures
        r@ == match configured {
            Some(d) => d@,
            None => "./logs"@,
        },
{
    match configured {
        Some(d) => d,
        None => string_of(chars_of("./logs").as_slice()),
    }
}

/// What the reporters see of a result: times as RFC 3339 text and the
/// duration in whole milliseconds.
pub open spec fn report_input_of(r: ExecutionResult, log_dir: Seq<char>, i: ReportInput) -> bool {
    &&& i.subscription_name@ == r.subscription_name@
    &&& i.success == r.success
    &&& i.output@ == r.output@
    &&& opt_view(i.error) == opt_view(r.error)
    &&& i.started_at@ == nanos_rfc3339(r.started_at)
    &&& i.finished_at@ == nanos_rfc3339(r.finished_at)
    &&& i.duration_ms == div_toward_zero(r.finished_at - r.started_at, 1_000_000)
    &&& i.prompt@ == r.prompt@
    &&& i.log_dir@ == log_dir
}

fn clone_opt(o: &Option<String>) -> (r: Option<String>)
    ensures
        opt_view(r) == opt_view(*o),
        r == *o,
{
    match o {
        Some(s) => Some(s.clone()),
        None => None,
    }
}

/// The report input for a result.
pub fn report_input(r: &ExecutionResult, log_dir: &str) -> (i: ReportInput)
    ensures
        report_input_of(*r, log_dir@, i),
{
    ReportInput {
        subscription_name: r.subscription_name.clone(),
        success: r.success,
        output: r.output.clone(),
        error: clone_opt(&r.error),
        started_at: rfc3339_from_nanos(r.started_at),
        finished_at: rfc3339_from_nanos(r.finished_at),
        duration_ms: elapsed_millis(r.started_at, r.finished_at),
        prompt: r.prompt.clone(),
        log_dir: string_of(chars_of(log_dir).as_slice()),
    }
}

// ── the console reporter ────────────────────────────────────────

/// The built-in console reporter.
pub struct ConsoleReporter {
    /// Where the log files go.
    pub log_dir: String,
}

/// What the console reporter prints and appends for a result: standard
/// output before and after the error line, the error line on standard error
/// (failures only), the log file name within the log directory, and the entry
/// appended to it.
pub struct ConsoleReport {
    pub stdout_head: String,
    pub stderr: Option<String>,
    pub stdout_tail: String,
    pub log_file: String,
    pub log_entry: String,
}

/// The part printed after the error line: the output (or, on failure, the
/// partial output when there is any), then a separator and a blank line.
pub open spec fn console_tail(i: ReportInput) -> Seq<char> {
    let sep = repeat('─', 60);
    let body = if i.success {
        i.output@ + seq!['\n']
    } else if i.output@.len() > 0 {
        "输出:\n"@ + i.output@ + seq!['\n']
    } else {
        Seq::empty()
    };
    body + sep + "\n\n"@
}

/// Lines joined with `\n` between them.
pub open spec fn join_lines(ls: Seq<Seq<char>>) -> Seq<char>
    decreases ls.len(),
{
    if ls.len() == 0 {
        Seq::empty()
    } else if ls.len() == 1 {
        ls[0]
    } else {
        join_lines(ls.drop_last()) + seq!['\n'] + ls.last()
    }
}

/// The log entry the built-in console reporter writes for a result that took
/// `d` milliseconds: its lines (divider, start time and name, status and
/// duration, end time, a blank line, the prompt, a blank line, the output or
/// the error with any partial output, divider, and an empty last line)
/// joined with `\n`.
pub open spec fn console_entry_text(r: ExecutionResult, d: int) -> Seq<char> {
    let divider = repeat('=', 80);
    let status = if r.success { "SUCCESS"@ } else { "FAILURE"@ };
    let head = seq![
        divider,
        seq!['['] + nanos_rfc3339(r.started_at) + "] 订阅: "@ + r.subscription_name@,
        "状态: "@ + status + " | 耗时: "@ + signed_decimal(d) + "ms"@,
        "完成时间: "@ + nanos_rfc3339(r.finished_at),
        Seq::<char>::empty(),
        "── 提示词 ──"@,
        r.prompt@,
        Seq::<char>::empty(),
        "── 输出 ──"@,
    ];
    let body = if r.success {
        seq![r.output@]
    } else if r.output@.len() > 0 {
        seq!["错误: "@ + error_text(r.error), Seq::<char>::empty(), "── 部分输出 ──"@, r.output@]
    } else {
        seq!["错误: "@ + error_text(r.error)]
    };
    join_lines(head + body + seq![divider, Seq::<char>::empty()])
}

proof fn lemma_join_push(s: Seq<Seq<char>>, x: Seq<char>)
    requires
        s.len() > 0,
    ensures
        join_lines(s.push(x)) == join_lines(s) + seq!['\n'] + x,
{
    assert(s.push(x).drop_last() =~= s);
}

/// Nine lines joined: the head of a log entry.
proof fn lemma_join_head(ls: Seq<Seq<char>>)
    requires
        ls.len() == 9,
    ensures
        join_lines(ls) == ls[0] + seq!['\n'] + ls[1] + seq!['\n'] + ls[2] + seq!['\n'] + ls[3] + seq!['\n']
            + ls[4] + seq!['\n'] + ls[5] + seq!['\n'] + ls[6] + seq!['\n'] + ls[7] + seq!['\n'] + ls[8],
{
    assert(join_lines(ls.take(1)) == ls[0]);
    assert(ls.take(2) =~= ls.take(1).push(ls[1]));
    lemma_join_push(ls.take(1), ls[1]);
    assert(ls.take(3) =~= ls.take(2).push(ls[2]));
    lemma_join_push(ls.take(2), ls[2]);
    assert(ls.take(4) =~= ls.take(3).push(ls[3]));
    lemma_join_push(ls.take(3), ls[3]);
    assert(ls.take(5) =~= ls.take(4).push(ls[4]));
    lemma_join_push(ls.take(4), ls[4]);
    assert(ls.take(6) =~= ls.take(5).push(ls[5]));
    lemma_join_push(ls.take(5), ls[5]);
    assert(ls.take(7) =~= ls.take(6).push(ls[6]));
    lemma_join_push(ls.take(6), ls[6]);
    assert(ls.take(8) =~= ls.take(7).push(ls[7]));
    lemma_join_push(ls.take(7), ls[7]);
    assert(ls =~= ls.take(8).push(ls[8]));
    lemma_join_push(ls.take(8), ls[8]);
}

/// Lines after a non-empty head: joining them all is the head's text, a
/// line break, and the rest joined.
proof fn lemma_join_concat(a: Seq<Seq<char>>, b: Seq<Seq<char>>)
    requires
        a.len() > 0,
        b.len() > 0,
    ensures
        join_lines(a + b) == join_lines(a) + seq!['\n'] + join_lines(b),
    decreases b.len(),
{
    if b.len() == 1 {
        assert((a + b).drop_last() =~= a);
        assert((a + b).last() == b[0]);
    } else {
        assert((a + b).drop_last() =~= a + b.drop_last());
        assert((a + b).last() == b.last());
        lemma_join_concat(a, b.drop_last());
        assert(join_lines(a + b) =~= join_lines(a) + seq!['\n'] + join_lines(b));
    }
}

/// The head of the entry, as the plugin writes it, is the head lines joined
/// and a line break.
proof fn lemma_entry_head(
    divider: Seq<char>,
    start: Seq<char>,
    name: Seq<char>,
    status: Seq<char>,
    dur: Seq<char>,
    finish: Seq<char>,
    prompt: Seq<char>,
    ls: Seq<Seq<char>>,
)
    requires
        ls == seq![
            divider,
            seq!['['] + start + "] 订阅: "@ + name,
            "状态: "@ + status + " | 耗时: "@ + dur + "ms"@,
            "完成时间: "@ + finish,
            Seq::<char>::empty(),
            "── 提示词 ──"@,
            prompt,
            Seq::<char>::empty(),
            "── 输出 ──"@,
        ],
    ensures
        divider + seq!['\n'] + seq!['['] + start + "] 订阅: "@ + name + seq!['\n'] + "状态: "@ + status
            + " | 耗时: "@ + dur + "ms\n"@ + "完成时间: "@ + finish + seq!['\n'] + seq!['\n']
            + "── 提示词 ──\n"@ + prompt + seq!['\n'] + seq!['\n'] + "── 输出 ──\n"@
            == join_lines(ls) + seq!['\n'],
{
    lemma_join_head(ls);
    assert("ms\n"@ =~= "ms"@ + seq!['\n']) by {
        reveal_strlit("ms\n");
        reveal_strlit("ms");
    }
    assert("── 提示词 ──\n"@ =~= "── 提示词 ──"@ + seq!['\n']) by {
        reveal_strlit("── 提示词 ──\n");
        reveal_strlit("── 提示词 ──");
    }
    assert("── 输出 ──\n"@ =~= "── 输出 ──"@ + seq!['\n']) by {
        reveal_strlit("── 输出 ──\n");
        reveal_strlit("── 输出 ──");
    }
    assert(divider + seq!['\n'] + seq!['['] + start + "] 订阅: "@ + name + seq!['\n'] + "状态: "@ + status
        + " | 耗时: "@ + dur + "ms\n"@ + "完成时间: "@ + finish + seq!['\n'] + seq!['\n']
        + "── 提示词 ──\n"@ + prompt + seq!['\n'] + seq!['\n'] + "── 输出 ──\n"@ =~= join_lines(ls)
        + seq!['\n']);
}

/// The console reporter plugin writes the same log entry as the built-in
/// console reporter: for any result and any duration `d`, the plugin's entry
/// for an input carrying the result's fields, its times as RFC 3339 text and
/// the duration `d` is the built-in reporter's entry for that result and `d`.
pub proof fn law_plugin_entry_matches_console(r: ExecutionResult, d: int, i: ReportInput)
    requires
        i.subscription_name@ == r.subscription_name@,
        i.success == r.success,
        i.output@ == r.output@,
        opt_view(i.error) == opt_view(r.error),
        i.started_at@ == nanos_rfc3339(r.started_at),
        i.finished_at@ == nanos_rfc3339(r.finished_at),
        i.duration_ms == d,
        i.prompt@ == r.prompt@,
    ensures
        log_entry_text(i) == console_entry_text(r, d),
{
    assert(error_text(i.error) == error_text(r.error)) by {
        match i.error {
            Some(s) => {},
            None => {},
        }
    }
    let divider = repeat('=', 80);
    let status = if r.success { "SUCCESS"@ } else { "FAILURE"@ };
    let head = seq![
        divider,
        seq!['['] + nanos_rfc3339(r.started_at) + "] 订阅: "@ + r.subscription_name@,
        "状态: "@ + status + " | 耗时: "@ + signed_decimal(d) + "ms"@,
        "完成时间: "@ + nanos_rfc3339(r.finished_at),
        Seq::<char>::empty(),
        "── 提示词 ──"@,
        r.prompt@,
        Seq::<char>::empty(),
        "── 输出 ──"@,
    ];
    lemma_entry_head(divider, i.started_at@, i.subscription_name@, status, signed_decimal(d), i.finished_at@, i.prompt@, head);
    let jh = join_lines(head);
    let tail = seq![divider, Seq::<char>::empty()];
    assert(join_lines(tail) =~= divider + seq!['\n'] + Seq::<char>::empty()) by {
        assert(tail.drop_last() =~= seq![divider]);
        assert(join_lines(seq![divider]) == divider);
        assert(tail.last() == Seq::<char>::empty());
    }
    let body = if r.success {
        seq![r.output@]
    } else if r.output@.len() > 0 {
        seq!["错误: "@ + error_text(r.error), Seq::<char>::empty(), "── 部分输出 ──"@, r.output@]
    } else {
        seq!["错误: "@ + error_text(r.error)]
    };
    lemma_join_concat(head, body);
    lemma_join_concat(head + body, tail);
    let jb = join_lines(body);
    if r.success {
        assert(jb == r.output@);
    } else if r.output@.len() > 0 {
        lemma_join_concat(seq!["错误: "@ + error_text(r.error)], seq![Seq::<char>::empty(), "── 部分输出 ──"@, r.output@]);
        assert(seq!["错误: "@ + error_text(r.error)] + seq![Seq::<char>::empty(), "── 部分输出 ──"@, r.output@] =~= body);
        let b3 = seq![Seq::<char>::empty(), "── 部分输出 ──"@, r.output@];
        assert(b3.drop_last() =~= seq![Seq::<char>::empty(), "── 部分输出 ──"@]);
        assert(join_lines(b3.drop_last()) == join_lines(seq![Seq::<char>::empty()]) + seq!['\n'] + "── 部分输出 ──"@) by {
            assert(b3.drop_last().drop_last() =~= seq![Seq::<char>::empty()]);
        }
        assert(join_lines(seq![Seq::<char>::empty()]) == Seq::<char>::empty());
        assert(join_lines(b3) =~= seq!['\n'] + "── 部分输出 ──"@ + seq!['\n'] + r.output@);
        assert("\n── 部分输出 ──\n"@ =~= seq!['\n'] + "── 部分输出 ──"@ + seq!['\n']) by {
            reveal_strlit("\n── 部分输出 ──\n");
            reveal_strlit("── 部分输出 ──");
        }
        assert(jb =~= "错误: "@ + error_text(r.error) + seq!['\n'] + ("\n── 部分输出 ──\n"@ + r.output@));
    } else {
        assert(jb == "错误: "@ + error_text(r.error));
    }
    assert(log_entry_text(i) =~= jh + seq!['\n'] + jb + seq!['\n'] + divider + seq!['\n']);
}

impl ConsoleReporter {
    /// A console reporter writing its log files into `log_dir`.
    pub fn new(log_dir: String) -> (r: Self)
        ensures
            r.log_dir == log_dir,
    {
        ConsoleReporter { log_dir }
    }

    /// What to print and append for a result.
    pub fn report(&self, result: &ExecutionResult) -> (r: ConsoleReport)
        ensures
            exists|i: ReportInput| {
                &&& report_input_of(*result, self.log_dir@, i)
                &&& r.stdout_head@ == console_head(i)
                &&& r.stdout_tail@ == console_tail(i)
                &&& r.log_entry@ == log_entry_text(i)
            },
            result.success ==> r.stderr is None,
            !result.success ==> (r.stderr matches Some(e) && e@ == "❌ 错误: "@ + error_text(result.error) + seq!['\n']),
            r.log_file@ == result.subscription_name@ + ".log"@,
            r.log_entry@ == console_entry_text(
                *result,
                div_toward_zero(result.finished_at - result.started_at, 1_000_000),
            ),
    {
        let input = report_input(result, self.log_dir.as_str());
        proof {
            law_plugin_entry_matches_console(*result, input.duration_ms as int, input);
        }
        let mut head: Vec<char> = Vec::new();
        head.push('\n');
        push_repeat(&mut head, '─', 60);
        head.push('\n');
        if input.success {
            push_str(&mut head, "✅");
        } else {
            push_str(&mut head, "❌");
        }
        push_str(&mut head, " [");
        push_str(&mut head, input.subscription_name.as_str());
        push_str(&mut head, "] 执行完成\n");
        push_str(&mut head, "   开始: ");
        push_str(&mut head, input.started_at.as_str());
        head.push('\n');
        push_str(&mut head, "   耗时: ");
        push_signed_decimal(&mut head, input.duration_ms);
        push_str(&mut head, "ms\n");
        push_repeat(&mut head, '─', 60);
        head.push('\n');
        assert(head@ =~= console_head(input));
        let stderr = if input.success {
            None
        } else {
            let mut e: Vec<char> = Vec::new();
            push_str(&mut e, "❌ 错误: ");
            push_error(&mut e, &input.error);
            e.push('\n');
            Some(string_of(e.as_slice()))
        };
        let mut tail: Vec<char> = Vec::new();
        let ghost t0 = tail@;
        if input.success {
            push_str(&mut tail, input.output.as_str());
            tail.push('\n');
        } else if !input.output.as_str().is_empty() {
            push_str(&mut tail, "输出:\n");
            push_str(&mut tail, input.output.as_str());
            tail.push('\n');
        }
        push_repeat(&mut tail, '─', 60);
        push_str(&mut tail, "\n\n");
        assert(tail@ =~= console_tail(input));
        let mut file = chars_of(result.subscription_name.as_str());
        push_str(&mut file, ".log");
        let entry = format_log_entry(&input);
        ConsoleReport {
            stdout_head: string_of(head.as_slice()),
            stderr,
            stdout_tail: string_of(tail.as_slice()),
            log_file: string_of(file.as_slice()),
            log_entry: entry,
        }
    }
}

// ── the WASM reporter ───────────────────────────────────────────

/// A reporter loaded from a WASM file.
pub struct WasmReporter {
    pub wasm_path: String,
    pub log_dir: String,
}

/// The JSON a WASM reporter gets for a result, its members in name order.
pub open spec fn wasm_input_json(i: ReportInput) -> Json {
    Json::Obj(
        seq![
            ("duration_ms"@, Json::Num(signed_decimal(i.duration_ms as int))),
            ("error"@, match i.error {
                Some(e) => Json::Str(e@),
                None => Json::Null,
            }),
            ("finished_at"@, Json::Str(i.finished_at@)),
            ("log_dir"@, Json::Str(i.log_dir@)),
            ("output"@, Json::Str(i.output@)),
            ("prompt"@, Json::Str(i.prompt@)),
            ("started_at"@, Json::Str(i.started_at@)),
            ("subscription_name"@, Json::Str(i.subscription_name@)),
            ("success"@, Json::Bool(i.success)),
        ],
    )
}

fn key(s: &str) -> (r: String)
    ensures
        r@ == s@,
{
    string_of(chars_of(s).as_slice())
}

/// The JSON a WASM reporter gets for a report input.
pub fn wasm_input_value(i: &ReportInput) -> (r: JsonValue)
    ensures
        r@ == wasm_input_json(*i),
{
    let mut d: Vec<char> = Vec::new();
    push_signed_decimal(&mut d, i.duration_ms);
    let mut m: Vec<(String, JsonValue)> = Vec::new();
    m.push((key("duration_ms"), JsonValue::Number(string_of(d.as_slice()))));
    m.push((key("error"), match &i.error {
        Some(e) => JsonValue::Str(e.clone()),
        None => JsonValue::Null,
    }));
    m.push((key("finished_at"), JsonValue::Str(i.finished_at.clone())));
    m.push((key("log_dir"), JsonValue::Str(i.log_dir.clone())));
    m.push((key("output"), JsonValue::Str(i.output.clone())));
    m.push((key("prompt"), JsonValue::Str(i.prompt.clone())));
    m.push((key("started_at"), JsonValue::Str(i.started_at.clone())));
    m.push((key("subscription_name"), JsonValue::Str(i.subscription_name.clone())));
    m.push((key("success"), JsonValue::Bool(i.success)));
    proof {
        lemma_jms(m@);
        assert(jms(m@) =~= seq![
            ("duration_ms"@, Json::Num(signed_decimal(i.duration_ms as int))),
            ("error"@, match i.error {
                Some(e) => Json::Str(e@),
                None => Json::Null,
            }),
            ("finished_at"@, Json::Str(i.finished_at@)),
            ("log_dir"@, Json::Str(i.log_dir@)),
            ("output"@, Json::Str(i.output@)),
            ("prompt"@, Json::Str(i.prompt@)),
            ("started_at"@, Json::Str(i.started_at@)),
            ("subscription_name"@, Json::Str(i.subscription_name@)),
            ("success"@, Json::Bool(i.success)),
        ]);
    }
    JsonValue::Object(m)
}

impl WasmReporter {
    /// The input text for a result.
    pub fn input_text(&self, result: &ExecutionResult) -> (r: String)
        ensures
            exists|i: ReportInput| report_input_of(*result, self.log_dir@, i) && r@ == json_text(wasm_input_json(i)),
    {
        let i = report_input(result, self.log_dir.as_str());
        render_json(&wasm_input_value(&i))
    }
}

/// Why a WASM reporter's answer cannot be carried out.
#[derive(Debug, Clone, Copy, PartialEq, Eq, Structural)]
pub enum ReporterError {
    /// The answer is not JSON.
    NotJson,
    /// `append_file` has no string `path`.
    MissingPath,
    /// `append_file` has no string `content`.
    MissingContent,
}

/// The message of a reporter error.
pub open spec fn reporter_error_text(e: ReporterError) -> Seq<char> {
    match e {
        ReporterError::NotJson => "WASM 汇报器返回非合法 JSON"@,
        ReporterError::MissingPath => "append_file 缺少 path 字段"@,
        ReporterError::MissingContent => "append_file 缺少 content 字段"@,
    }
}

impl ReporterError {
    /// The message of the error.
    pub fn message(&self) -> (r: String)
        ensures
            r@ == reporter_error_text(*self),
    {
        match self {
            ReporterError::NotJson => key("WASM 汇报器返回非合法 JSON"),
            ReporterError::MissingPath => key("append_file 缺少 path 字段"),
            ReporterError::MissingContent => key("append_file 缺少 content 字段"),
        }
    }
}

/// What a WASM reporter's answer asks for: text to print on standard output
/// and standard error, and a file append (or why the append is malformed;
/// the prints are done either way).
pub struct ReporterActions {
    pub stdout: Option<String>,
    pub stderr: Option<String>,
    pub append: Result<Option<AppendFile>, ReporterError>,
}

/// A string member's text, if it is a string.
pub open spec fn str_member(j: Json, k: Seq<char>) -> Option<Seq<char>> {
    match get(j, k) {
        Some(Json::Str(s)) => Some(s),
        _ => None,
    }
}

/// Reads a WASM reporter's answer: `stdout` and `stderr` strings are printed;
/// an `append_file` member must have string `path` and `content`.
pub fn reporter_actions(output_json: &str) -> (r: Result<ReporterActions, ReporterError>)
    ensures
        match json_parse(output_json@) {
            None => r == Err::<ReporterActions, ReporterError>(ReporterError::NotJson),
            Some(j) => r matches Ok(a) && {
                &&& opt_view(a.stdout) == str_member(j, "stdout"@)
                &&& opt_view(a.stderr) == str_member(j, "stderr"@)
                &&& match get(j, "append_file"@) {
                    None => a.append matches Ok(None),
                    Some(f) => match (str_member(f, "path"@), str_member(f, "content"@)) {
                        (None, _) => a.append == Err::<Option<AppendFile>, ReporterError>(ReporterError::MissingPath),
                        (Some(_), None) => a.append == Err::<Option<AppendFile>, ReporterError>(ReporterError::MissingContent),
                        (Some(p), Some(c)) => a.append matches Ok(Some(af)) && af.path@ == p && af.content@ == c,
                    },
                }
            },
        },
{
    let v = match parse_json(output_json) {
        Some(v) => v,
        None => return Err(ReporterError::NotJson),
    };
    let stdout = match v.get("stdout") {
        Some(JsonValue::Str(s)) => Some(s.clone()),
        _ => None,
    };
    let stderr = match v.get("stderr") {
        Some(JsonValue::Str(s)) => Some(s.clone()),
        _ => None,
    };
    let append = match v.get("append_file") {
        None => Ok(None),
        Some(f) => match f.get("path") {
            Some(JsonValue::Str(p)) => match f.get("content") {
                Some(JsonValue::Str(c)) => Ok(Some(AppendFile { path: p.clone(), content: c.clone() })),
                _ => Err(ReporterError::MissingContent),
            },
            _ => Err(ReporterError::MissingPath),
        },
    };
    Ok(ReporterActions { stdout, stderr, append })
}

} // verus!
