//! Texts of the console reporter: the block printed for each execution result
//! and the entry appended to the subscription's log file.
use vstd::prelude::*;
use crate::text::{push_all, push_signed_decimal, push_str, signed_decimal, string_of, chars_of};

verus! {

/// What the host hands the console reporter about one execution.
pub struct ReportInput {
    pub subscription_name: String,
    pub success: bool,
    pub output: String,
    pub error: Option<String>,
    /// Start time, RFC 3339.
    pub started_at: String,
    /// End time, RFC 3339.
    pub finished_at: String,
    pub duration_ms: i64,
    pub prompt: String,
    pub log_dir: String,
}

/// A file append that the reporter asks the host to perform.
pub struct AppendFile {
    pub path: String,
    pub content: String,
}

/// The reporter's answer: what to print and what to append to a file.
pub struct ReportOutput {
    pub stdout: Option<String>,
    pub stderr: Option<String>,
    pub append_file: Option<AppendFile>,
}

/// `c` repeated `n` times.
pub open spec fn repeat(c: char, n: nat) -> Seq<char> {
    Seq::new(n, |i: int| c)
}

/// The error text, or 未知错误 when there is none.
pub open spec fn error_text(e: Option<String>) -> Seq<char> {
    match e {
        Some(s) => s@,
        None => "未知错误"@,
    }
}

/// The head of the printed block: separator, status icon, name, start time,
/// duration, separator.
pub open spec fn console_head(i: ReportInput) -> Seq<char> {
    let sep = repeat('─', 60);
    let icon = if i.success { "✅"@ } else { "❌"@ };
    seq!['\n'] + sep + seq!['\n'] + icon + " ["@ + i.subscription_name@ + "] 执行完成\n"@
        + "   开始: "@ + i.started_at@ + seq!['\n'] + "   耗时: "@ + signed_decimal(i.duration_ms as int)
        + "ms\n"@ + sep + seq!['\n']
}

/// The block printed for a result.
pub open spec fn console_text(i: ReportInput) -> Seq<char> {
    let sep = repeat('─', 60);
    let head = console_head(i);
    let body = if i.success {
        i.output@ + seq!['\n']
    } else {
        "❌ 错误: "@ + error_text(i.error) + seq!['\n'] + if i.output@.len() > 0 {
            "输出:\n"@ + i.output@ + seq!['\n']
        } else {
            Seq::empty()
        }
    };
    head + body + sep + seq!['\n']
}

/// The entry appended to the log file for a result.
pub open spec fn log_entry_text(i: ReportInput) -> Seq<char> {
    let divider = repeat('=', 80);
    let status = if i.success { "SUCCESS"@ } else { "FAILURE"@ };
    let head = divider + seq!['\n'] + seq!['['] + i.started_at@ + "] 订阅: "@ + i.subscription_name@
        + seq!['\n'] + "状态: "@ + status + " | 耗时: "@ + signed_decimal(i.duration_ms as int)
        + "ms\n"@ + "完成时间: "@ + i.finished_at@ + seq!['\n'] + seq!['\n'] + "── 提示词 ──\n"@
        + i.prompt@ + seq!['\n'] + seq!['\n'] + "── 输出 ──\n"@;
    let body = if i.success {
        i.output@ + seq!['\n']
    } else {
        "错误: "@ + error_text(i.error) + seq!['\n'] + if i.output@.len() > 0 {
            "\n── 部分输出 ──\n"@ + i.output@ + seq!['\n']
        } else {
            Seq::empty()
        }
    };
    head + body + divider + seq!['\n']
}

/// The log file of a subscription: `<log_dir>/<name>.log`.
pub open spec fn log_path(i: ReportInput) -> Seq<char> {
    i.log_dir@ + seq!['/'] + i.subscription_name@ + ".log"@
}

pub(crate) fn push_repeat(v: &mut Vec<char>, c: char, n: usize)
    ensures
        final(v)@ == old(v)@ + repeat(c, n as nat),
{
    let mut k: usize = 0;
    while k < n
        invariant
            k <= n,
            v@ == old(v)@ + repeat(c, k as nat),
        decreases n - k,
    {
        v.push(c);
        k = k + 1;
        assert(repeat(c, k as nat) == repeat(c, (k - 1) as nat).push(c));
    }
}

fn push_string(v: &mut Vec<char>, s: &String)
    ensures
        final(v)@ == old(v)@ + s@,
{
    push_str(v, s.as_str());
}

pub(crate) fn push_error(v: &mut Vec<char>, e: &Option<String>)
    ensures
        final(v)@ == old(v)@ + error_text(*e),
{
    match e {
        Some(s) => push_string(v, s),
        None => push_str(v, "未知错误"),
    }
}

/// The block printed for a result: separators, status icon, name, start time
/// and duration, then the output (or the error and any partial output).
pub fn format_console(input: &ReportInput) -> (r: String)
    ensures
        r@ == console_text(*input),
{
    let mut v: Vec<char> = Vec::new();
    v.push('\n');
    push_repeat(&mut v, '─', 60);
    v.push('\n');
    if input.success {
        push_str(&mut v, "✅");
    } else {
        push_str(&mut v, "❌");
    }
    push_str(&mut v, " [");
    push_string(&mut v, &input.subscription_name);
    push_str(&mut v, "] 执行完成\n");
    push_str(&mut v, "   开始: ");
    push_string(&mut v, &input.started_at);
    v.push('\n');
    push_str(&mut v, "   耗时: ");
    push_signed_decimal(&mut v, input.duration_ms);
    push_str(&mut v, "ms\n");
    push_repeat(&mut v, '─', 60);
    v.push('\n');
    let ghost head = v@;
    let ghost i = *input;
    let ghost tail: Seq<char> = if i.output@.len() > 0 {
        "输出:\n"@ + i.output@ + seq!['\n']
    } else {
        Seq::empty()
    };
    let ghost body: Seq<char> = if i.success {
        i.output@ + seq!['\n']
    } else {
        "❌ 错误: "@ + error_text(i.error) + seq!['\n'] + tail
    };
    if input.success {
        push_string(&mut v, &input.output);
        v.push('\n');
        assert(v@ =~= head + body);
    } else {
        push_str(&mut v, "❌ 错误: ");
        push_error(&mut v, &input.error);
        v.push('\n');
        let ghost mid = v@;
        assert(mid =~= head + ("❌ 错误: "@ + error_text(i.error) + seq!['\n']));
        if !input.output.as_str().is_empty() {
            push_str(&mut v, "输出:\n");
            push_string(&mut v, &input.output);
            v.push('\n');
            assert(v@ =~= mid + tail);
        } else {
            assert(v@ =~= mid + tail);
        }
        assert(v@ =~= head + body);
    }
    let ghost hb = v@;
    push_repeat(&mut v, '─', 60);
    v.push('\n');
    proof {
        let sep = repeat('─', 60);
        assert(head =~= seq!['\n'] + sep + seq!['\n'] + (if i.success { "✅"@ } else { "❌"@ })
            + " ["@ + i.subscription_name@ + "] 执行完成\n"@ + "   开始: "@ + i.started_at@ + seq!['\n']
            + "   耗时: "@ + signed_decimal(i.duration_ms as int) + "ms\n"@ + sep + seq!['\n']);
        assert(v@ =~= hb + sep + seq!['\n']);
    }
    assert(v@ =~= console_text(*input));
    string_of(v.as_slice())
}

/// The log file entry for a result: a divider, start time and name, status
/// and duration, end time, the prompt, then the output (or the error and any
/// partial output), and a closing divider.
pub fn format_log_entry(input: &ReportInput) -> (r: String)
    ensures
        r@ == log_entry_text(*input),
{
    let ghost i = *input;
    let mut v: Vec<char> = Vec::new();
    push_repeat(&mut v, '=', 80);
    v.push('\n');
    v.push('[');
    push_string(&mut v, &input.started_at);
    push_str(&mut v, "] 订阅: ");
    push_string(&mut v, &input.subscription_name);
    v.push('\n');
    push_str(&mut v, "状态: ");
    if input.success {
        push_str(&mut v, "SUCCESS");
    } else {
        push_str(&mut v, "FAILURE");
    }
    push_str(&mut v, " | 耗时: ");
    push_signed_decimal(&mut v, input.duration_ms);
    push_str(&mut v, "ms\n");
    push_str(&mut v, "完成时间: ");
    push_string(&mut v, &input.finished_at);
    v.push('\n');
    v.push('\n');
    push_str(&mut v, "── 提示词 ──\n");
    push_string(&mut v, &input.prompt);
    v.push('\n');
    v.push('\n');
    push_str(&mut v, "── 输出 ──\n");
    let ghost head = v@;
    let ghost tail: Seq<char> = if i.output@.len() > 0 {
        "\n── 部分输出 ──\n"@ + i.output@ + seq!['\n']
    } else {
        Seq::empty()
    };
    let ghost body: Seq<char> = if i.success {
        i.output@ + seq!['\n']
    } else {
        "错误: "@ + error_text(i.error) + seq!['\n'] + tail
    };
    if input.success {
        push_string(&mut v, &input.output);
        v.push('\n');
        assert(v@ =~= head + body);
    } else {
        push_str(&mut v, "错误: ");
        push_error(&mut v, &input.error);
        v.push('\n');
        let ghost mid = v@;
        assert(mid =~= head + ("错误: "@ + error_text(i.error) + seq!['\n']));
        if !input.output.as_str().is_empty() {
            push_str(&mut v, "\n── 部分输出 ──\n");
            push_string(&mut v, &input.output);
            v.push('\n');
        }
        assert(v@ =~= mid + tail);
        assert(v@ =~= head + body);
    }
    let ghost hb = v@;
    push_repeat(&mut v, '=', 80);
    v.push('\n');
    proof {
        let divider = repeat('=', 80);
        let status = if i.success { "SUCCESS"@ } else { "FAILURE"@ };
        assert(head =~= divider + seq!['\n'] + seq!['['] + i.started_at@ + "] 订阅: "@
            + i.subscription_name@ + seq!['\n'] + "状态: "@ + status + " | 耗时: "@ + signed_decimal(
            i.duration_ms as int,
        ) + "ms\n"@ + "完成时间: "@ + i.finished_at@ + seq!['\n'] + seq!['\n'] + "── 提示词 ──\n"@
            + i.prompt@ + seq!['\n'] + seq!['\n'] + "── 输出 ──\n"@);
        assert(v@ =~= hb + divider + seq!['\n']);
    }
    assert(v@ =~= log_entry_text(*input));
    string_of(v.as_slice())
}

/// The reporter's answer for a result: the console block on standard output,
/// nothing on standard error, and the log entry appended to
/// `<log_dir>/<name>.log`.
pub fn build_output(input: ReportInput) -> (r: ReportOutput)
    ensures
        r.stdout matches Some(s) && s@ == console_text(input),
        r.stderr is None,
        r.append_file matches Some(f) && f.path@ == log_path(input) && f.content@ == log_entry_text(
            input,
        ),
{
    let mut path: Vec<char> = Vec::new();
    push_string(&mut path, &input.log_dir);
    path.push('/');
    push_string(&mut path, &input.subscription_name);
    push_str(&mut path, ".log");
    assert(path@ =~= log_path(input));
    ReportOutput {
        stdout: Some(format_console(&input)),
        stderr: None,
        append_file: Some(
            AppendFile { path: string_of(path.as_slice()), content: format_log_entry(&input) },
        ),
    }
}

} // verus!
