//! Entries of the run log shown per agent in the desktop application.
use vstd::prelude::*;
use crate::text::{chars_of, string_of};

verus! {

/// The kind of a run log entry.
#[derive(Debug, Clone, Copy, PartialEq, Eq, Structural)]
pub enum LogKind {
    /// Connection and service state.
    System,
    /// A webhook event that arrived.
    Webhook,
    /// A result returned by the agent.
    Result,
    /// An error (always shown, whatever the filters).
    Error,
}

/// One entry of the run log.
pub struct LogEntry {
    /// Local wall-clock time of the entry, `HH:MM:SS`.
    pub clock: String,
    pub kind: LogKind,
    /// Where it comes from: an agent name, `cc-connect` or 系统.
    pub source: String,
    /// The bridge session it belongs to, empty when none.
    pub session_key: String,
    /// One-line summary.
    pub summary: String,
    /// Collapsible detail (webhook data, full result); may be empty.
    pub detail: String,
}

/// A run log line before it is stamped with the time: what a decision asks
/// the host to record.
pub struct LogLine {
    pub kind: LogKind,
    pub source: String,
    pub session_key: String,
    pub summary: String,
    pub detail: String,
}

/// The fields of a log line.
pub open spec fn line_is(l: LogLine, kind: LogKind, source: Seq<char>, key: Seq<char>, summary: Seq<char>, detail: Seq<char>) -> bool {
    &&& l.kind == kind
    &&& l.source@ == source
    &&& l.session_key@ == key
    &&& l.summary@ == summary
    &&& l.detail@ == detail
}

/// A log line with the given fields.
pub fn log_line(kind: LogKind, source: &str, key: &str, summary: &str, detail: &str) -> (r: LogLine)
    ensures
        line_is(r, kind, source@, key@, summary@, detail@),
{
    LogLine {
        kind,
        source: string_of(chars_of(source).as_slice()),
        session_key: string_of(chars_of(key).as_slice()),
        summary: string_of(chars_of(summary).as_slice()),
        detail: string_of(chars_of(detail).as_slice()),
    }
}

} // verus!
