//! The streamed chat protocol of the earlier agent gateway: a request carries
//! one user message; replies arrive as deltas and end with a completion.
use vstd::prelude::*;
use crate::text::{push_str, string_of, chars_of};

verus! {

/// A chat message.
pub struct ChatMessage {
    pub role: String,
    pub content: String,
}

/// One reply frame of the gateway.
pub struct ClaudeResponse {
    /// `delta`, `message_complete`, `error` or another type that is ignored.
    pub message_type: String,
    pub conversation_id: String,
    pub delta: String,
    pub content: String,
    pub error: Option<String>,
}

/// What a reply frame does to the answer being collected.
#[derive(Debug, Clone, PartialEq, Eq)]
pub enum ReplyStep {
    /// Keep reading.
    Continue,
    /// The answer is complete.
    Complete,
    /// The request failed, with this message.
    Failed(String),
}

/// The answer collected so far after a frame, and whether reading goes on
/// (`None`), ends with the answer (`Some(Ok)`), or fails (`Some(Err(message))`).
pub open spec fn reply_step(acc: Seq<char>, r: ClaudeResponse) -> (Seq<char>, Option<Result<(), Seq<char>>>) {
    match r.error {
        Some(e) => (acc, Some(Err("API 错误: "@ + e@))),
        None => if r.message_type@ == "delta"@ {
            (acc + r.delta@, None)
        } else if r.message_type@ == "message_complete"@ {
            (if r.content@.len() > 0 { r.content@ } else { acc }, Some(Ok(())))
        } else if r.message_type@ == "error"@ {
            (acc, Some(Err("服务端错误: "@ + r.delta@)))
        } else {
            (acc, None)
        },
    }
}

/// Applies one reply frame to the answer collected so far.
pub fn apply_reply(acc: &mut Vec<char>, r: &ClaudeResponse) -> (step: ReplyStep)
    ensures
        ({
            let (next, outcome) = reply_step(old(acc)@, *r);
            &&& final(acc)@ == next
            &&& match step {
                ReplyStep::Continue => outcome is None,
                ReplyStep::Complete => outcome == Some(Ok::<(), Seq<char>>(())),
                ReplyStep::Failed(m) => outcome == Some(Err::<(), Seq<char>>(m@)),
            }
        }),
{
    if let Some(e) = &r.error {
        let mut m: Vec<char> = Vec::new();
        push_str(&mut m, "API 错误: ");
        push_str(&mut m, e.as_str());
        return ReplyStep::Failed(string_of(m.as_slice()));
    }
    let t = chars_of(r.message_type.as_str());
    if crate::text::chars_eq_str(t.as_slice(), "delta") {
        push_str(acc, r.delta.as_str());
        ReplyStep::Continue
    } else if crate::text::chars_eq_str(t.as_slice(), "message_complete") {
        if !r.content.as_str().is_empty() {
            *acc = chars_of(r.content.as_str());
        }
        ReplyStep::Complete
    } else if crate::text::chars_eq_str(t.as_slice(), "error") {
        let mut m: Vec<char> = Vec::new();
        push_str(&mut m, "服务端错误: ");
        push_str(&mut m, r.delta.as_str());
        ReplyStep::Failed(string_of(m.as_slice()))
    } else {
        ReplyStep::Continue
    }
}

} // verus!
