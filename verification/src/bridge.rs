//! The bridge protocol between this adapter and the agent bridge, and the
//! decisions the adapter takes on what the bridge sends.
//!
//! The adapter declares only the `text` and `buttons` capabilities: it gets no
//! streamed progress, only the final `reply`, and it answers permission
//! buttons by pressing the "allow" button itself.
use vstd::prelude::*;
use crate::text::{
    chars_eq_str, chars_of, contains, free_of, lowercase, push_all, push_str, str_contains,
    string_of, to_lowercase,
};

verus! {

/// A button that the bridge offers.
#[derive(Debug)]
pub struct BridgeButton {
    pub text: String,
    pub data: String,
}

/// Messages from the bridge. Types the adapter did not declare (streamed
/// replies, cards, typing indicators) are `Other` and are ignored.
#[derive(Debug)]
pub enum Inbound {
    RegisterAck { ok: bool, error: String },
    Reply { session_key: String, reply_ctx: String, content: String },
    Buttons {
        session_key: String,
        reply_ctx: String,
        content: String,
        buttons: Vec<Vec<BridgeButton>>,
    },
    Error { code: String, message: String },
    Pong { ts: u64 },
    Other,
}

/// Messages to the bridge.
#[derive(Debug)]
pub enum Outbound {
    Register { platform: String, capabilities: Vec<String>, metadata: RegisterMetadata },
    /// A user message; `project` routes it to a project of the bridge
    /// (`None`: the default project).
    Message {
        msg_id: String,
        session_key: String,
        user_id: String,
        user_name: String,
        content: String,
        reply_ctx: String,
        project: Option<String>,
    },
    /// A button press or command; `project` as for messages.
    CardAction { session_key: String, action: String, reply_ctx: String, project: Option<String> },
    Ping { ts: u64 },
}

/// What the adapter tells the bridge about itself when it registers.
#[derive(Debug)]
pub struct RegisterMetadata {
    pub protocol_version: u64,
    pub version: String,
    pub description: String,
    /// The permission mode asked for the agent (`bypassPermissions`).
    pub permission_mode: String,
}

// ── allow buttons ───────────────────────────────────────────────

/// The words that mark an allow callback segment.
pub open spec fn allow_word(w: Seq<char>) -> bool {
    w == "allow"@ || w == "approve"@ || w == "yes"@ || w == "accept"@
}

/// `s[i..j]` is one of the `:`-separated segments of `s`.
pub open spec fn colon_segment(s: Seq<char>, i: int, j: int) -> bool {
    &&& 0 <= i <= j <= s.len()
    &&& (i == 0 || s[i - 1] == ':')
    &&& (j == s.len() || s[j] == ':')
    &&& free_of(s, ':', i, j)
}

/// Some `:`-separated segment of the lower-cased callback data is an allow word.
pub open spec fn data_allows(data: Seq<char>) -> bool {
    exists|i: int, j: int|
        colon_segment(lowercase(data), i, j) && allow_word(#[trigger] lowercase(data).subrange(i, j))
}

/// The button text asks to allow: it holds 允许 or 同意, or, lower-cased, `allow`.
pub open spec fn text_allows(text: Seq<char>) -> bool {
    contains(text, "允许"@) || contains(text, "同意"@) || contains(lowercase(text), "allow"@)
}

pub open spec fn button_allows(b: BridgeButton) -> bool {
    data_allows(b.data@) || text_allows(b.text@)
}

/// The buttons row by row.
pub open spec fn flatten(rows: Seq<Vec<BridgeButton>>) -> Seq<BridgeButton>
    decreases rows.len(),
{
    if rows.len() == 0 {
        Seq::empty()
    } else {
        rows[0]@ + flatten(rows.drop_first())
    }
}

/// The callback data of the first allowing button.
pub open spec fn first_allow(bs: Seq<BridgeButton>) -> Option<Seq<char>>
    decreases bs.len(),
{
    if bs.len() == 0 {
        None
    } else if button_allows(bs[0]) {
        Some(bs[0].data@)
    } else {
        first_allow(bs.drop_first())
    }
}

proof fn lemma_first_allow_concat(a: Seq<BridgeButton>, b: Seq<BridgeButton>)
    ensures
        first_allow(a + b) == match first_allow(a) {
            Some(d) => Some(d),
            None => first_allow(b),
        },
    decreases a.len(),
{
    if a.len() > 0 {
        assert((a + b).drop_first() == a.drop_first() + b);
        assert((a + b)[0] == a[0]);
        lemma_first_allow_concat(a.drop_first(), b);
    } else {
        assert(a + b == b);
    }
}

/// Callback data marks an allow button whenever one of its `:`-separated
/// segments, lower-cased, is `allow`, `approve`, `yes` or `accept`: for
/// example `perm:req-1:accept`.
pub proof fn law_allow_segments(data: Seq<char>, i: int, j: int)
    requires
        colon_segment(lowercase(data), i, j),
        lowercase(data).subrange(i, j) == "allow"@ || lowercase(data).subrange(i, j) == "approve"@
            || lowercase(data).subrange(i, j) == "yes"@ || lowercase(data).subrange(i, j) == "accept"@,
    ensures
        data_allows(data),
{
    assert(allow_word(lowercase(data).subrange(i, j)));
}

/// Callback data marks an allow button only through such a segment: if
/// `data_allows`, some `:`-separated segment of the lower-cased data is one
/// of `allow`, `approve`, `yes` and `accept`.
pub proof fn law_allow_only_by_segment(data: Seq<char>)
    requires
        data_allows(data),
    ensures
        exists|i: int, j: int|
            colon_segment(lowercase(data), i, j) && {
                let w = #[trigger] lowercase(data).subrange(i, j);
                w == "allow"@ || w == "approve"@ || w == "yes"@ || w == "accept"@
            },
{
}

/// The button pressed for a permission request is the first one, row by
/// row, that allows: given a button at position `k` of the flattened rows
/// that allows, with none before it allowing, its data is what is picked.
pub proof fn law_first_allowing_button(bs: Seq<BridgeButton>, k: int)
    requires
        0 <= k < bs.len(),
        button_allows(bs[k]),
        forall|m: int| 0 <= m < k ==> !button_allows(#[trigger] bs[m]),
    ensures
        first_allow(bs) == Some(bs[k].data@),
    decreases k,
{
    if k > 0 {
        assert(!button_allows(bs[0]));
        assert forall|m: int| 0 <= m < k - 1 implies !button_allows(#[trigger] bs.drop_first()[m]) by {
            assert(bs.drop_first()[m] == bs[m + 1]);
        }
        law_first_allowing_button(bs.drop_first(), k - 1);
    }
}

fn is_allow_word(seg: &[char]) -> (r: bool)
    ensures
        r == allow_word(seg@),
{
    chars_eq_str(seg, "allow") || chars_eq_str(seg, "approve") || chars_eq_str(seg, "yes")
        || chars_eq_str(seg, "accept")
}

/// Whether some `:`-separated segment of the lower-cased data is an allow word.
fn data_says_allow(data: &String) -> (r: bool)
    ensures
        r == data_allows(data@),
{
    let lower = to_lowercase(data.as_str());
    let s = chars_of(lower.as_str());
    let ghost ls = lowercase(data@);
    assert(s@ == ls);
    let n = s.len();
    let mut start: usize = 0;
    let mut k: usize = 0;
    while k <= n
        invariant
            n == s@.len(),
            s@ == ls,
            ls == lowercase(data@),
            start <= k,
            k <= n + 1,
            k <= n ==> start <= k,
            start == 0 || (start <= n && s@[start - 1] == ':'),
            k <= n ==> free_of(ls, ':', start as int, k as int),
            forall|i: int, j: int|
                colon_segment(ls, i, j) && j < k ==> !allow_word(#[trigger] ls.subrange(i, j)),
        decreases n + 1 - k,
    {
        if k == n || s[k] == ':' {
            let mut seg: Vec<char> = Vec::new();
            let mut t = start;
            while t < k
                invariant
                    start <= t <= k <= n,
                    n == s@.len(),
                    ls == lowercase(data@),
                    seg@ == s@.subrange(start as int, t as int),
                decreases k - t,
            {
                seg.push(s[t]);
                t = t + 1;
            }
            proof {
                assert(colon_segment(ls, start as int, k as int));
                assert forall|i: int| colon_segment(ls, i, k as int) implies i == start by {
                    if i < start {
                        assert(ls[start - 1] == ':');
                    } else if i > start {
                        assert(ls[i - 1] == ':');
                    }
                }
            }
            assert(seg@ == ls.subrange(start as int, k as int));
            if is_allow_word(seg.as_slice()) {
                proof {
                    assert(colon_segment(lowercase(data@), start as int, k as int));
                    assert(allow_word(lowercase(data@).subrange(start as int, k as int)));
                }
                return true;
            }
            if k == n {
                proof {
                    assert forall|i: int, j: int|
                        colon_segment(ls, i, j) implies !allow_word(#[trigger] ls.subrange(i, j)) by {
                        if j == k {
                            assert(i == start);
                        }
                    }
                }
                return false;
            }
            start = k + 1;
        }
        k = k + 1;
    }
    false
}

fn text_says_allow(text: &String) -> (r: bool)
    ensures
        r == text_allows(text@),
{
    let lower = to_lowercase(text.as_str());
    str_contains(text.as_str(), "允许") || str_contains(text.as_str(), "同意") || str_contains(
        lower.as_str(),
        "allow",
    )
}

/// The callback data of the first button (row by row) that asks to allow: its
/// lower-cased data has an `allow`, `approve`, `yes` or `accept` segment
/// between `:` separators, or its text holds 允许 or 同意, or its lower-cased
/// text holds `allow`.
pub fn pick_allow_action(buttons: &[Vec<BridgeButton>]) -> (r: Option<String>)
    ensures
        match r {
            Some(d) => first_allow(flatten(buttons@)) == Some(d@),
            None => first_allow(flatten(buttons@)) is None,
        },
{
    let mut i: usize = 0;
    assert(buttons@.skip(0) == buttons@);
    while i < buttons.len()
        invariant
            i <= buttons@.len(),
            first_allow(flatten(buttons@)) == first_allow(flatten(buttons@.skip(i as int))),
        decreases buttons@.len() - i,
    {
        let row = &buttons[i];
        let mut j: usize = 0;
        assert(row@.skip(0) == row@);
        while j < row.len()
            invariant
                i < buttons@.len(),
                row@ == buttons@[i as int]@,
                first_allow(flatten(buttons@)) == first_allow(flatten(buttons@.skip(i as int))),
                j <= row@.len(),
                first_allow(row@) == first_allow(row@.skip(j as int)),
            decreases row@.len() - j,
        {
            let b = &row[j];
            if data_says_allow(&b.data) || text_says_allow(&b.text) {
                proof {
                    assert(row@.skip(j as int)[0] == row@[j as int]);
                    assert(button_allows(row@[j as int]));
                    assert(first_allow(row@.skip(j as int)) == Some(row@[j as int].data@));
                    let rest = buttons@.skip(i as int);
                    assert(rest[0] == buttons@[i as int]);
                    assert(flatten(rest) == rest[0]@ + flatten(rest.drop_first()));
                    lemma_first_allow_concat(row@, flatten(rest.drop_first()));
                    assert(first_allow(flatten(rest)) == Some(row@[j as int].data@));
                }
                let d = b.data.clone();
                assert(d@ == row@[j as int].data@);
                return Some(d);
            }
            proof {
                assert(row@.skip(j as int).drop_first() == row@.skip(j + 1));
            }
            j = j + 1;
        }
        proof {
            assert(row@.skip(j as int).len() == 0);
            let rest = buttons@.skip(i as int);
            assert(rest[0] == buttons@[i as int]);
            assert(flatten(rest) == rest[0]@ + flatten(rest.drop_first()));
            lemma_first_allow_concat(row@, flatten(rest.drop_first()));
            assert(rest.drop_first() == buttons@.skip(i + 1));
        }
        i = i + 1;
    }
    proof {
        assert(buttons@.skip(i as int).len() == 0);
    }
    None
}

// ── text truncation ─────────────────────────────────────────────

/// `s` itself when it has at most `max` characters, otherwise its first `max`
/// characters followed by `…`.
pub open spec fn truncated(s: Seq<char>, max: nat) -> Seq<char> {
    if s.len() <= max {
        s
    } else {
        s.take(max as int).push('…')
    }
}

/// Shortens `s` to at most `max` characters plus an ellipsis.
pub fn truncate(s: &str, max: usize) -> (r: String)
    ensures
        r@ == truncated(s@, max as nat),
{
    let cs = chars_of(s);
    if cs.len() <= max {
        return string_of(cs.as_slice());
    }
    let mut out: Vec<char> = Vec::new();
    let mut i: usize = 0;
    while i < max
        invariant
            i <= max < cs@.len(),
            out@ == cs@.take(i as int),
        decreases max - i,
    {
        out.push(cs[i]);
        i = i + 1;
    }
    out.push('…');
    string_of(out.as_slice())
}

} // verus!
