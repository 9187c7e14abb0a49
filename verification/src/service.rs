//! Decisions of the background service: which agents run, how each agent is
//! bound to a bridge session and project, how its filter setting is read, and
//! what the control commands of the desktop application turn into.
//!
//! The adapter keeps one bridge connection under a single platform; each agent
//! is a session of its own (session keys differ, so contexts stay apart). The
//! bridge routes by the `project` of each message, so every message and card
//! action of a session carries the project its agent is bound to.
use vstd::prelude::*;
use crate::config::{Agent, AppConfig};
use crate::event::{event_pretty, render_event_pretty, SmeeEvent};
use crate::exec::{
    body_text, build_prompt, div_toward_zero, headers_text, prompt_text, query_text, time_text, ExecutionResult,
};
use crate::filter::FilterResult;
use crate::event_log::{line_is, log_line, LogKind, LogLine};
use crate::text::{
    chars_of, lowercase, no_ascii_upper, push_all, push_signed_decimal, push_str, signed_decimal, string_of,
    to_lowercase,
    trim, trim_chars,
};

verus! {

/// The platform name of this adapter: the first segment of its session keys.
pub open spec fn platform() -> Seq<char> {
    "agent-loop"@
}

/// The card action that makes the bridge open a new session (`/new`).
pub open spec fn new_session_action() -> Seq<char> {
    "cmd:/new"@
}

/// The project an agent is bound to: its trimmed project name, or `None`
/// (the bridge's default project) when that is blank.
pub open spec fn project_spec(project: Seq<char>) -> Option<Seq<char>> {
    if trim(project).len() == 0 {
        None
    } else {
        Some(trim(project))
    }
}

/// The view of an optional string.
pub open spec fn opt_view(o: Option<String>) -> Option<Seq<char>> {
    match o {
        Some(s) => Some(s@),
        None => None,
    }
}

/// The project an agent is bound to (blank = the bridge's default project).
pub fn project_of(agent: &Agent) -> (r: Option<String>)
    ensures
        opt_view(r) == project_spec(agent.project@),
{
    let p = trim_chars(chars_of(agent.project.as_str()).as_slice());
    if p.len() == 0 {
        None
    } else {
        Some(string_of(p.as_slice()))
    }
}

/// What a filter setting asks for: a regular expression, a policy plugin, or
/// neither. `none`, empty or missing means no filter; `regex:<pattern>` a
/// regular expression (none when the pattern is empty); anything else names
/// a policy plugin.
pub open spec fn filter_spec(raw: Option<Seq<char>>) -> (Option<Seq<char>>, Option<Seq<char>>) {
    match raw {
        None => (None, None),
        Some(s) => if s == "none"@ || s.len() == 0 {
            (None, None)
        } else if crate::text::starts_with(s, "regex:"@) {
            if s.len() == 6 {
                (None, None)
            } else {
                (Some(s.skip(6)), None)
            }
        } else {
            (None, Some(s))
        },
    }
}

/// Reads a filter setting into (regular expression, policy plugin name).
pub fn parse_filter(raw: Option<&str>) -> (r: (Option<String>, Option<String>))
    ensures
        (opt_view(r.0), opt_view(r.1)) == filter_spec(
            match raw {
                Some(s) => Some(s@),
                None => None,
            },
        ),
{
    match raw {
        None => (None, None),
        Some(s) => {
            let cs = chars_of(s);
            proof {
                reveal_strlit("regex:");
            }
            if crate::text::chars_eq_str(cs.as_slice(), "none") || cs.len() == 0 {
                (None, None)
            } else if crate::text::starts_with_chars(cs.as_slice(), chars_of("regex:").as_slice()) {
                if cs.len() == 6 {
                    (None, None)
                } else {
                    let mut rest: Vec<char> = Vec::new();
                    let mut i: usize = 6;
                    while i < cs.len()
                        invariant
                            6 <= i <= cs@.len(),
                            rest@ == cs@.subrange(6, i as int),
                        decreases cs@.len() - i,
                    {
                        rest.push(cs[i]);
                        i = i + 1;
                    }
                    assert(rest@ == cs@.skip(6));
                    (Some(string_of(rest.as_slice())), None)
                }
            } else {
                (None, Some(string_of(cs.as_slice())))
            }
        },
    }
}

// ── session identity ────────────────────────────────────────────

/// Whether `c` is an ASCII letter or digit.
pub open spec fn ascii_alnum(c: char) -> bool {
    ('0' <= c && c <= '9') || ('a' <= c && c <= 'z') || ('A' <= c && c <= 'Z')
}

/// A character of the name kept in the identity: ASCII letters and digits
/// stay, anything else becomes `-`.
pub open spec fn ident_char(c: char) -> char {
    if ascii_alnum(c) {
        c
    } else {
        '-'
    }
}

/// `s` without its leading and trailing `-`.
pub open spec fn trim_dashes(s: Seq<char>) -> Seq<char>
    decreases s.len(),
{
    if s.len() > 0 && s[0] == '-' {
        trim_dashes(s.drop_first())
    } else if s.len() > 0 && s.last() == '-' {
        trim_dashes(s.drop_last())
    } else {
        s
    }
}

/// The readable part of a session identity: the lower-cased name with every
/// character other than an ASCII letter or digit made `-`, trimmed of `-`.
pub open spec fn ident_base(name: Seq<char>) -> Seq<char> {
    trim_dashes(lowercase(name).map_values(|c: char| ident_char(c)))
}

/// The lower-case hexadecimal digit for `d` (`d < 16`).
pub open spec fn hex_digit(d: nat) -> char {
    if d < 10 {
        (48 + d) as char
    } else {
        (87 + d) as char
    }
}

/// `n` in six lower-case hexadecimal digits (`n < 2^24`).
pub open spec fn hex6(n: nat) -> Seq<char> {
    seq![
        hex_digit((n / 1048576) % 16),
        hex_digit((n / 65536) % 16),
        hex_digit((n / 4096) % 16),
        hex_digit((n / 256) % 16),
        hex_digit((n / 16) % 16),
        hex_digit(n % 16),
    ]
}

/// The hash of a name that `DefaultHasher` (the standard library's default,
/// fixed-key hasher) gives for the string.
pub uninterp spec fn name_hash(name: Seq<char>) -> u64;

/// `BuildHasher::hash_one` with a default `DefaultHasher`: the hash of the
/// string, named by [`name_hash`].
#[verifier::external_body]
fn hash_name(name: &str) -> (h: u64)
    ensures
        h == name_hash(name@),
{
    std::hash::BuildHasher::hash_one(
        &std::hash::BuildHasherDefault::<std::collections::hash_map::DefaultHasher>::default(),
        name,
    )
}

/// The session identity of an agent name: the readable part and six hex digits
/// of the name's hash (`sub-` and the digits when nothing readable is left),
/// so that names that read alike after cleaning still differ.
pub open spec fn identity_spec(name: Seq<char>) -> Seq<char> {
    let h = hex6((name_hash(name) % 16777216) as nat);
    if ident_base(name).len() == 0 {
        "sub-"@ + h
    } else {
        ident_base(name) + seq!['-'] + h
    }
}

fn hex_char(d: u64) -> (c: char)
    requires
        d < 16,
    ensures
        c == hex_digit(d as nat),
{
    let digits: [char; 16] = ['0', '1', '2', '3', '4', '5', '6', '7', '8', '9', 'a', 'b', 'c', 'd', 'e', 'f'];
    let c = digits[d as usize];
    assert(c == hex_digit(d as nat)) by {
        assert(digits@ =~= seq!['0', '1', '2', '3', '4', '5', '6', '7', '8', '9', 'a', 'b', 'c', 'd', 'e', 'f']);
    }
    c
}

fn push_hex6(v: &mut Vec<char>, n: u64)
    requires
        n < 16777216,
    ensures
        final(v)@ == old(v)@ + hex6(n as nat),
{
    v.push(hex_char((n / 1048576) % 16));
    v.push(hex_char((n / 65536) % 16));
    v.push(hex_char((n / 4096) % 16));
    v.push(hex_char((n / 256) % 16));
    v.push(hex_char((n / 16) % 16));
    v.push(hex_char(n % 16));
    assert(final(v)@ =~= old(v)@ + hex6(n as nat));
}

fn is_ascii_alnum(c: char) -> (r: bool)
    ensures
        r == ascii_alnum(c),
{
    ('0' <= c && c <= '9') || ('a' <= c && c <= 'z') || ('A' <= c && c <= 'Z')
}

/// Drops leading and trailing `-`.
fn trim_dash_chars(s: &[char]) -> (r: Vec<char>)
    ensures
        r@ == trim_dashes(s@),
{
    let mut lo: usize = 0;
    let mut hi: usize = s.len();
    assert(s@.subrange(0, s@.len() as int) == s@);
    while lo < hi && (s[lo] == '-' || s[hi - 1] == '-')
        invariant
            lo <= hi <= s@.len(),
            trim_dashes(s@.subrange(lo as int, hi as int)) == trim_dashes(s@),
        decreases hi - lo,
    {
        let ghost sub = s@.subrange(lo as int, hi as int);
        if s[lo] == '-' {
            assert(sub.drop_first() =~= s@.subrange(lo + 1, hi as int));
            lo = lo + 1;
        } else {
            assert(sub.drop_last() =~= s@.subrange(lo as int, hi - 1));
            hi = hi - 1;
        }
    }
    let mut r: Vec<char> = Vec::new();
    let mut i: usize = lo;
    while i < hi
        invariant
            lo <= i <= hi <= s@.len(),
            r@ == s@.subrange(lo as int, i as int),
        decreases hi - i,
    {
        r.push(s[i]);
        i = i + 1;
    }
    r
}

/// The scope and user segment of an agent's session key: lower-case ASCII
/// letters, digits and `-`, with a hash of the name so that names that differ
/// only outside ASCII still get different sessions.
pub fn session_identity(name: &str) -> (r: String)
    ensures
        r@ == identity_spec(name@),
        forall|i: int| 0 <= i < r@.len() ==> lower_identity_char(#[trigger] r@[i]),
{
    let lower = chars_of(to_lowercase(name).as_str());
    proof {
        law_identity_charset(name@);
    }
    let mut mapped: Vec<char> = Vec::new();
    let mut i: usize = 0;
    while i < lower.len()
        invariant
            i <= lower@.len(),
            lower@ == lowercase(name@),
            mapped@ == lower@.subrange(0, i as int).map_values(|c: char| ident_char(c)),
        decreases lower@.len() - i,
    {
        let c = lower[i];
        mapped.push(if is_ascii_alnum(c) { c } else { '-' });
        i = i + 1;
        assert(lower@.subrange(0, i as int).map_values(|c: char| ident_char(c)) =~= lower@.subrange(
            0,
            i - 1 as int,
        ).map_values(|c: char| ident_char(c)).push(ident_char(c)));
    }
    assert(lower@.subrange(0, lower@.len() as int) == lower@);
    let base = trim_dash_chars(mapped.as_slice());
    let full = hash_name(name);
    let h = full & 0xff_ffff;
    assert(h == full % 16777216) by (bit_vector)
        requires
            h == full & 0xff_ffff,
    ;
    let mut out: Vec<char> = Vec::new();
    if base.len() == 0 {
        push_str(&mut out, "sub-");
    } else {
        push_all(&mut out, base.as_slice());
        out.push('-');
    }
    push_hex6(&mut out, h);
    proof {
        if base@.len() == 0 {
            assert(out@ =~= "sub-"@ + hex6(h as nat));
        } else {
            assert(out@ =~= ident_base(name@) + seq!['-'] + hex6(h as nat));
        }
    }
    string_of(out.as_slice())
}

/// The session key of an agent: `agent-loop:<identity>:<identity>`. The same
/// agent name always gives the same session, so its context is kept.
pub open spec fn session_key_spec(name: Seq<char>) -> Seq<char> {
    platform() + seq![':'] + identity_spec(name) + seq![':'] + identity_spec(name)
}

/// The session key of an agent name.
pub fn session_key_for(name: &str) -> (r: String)
    ensures
        r@ == session_key_spec(name@),
{
    let id = session_identity(name);
    let mut out: Vec<char> = Vec::new();
    push_str(&mut out, "agent-loop");
    out.push(':');
    push_str(&mut out, id.as_str());
    out.push(':');
    push_str(&mut out, id.as_str());
    assert(out@ =~= session_key_spec(name@));
    string_of(out.as_slice())
}

/// Whether `c` may stand in a session identity: an ASCII letter, a digit or `-`.
pub open spec fn identity_char(c: char) -> bool {
    ascii_alnum(c) || c == '-'
}

/// Whether `c` is a lower-case ASCII letter, a digit or `-`: what the
/// bridge protocol asks of session key segments.
pub open spec fn lower_identity_char(c: char) -> bool {
    ('0' <= c && c <= '9') || ('a' <= c && c <= 'z') || c == '-'
}

proof fn lemma_trim_dashes_keeps(s: Seq<char>, p: spec_fn(char) -> bool)
    requires
        forall|i: int| 0 <= i < s.len() ==> p(#[trigger] s[i]),
    ensures
        forall|i: int| 0 <= i < trim_dashes(s).len() ==> p(#[trigger] trim_dashes(s)[i]),
    decreases s.len(),
{
    if s.len() > 0 && s[0] == '-' {
        assert forall|i: int| 0 <= i < s.drop_first().len() implies p(#[trigger] s.drop_first()[i]) by {
            assert(s.drop_first()[i] == s[i + 1]);
        }
        lemma_trim_dashes_keeps(s.drop_first(), p);
        assert(trim_dashes(s) == trim_dashes(s.drop_first()));
    } else if s.len() > 0 && s.last() == '-' {
        assert forall|i: int| 0 <= i < s.drop_last().len() implies p(#[trigger] s.drop_last()[i]) by {
            assert(s.drop_last()[i] == s[i]);
        }
        lemma_trim_dashes_keeps(s.drop_last(), p);
        assert(trim_dashes(s) == trim_dashes(s.drop_last()));
    }
}

/// Every character of an identity built from the hash and from `base`
/// satisfies `p` when every character of `base` does and `p` holds of the
/// lower-case hexadecimal digits, `-`, `s`, `u` and `b`.
proof fn lemma_identity_chars(name: Seq<char>, p: spec_fn(char) -> bool)
    requires
        forall|i: int| 0 <= i < ident_base(name).len() ==> p(#[trigger] ident_base(name)[i]),
        forall|d: nat| d < 16 ==> p(#[trigger] hex_digit(d)),
        p('-'),
        p('s'),
        p('u'),
        p('b'),
    ensures
        forall|i: int| 0 <= i < identity_spec(name).len() ==> p(#[trigger] identity_spec(name)[i]),
{
    let n = (name_hash(name) % 16777216) as nat;
    let h = hex6(n);
    assert forall|i: int| 0 <= i < h.len() implies p(#[trigger] h[i]) by {
        assert(h[i] == hex_digit((n / 1048576) % 16) || h[i] == hex_digit((n / 65536) % 16)
            || h[i] == hex_digit((n / 4096) % 16) || h[i] == hex_digit((n / 256) % 16)
            || h[i] == hex_digit((n / 16) % 16) || h[i] == hex_digit(n % 16));
        assert(p(hex_digit((n / 1048576) % 16)));
        assert(p(hex_digit((n / 65536) % 16)));
        assert(p(hex_digit((n / 4096) % 16)));
        assert(p(hex_digit((n / 256) % 16)));
        assert(p(hex_digit((n / 16) % 16)));
        assert(p(hex_digit(n % 16)));
    }
    let base = ident_base(name);
    if base.len() == 0 {
        let t = "sub-"@ + h;
        assert forall|i: int| 0 <= i < t.len() implies p(#[trigger] t[i]) by {
            reveal_strlit("sub-");
            if i >= 4 {
                assert(t[i] == h[i - 4]);
            }
        }
    } else {
        let t = base + seq!['-'] + h;
        assert forall|i: int| 0 <= i < t.len() implies p(#[trigger] t[i]) by {
            if i < base.len() {
                assert(t[i] == base[i]);
            } else if i > base.len() {
                assert(t[i] == h[i - base.len() - 1]);
            }
        }
    }
}

/// A session identity is made of ASCII letters, digits and `-` only; and
/// since `str::to_lowercase` leaves no ASCII capital (see
/// [`crate::text::to_lowercase`]), of lower-case ASCII letters, digits and
/// `-` only, as the bridge protocol asks of session key segments.
pub proof fn law_identity_charset(name: Seq<char>)
    ensures
        forall|i: int|
            0 <= i < identity_spec(name).len() ==> identity_char(#[trigger] identity_spec(name)[i]),
        no_ascii_upper(lowercase(name)) ==> forall|i: int|
            0 <= i < identity_spec(name).len() ==> lower_identity_char(#[trigger] identity_spec(name)[i]),
{
    let mapped = lowercase(name).map_values(|c: char| ident_char(c));
    assert forall|i: int| 0 <= i < mapped.len() implies identity_char(#[trigger] mapped[i]) by {}
    let p1 = |c: char| identity_char(c);
    lemma_trim_dashes_keeps(mapped, p1);
    assert forall|d: nat| d < 16 implies p1(#[trigger] hex_digit(d)) by {}
    lemma_identity_chars(name, p1);
    if no_ascii_upper(lowercase(name)) {
        let p2 = |c: char| lower_identity_char(c);
        assert forall|i: int| 0 <= i < mapped.len() implies p2(#[trigger] mapped[i]) by {
            assert(!('A' <= lowercase(name)[i] && lowercase(name)[i] <= 'Z'));
        }
        lemma_trim_dashes_keeps(mapped, p2);
        assert forall|d: nat| d < 16 implies p2(#[trigger] hex_digit(d)) by {}
        lemma_identity_chars(name, p2);
    }
}

// ── agents, sessions and projects ───────────────────────────────

/// An agent's session and the project its messages are routed to.
pub struct SessionBinding {
    pub session_key: String,
    pub project: Option<String>,
}

/// The agents that run: the enabled ones, in order.
pub fn enabled_agents(agents: &[Agent]) -> (r: Vec<Agent>)
    ensures
        r@ == agents@.filter(|a: Agent| a.enabled),
{
    let mut r: Vec<Agent> = Vec::new();
    let mut i: usize = 0;
    while i < agents.len()
        invariant
            i <= agents@.len(),
            r@ == agents@.take(i as int).filter(|a: Agent| a.enabled),
        decreases agents@.len() - i,
    {
        proof {
            assert(agents@.take(i + 1) == agents@.take(i as int).push(agents@[i as int]));
            agents@.take(i as int).lemma_filter_push(agents@[i as int], |a: Agent| a.enabled);
        }
        if agents[i].enabled {
            r.push(agents[i].duplicate());
        }
        i = i + 1;
    }
    assert(agents@.take(agents@.len() as int) == agents@);
    r
}

/// The binding of an agent: its session key and project.
pub open spec fn binding_matches(b: SessionBinding, a: Agent) -> bool {
    &&& b.session_key@ == session_key_spec(a.name@)
    &&& opt_view(b.project) == project_spec(a.project@)
}

/// The session binding of each agent, in order.
pub fn session_bindings(agents: &[Agent]) -> (r: Vec<SessionBinding>)
    ensures
        r@.len() == agents@.len(),
        forall|i: int| 0 <= i < agents@.len() ==> binding_matches(#[trigger] r@[i], agents@[i]),
{
    let mut r: Vec<SessionBinding> = Vec::new();
    let mut i: usize = 0;
    while i < agents.len()
        invariant
            i <= agents@.len(),
            r@.len() == i,
            forall|k: int| 0 <= k < i ==> binding_matches(#[trigger] r@[k], agents@[k]),
        decreases agents@.len() - i,
    {
        let b = SessionBinding {
            session_key: session_key_for(agents[i].name.as_str()),
            project: project_of(&agents[i]),
        };
        r.push(b);
        i = i + 1;
    }
    r
}

/// The project of the last binding of session `key` (a map built from the
/// bindings in order keeps the last one), `None` when there is none.
pub open spec fn project_of_session(b: Seq<SessionBinding>, key: Seq<char>) -> Option<Seq<char>>
    decreases b.len(),
{
    if b.len() == 0 {
        None
    } else if b.last().session_key@ == key {
        opt_view(b.last().project)
    } else {
        project_of_session(b.drop_last(), key)
    }
}

fn clone_opt(o: &Option<String>) -> (r: Option<String>)
    ensures
        opt_view(r) == opt_view(*o),
{
    match o {
        Some(s) => Some(s.clone()),
        None => None,
    }
}

/// The project that messages of session `key` are routed to.
pub fn project_for_session(bindings: &[SessionBinding], key: &str) -> (r: Option<String>)
    ensures
        opt_view(r) == project_of_session(bindings@, key@),
{
    let k = chars_of(key);
    let mut i: usize = bindings.len();
    assert(bindings@.take(i as int) == bindings@);
    while i > 0
        invariant
            i <= bindings@.len(),
            k@ == key@,
            project_of_session(bindings@.take(i as int), key@) == project_of_session(bindings@, key@),
        decreases i,
    {
        let ghost t = bindings@.take(i as int);
        assert(t.drop_last() == bindings@.take(i - 1));
        assert(t.last() == bindings@[i - 1]);
        i = i - 1;
        let sk = chars_of(bindings[i].session_key.as_str());
        if crate::text::chars_eq(sk.as_slice(), k.as_slice()) {
            return clone_opt(&bindings[i].project);
        }
    }
    None
}

/// The project of the last agent named `name`, `None` when there is none.
pub open spec fn project_of_name(agents: Seq<Agent>, name: Seq<char>) -> Option<Seq<char>>
    decreases agents.len(),
{
    if agents.len() == 0 {
        None
    } else if agents.last().name@ == name {
        project_spec(agents.last().project@)
    } else {
        project_of_name(agents.drop_last(), name)
    }
}

/// The project that a manual message to agent `name` is routed to.
pub fn project_for_name(agents: &[Agent], name: &str) -> (r: Option<String>)
    ensures
        opt_view(r) == project_of_name(agents@, name@),
{
    let k = chars_of(name);
    let mut i: usize = agents.len();
    assert(agents@.take(i as int) == agents@);
    while i > 0
        invariant
            i <= agents@.len(),
            k@ == name@,
            project_of_name(agents@.take(i as int), name@) == project_of_name(agents@, name@),
        decreases i,
    {
        let ghost t = agents@.take(i as int);
        assert(t.drop_last() == agents@.take(i - 1));
        assert(t.last() == agents@[i - 1]);
        i = i - 1;
        let an = chars_of(agents[i].name.as_str());
        if crate::text::chars_eq(an.as_slice(), k.as_slice()) {
            return project_of(&agents[i]);
        }
    }
    None
}

// ── control commands ────────────────────────────────────────────

/// A command of the desktop application to the background service.
pub enum CtrlCmd {
    /// Clear the context of a session (sends `/new` to the bridge).
    ClearSession { session_key: String },
    /// Send any card action to a session (such as `cmd:/model switch k2`).
    CardAction { session_key: String, action: String },
    /// Push text to an agent's session as if a user wrote it.
    Message { sub_name: String, content: String },
}

/// A request to the bridge client.
pub enum BridgeRequest {
    /// A card action on a session, routed to a project.
    CardAction { session_key: String, project: Option<String>, action: String },
    /// A message on a session, whose final reply is awaited.
    Ask {
        session_key: String,
        project: Option<String>,
        user_id: String,
        user_name: String,
        content: String,
    },
}

/// What the service does for a control command: an optional log line, then a
/// request to the bridge.
pub struct CtrlPlan {
    pub log: Option<LogLine>,
    pub request: BridgeRequest,
}

fn text(s: &str) -> (r: String)
    ensures
        r@ == s@,
{
    string_of(chars_of(s).as_slice())
}

/// The plan for a control command, given the bindings and the enabled agents.
pub fn plan_ctrl(cmd: CtrlCmd, bindings: &[SessionBinding], agents: &[Agent]) -> (r: CtrlPlan)
    ensures
        match cmd {
            CtrlCmd::ClearSession { session_key } => {
                &&& r.log matches Some(l) && line_is(l, LogKind::System, "系统"@, session_key@, "🧹 请求清除会话上下文（/new）"@, Seq::empty())
                &&& r.request matches BridgeRequest::CardAction { session_key: k, project, action }
                    && k@ == session_key@ && opt_view(project) == project_of_session(bindings@, session_key@)
                    && action@ == new_session_action()
            },
            CtrlCmd::CardAction { session_key, action } => {
                &&& r.log is None
                &&& r.request matches BridgeRequest::CardAction { session_key: k, project, action: a }
                    && k@ == session_key@ && opt_view(project) == project_of_session(bindings@, session_key@)
                    && a@ == action@
            },
            CtrlCmd::Message { sub_name, content } => {
                &&& r.log matches Some(l) && line_is(l, LogKind::System, sub_name@, session_key_spec(sub_name@), "📤 已推送手动消息，等待执行结果..."@, content@)
                &&& r.request matches BridgeRequest::Ask { session_key: k, project, user_id, user_name, content: c }
                    && k@ == session_key_spec(sub_name@) && opt_view(project) == project_of_name(agents@, sub_name@)
                    && user_id@ == identity_spec(sub_name@) && user_name@ == sub_name@ && c@ == content@
            },
        },
{
    match cmd {
        CtrlCmd::ClearSession { session_key } => {
            let project = project_for_session(bindings, session_key.as_str());
            let log = log_line(LogKind::System, "系统", session_key.as_str(), "🧹 请求清除会话上下文（/new）", "");
            proof {
                reveal_strlit("");
                assert(""@ =~= Seq::<char>::empty());
            }
            CtrlPlan {
                log: Some(log),
                request: BridgeRequest::CardAction { session_key, project, action: text("cmd:/new") },
            }
        },
        CtrlCmd::CardAction { session_key, action } => {
            let project = project_for_session(bindings, session_key.as_str());
            CtrlPlan { log: None, request: BridgeRequest::CardAction { session_key, project, action } }
        },
        CtrlCmd::Message { sub_name, content } => {
            let project = project_for_name(agents, sub_name.as_str());
            let uid = session_identity(sub_name.as_str());
            let key = session_key_for(sub_name.as_str());
            let log = log_line(LogKind::System, sub_name.as_str(), key.as_str(), "📤 已推送手动消息，等待执行结果...", content.as_str());
            CtrlPlan {
                log: Some(log),
                request: BridgeRequest::Ask { session_key: key, project, user_id: uid, user_name: sub_name, content },
            }
        },
    }
}

// ── the service and its agents ──────────────────────────────────

/// What the service starts with: warnings to log, the agents that run, their
/// session bindings, and the bridge token (trimmed).
pub struct ServicePlan {
    pub warnings: Vec<LogLine>,
    pub agents: Vec<Agent>,
    pub bindings: Vec<SessionBinding>,
    pub token: String,
}

/// The warning for a blank bridge token.
pub open spec fn no_token_text() -> Seq<char> {
    "⚠️ 未配置 Bridge Token，cc-connect 可能拒绝连接（HTTP 401）"@
}

/// The warning when no agent is enabled.
pub open spec fn no_agent_text() -> Seq<char> {
    "⚠️ 没有启用的订阅，仅维持与 cc-connect 的连接"@
}

/// The start of the service: a warning when the token is blank and one when
/// no agent is enabled (in that order); the enabled agents, their bindings,
/// and the trimmed token.
pub fn plan_service(config: &AppConfig) -> (r: ServicePlan)
    ensures
        r.token@ == trim(config.bridge_token@),
        r.agents@ == config.agents@.filter(|a: Agent| a.enabled),
        r.bindings@.len() == r.agents@.len(),
        forall|i: int| 0 <= i < r.agents@.len() ==> binding_matches(#[trigger] r.bindings@[i], r.agents@[i]),
        ({
            let w0 = trim(config.bridge_token@).len() == 0;
            let w1 = r.agents@.len() == 0;
            &&& r.warnings@.len() == (if w0 { 1int } else { 0 }) + (if w1 { 1int } else { 0 })
            &&& w0 ==> line_is(r.warnings@[0], LogKind::System, "系统"@, Seq::empty(), no_token_text(), Seq::empty())
            &&& w1 ==> line_is(r.warnings@.last(), LogKind::System, "系统"@, Seq::empty(), no_agent_text(), Seq::empty())
        }),
{
    proof {
        reveal_strlit("");
        assert(""@ =~= Seq::<char>::empty());
    }
    let token = string_of(trim_chars(chars_of(config.bridge_token.as_str()).as_slice()).as_slice());
    let agents = enabled_agents(config.agents.as_slice());
    let bindings = session_bindings(agents.as_slice());
    let mut warnings: Vec<LogLine> = Vec::new();
    if token.as_str().is_empty() {
        warnings.push(log_line(LogKind::System, "系统", "", "⚠️ 未配置 Bridge Token，cc-connect 可能拒绝连接（HTTP 401）", ""));
    }
    if agents.len() == 0 {
        warnings.push(log_line(LogKind::System, "系统", "", "⚠️ 没有启用的订阅，仅维持与 cc-connect 的连接", ""));
    }
    ServicePlan { warnings, agents, bindings, token }
}

/// What an agent's event loop works with: its session key and identity, its
/// project, and its filter setting read into a pattern and a plugin name.
pub struct AgentSession {
    pub name: String,
    pub session_key: String,
    pub user_id: String,
    pub project: Option<String>,
    pub filter_regex: Option<String>,
    pub wasm_policy: Option<String>,
}

/// The session an agent's event loop works with.
pub fn agent_session(agent: &Agent) -> (r: AgentSession)
    ensures
        r.name@ == agent.name@,
        r.session_key@ == session_key_spec(agent.name@),
        r.user_id@ == identity_spec(agent.name@),
        opt_view(r.project) == project_spec(agent.project@),
        (opt_view(r.filter_regex), opt_view(r.wasm_policy)) == filter_spec(opt_view(agent.filter_regex)),
{
    let raw: Option<&str> = match &agent.filter_regex {
        Some(f) => Some(f.as_str()),
        None => None,
    };
    let (filter_regex, wasm_policy) = parse_filter(raw);
    AgentSession {
        name: agent.name.clone(),
        session_key: session_key_for(agent.name.as_str()),
        user_id: session_identity(agent.name.as_str()),
        project: project_of(agent),
        filter_regex,
        wasm_policy,
    }
}

fn joined(a: &str, b: &str) -> (r: String)
    ensures
        r@ == a@ + b@,
{
    let mut v = chars_of(a);
    push_str(&mut v, b);
    string_of(v.as_slice())
}

/// The line logged when an agent subscribes to its webhook channel.
pub fn subscribed_line(agent: &Agent) -> (r: LogLine)
    ensures
        line_is(r, LogKind::System, agent.name@, Seq::empty(), "📡 已订阅 "@ + agent.webhook_url@, Seq::empty()),
{
    proof {
        reveal_strlit("");
        assert(""@ =~= Seq::<char>::empty());
    }
    let t = joined("📡 已订阅 ", agent.webhook_url.as_str());
    log_line(LogKind::System, agent.name.as_str(), "", t.as_str(), "")
}

/// The line logged for an arriving event: the event as indented JSON, its
/// fields in declaration order.
pub fn webhook_line(s: &AgentSession, event: &SmeeEvent) -> (r: LogLine)
    ensures
        line_is(r, LogKind::Webhook, s.name@, s.session_key@, "收到 Webhook 事件"@, event_pretty(*event)),
{
    let detail = render_event_pretty(event);
    log_line(LogKind::Webhook, s.name.as_str(), s.session_key.as_str(), "收到 Webhook 事件", detail.as_str())
}

/// An error line of an agent, without a session: `prefix` and the error.
pub fn agent_error_line(s: &AgentSession, prefix: &str, error: &str) -> (r: LogLine)
    ensures
        line_is(r, LogKind::Error, s.name@, Seq::empty(), prefix@ + error@, Seq::empty()),
{
    proof {
        reveal_strlit("");
        assert(""@ =~= Seq::<char>::empty());
    }
    let t = joined(prefix, error);
    log_line(LogKind::Error, s.name.as_str(), "", t.as_str(), "")
}

/// The line logged when the filters refuse an event.
pub fn filtered_line(s: &AgentSession) -> (r: LogLine)
    ensures
        line_is(r, LogKind::System, s.name@, Seq::empty(), "🚫 事件已被过滤，跳过"@, Seq::empty()),
{
    proof {
        reveal_strlit("");
        assert(""@ =~= Seq::<char>::empty());
    }
    log_line(LogKind::System, s.name.as_str(), "", "🚫 事件已被过滤，跳过", "")
}

/// The card actions sent before each prompt, asking the bridge for the
/// session's working directory and current session.
pub fn probe_actions() -> (r: Vec<String>)
    ensures
        r@.len() == 2,
        r@[0]@ == "cmd:/dir"@,
        r@[1]@ == "cmd:/current"@,
{
    let mut v: Vec<String> = Vec::new();
    v.push(text("cmd:/dir"));
    v.push(text("cmd:/current"));
    v
}

/// The line logged when a prompt is submitted: the prompt as detail.
pub fn submitted_line(s: &AgentSession, prompt: &str) -> (r: LogLine)
    ensures
        line_is(r, LogKind::System, s.name@, s.session_key@, "🤖 已提交 cc-connect，等待执行结果..."@, prompt@),
{
    log_line(LogKind::System, s.name.as_str(), s.session_key.as_str(), "🤖 已提交 cc-connect，等待执行结果...", prompt)
}

/// The summary of an outcome after `secs` seconds: `<label>完成（<secs>s）`,
/// or `<label>失败（<secs>s）: <error>`.
pub open spec fn outcome_summary(label: Seq<char>, secs: i64, outcome: Result<Seq<char>, Seq<char>>) -> Seq<char> {
    match outcome {
        Ok(_) => label + "完成（"@ + signed_decimal(secs as int) + "s）"@,
        Err(e) => label + "失败（"@ + signed_decimal(secs as int) + "s）: "@ + e,
    }
}

/// The view of a result of two strings.
pub open spec fn result_view(r: Result<String, String>) -> Result<Seq<char>, Seq<char>> {
    match r {
        Ok(s) => Ok(s@),
        Err(e) => Err(e@),
    }
}

/// The line logged for the outcome of a request that took `secs` seconds:
/// a result line with the output, or an error line. `label` is 执行 for an
/// event and 手动消息执行 for a manual message.
pub fn outcome_line(source: &str, session_key: &str, label: &str, secs: i64, outcome: &Result<String, String>) -> (r: LogLine)
    ensures
        match outcome {
            Ok(out) => line_is(r, LogKind::Result, source@, session_key@, outcome_summary(label@, secs, result_view(*outcome)), out@),
            Err(_) => line_is(r, LogKind::Error, source@, session_key@, outcome_summary(label@, secs, result_view(*outcome)), Seq::empty()),
        },
{
    proof {
        reveal_strlit("");
        assert(""@ =~= Seq::<char>::empty());
    }
    let mut v = chars_of(label);
    match outcome {
        Ok(out) => {
            push_str(&mut v, "完成（");
            push_signed_decimal(&mut v, secs);
            push_str(&mut v, "s）");
            let t = string_of(v.as_slice());
            log_line(LogKind::Result, source, session_key, t.as_str(), out.as_str())
        },
        Err(e) => {
            push_str(&mut v, "失败（");
            push_signed_decimal(&mut v, secs);
            push_str(&mut v, "s）: ");
            push_str(&mut v, e.as_str());
            let t = string_of(v.as_slice());
            log_line(LogKind::Error, source, session_key, t.as_str(), "")
        },
    }
}

/// The prompt of an agent with base prompt `base` for an event.
pub open spec fn event_prompt(base: Seq<char>, e: SmeeEvent) -> Seq<char> {
    prompt_text(base, headers_text(e), query_text(e), body_text(e), time_text(e))
}

/// What an agent's event loop does with an event once the filters have run.
pub enum EventPlan {
    /// Log this line and go on to the next event.
    Skip(LogLine),
    /// Send these card actions, log the line, then ask the bridge with the
    /// prompt.
    Submit { actions: Vec<String>, line: LogLine, prompt: String },
}

/// The plan for an event after filtering: a filter error is logged and the
/// event skipped; a refused event is logged as filtered and skipped; an
/// allowed event has the session probed (working directory, then current
/// session) and its prompt submitted.
pub fn plan_event(agent: &Agent, s: &AgentSession, filtered: Result<FilterResult, String>) -> (r: EventPlan)
    ensures
        match filtered {
            Err(e) => r matches EventPlan::Skip(l) && line_is(
                l,
                LogKind::Error,
                s.name@,
                Seq::empty(),
                "过滤器错误: "@ + e@,
                Seq::empty(),
            ),
            Ok(fr) => if !fr.allow {
                r matches EventPlan::Skip(l) && line_is(
                    l,
                    LogKind::System,
                    s.name@,
                    Seq::empty(),
                    "🚫 事件已被过滤，跳过"@,
                    Seq::empty(),
                )
            } else {
                r matches EventPlan::Submit { actions, line, prompt } && {
                    &&& actions@.len() == 2
                    &&& actions@[0]@ == "cmd:/dir"@
                    &&& actions@[1]@ == "cmd:/current"@
                    &&& prompt@ == event_prompt(agent.base_prompt@, fr.event)
                    &&& line_is(line, LogKind::System, s.name@, s.session_key@, "🤖 已提交 cc-connect，等待执行结果..."@, prompt@)
                }
            },
        },
{
    match filtered {
        Err(e) => EventPlan::Skip(agent_error_line(s, "过滤器错误: ", e.as_str())),
        Ok(fr) => {
            if !fr.allow {
                EventPlan::Skip(filtered_line(s))
            } else {
                let actions = probe_actions();
                let prompt = build_prompt(agent.base_prompt.as_str(), &fr.event);
                let line = submitted_line(s, prompt.as_str());
                EventPlan::Submit { actions, line, prompt }
            }
        },
    }
}

/// What an agent's event loop logs and reports once the bridge answered a
/// prompt submitted at `started_at` and answered at `finished_at`
/// (nanoseconds): the outcome line (labelled 执行, with the whole seconds
/// taken) and the execution result, successful with the answer as output,
/// or failed with the error and no output.
pub fn finish_event(
    agent: &Agent,
    s: &AgentSession,
    prompt: String,
    started_at: i64,
    finished_at: i64,
    outcome: Result<String, String>,
) -> (r: (LogLine, ExecutionResult))
    ensures
        ({
            let secs = div_toward_zero(finished_at - started_at, 1_000_000_000) as i64;
            match outcome {
                Ok(out) => line_is(r.0, LogKind::Result, s.name@, s.session_key@, outcome_summary("执行"@, secs, result_view(outcome)), out@),
                Err(_) => line_is(r.0, LogKind::Error, s.name@, s.session_key@, outcome_summary("执行"@, secs, result_view(outcome)), Seq::empty()),
            }
        }),
        r.1.subscription_name@ == agent.name@,
        r.1.success == outcome is Ok,
        r.1.output@ == (match outcome {
            Ok(out) => out@,
            Err(_) => Seq::<char>::empty(),
        }),
        opt_view(r.1.error) == (match outcome {
            Ok(_) => None,
            Err(e) => Some(e@),
        }),
        r.1.started_at == started_at,
        r.1.finished_at == finished_at,
        r.1.prompt@ == prompt@,
{
    let secs = crate::exec::elapsed_secs(started_at, finished_at);
    let line = outcome_line(s.name.as_str(), s.session_key.as_str(), "执行", secs, &outcome);
    let (success, output, error) = match outcome {
        Ok(content) => (true, content, None),
        Err(e) => (false, String::new(), Some(e)),
    };
    let result = ExecutionResult {
        subscription_name: agent.name.clone(),
        success,
        output,
        error,
        started_at,
        finished_at,
        prompt,
    };
    (line, result)
}

/// The line logged when the service stops.
pub fn stopped_line() -> (r: LogLine)
    ensures
        line_is(r, LogKind::System, "系统"@, Seq::empty(), "🛑 服务已停止"@, Seq::empty()),
{
    proof {
        reveal_strlit("");
        assert(""@ =~= Seq::<char>::empty());
    }
    log_line(LogKind::System, "系统", "", "🛑 服务已停止", "")
}

} // verus!
