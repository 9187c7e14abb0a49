//! Decisions of the bridge client: which request a reply answers, what is
//! done with each incoming message, how registration and reconnection go.
//!
//! The client keeps one connection. Each message it sends carries a fresh
//! reply context; the final `reply` with that context answers the request.
//! When the connection ends, every request still waiting gets an error
//! (replies cannot be routed across connections). After a failure the client
//! reconnects after 1 s, doubling the wait up to 60 s.
use vstd::prelude::*;
use crate::bridge::{
    button_allows, data_allows, first_allow, flatten, pick_allow_action, text_allows, truncate, truncated,
    BridgeButton, Inbound, Outbound,
};
use crate::protocol::rows_view;
use crate::event_log::{line_is, log_line, LogKind, LogLine};
use crate::conn::ConnState;
use crate::service::opt_view;
use crate::protocol::{inbound_decode, inbound_view, parse_inbound, InboundV};
use crate::json::json_parse;
use crate::text::{chars_of, push_str, string_of, push_decimal, decimal};

verus! {

// ── requests waiting for a reply ────────────────────────────────

/// The map that a list of (reply context, ticket) entries stands for.
pub open spec fn entries_map(s: Seq<(String, u64)>) -> Map<Seq<char>, u64>
    decreases s.len(),
{
    if s.len() == 0 {
        Map::empty()
    } else {
        entries_map(s.drop_last()).insert(s.last().0@, s.last().1)
    }
}

/// No reply context occurs twice.
pub open spec fn unique_keys(s: Seq<(String, u64)>) -> bool {
    forall|i: int, j: int| 0 <= i < j < s.len() ==> s[i].0@ != s[j].0@
}

proof fn lemma_entries_dom(s: Seq<(String, u64)>, k: Seq<char>)
    ensures
        entries_map(s).dom().contains(k) <==> exists|i: int| 0 <= i < s.len() && s[i].0@ == k,
        entries_map(s).dom().finite(),
    decreases s.len(),
{
    if s.len() > 0 {
        lemma_entries_dom(s.drop_last(), k);
        if entries_map(s.drop_last()).dom().contains(k) {
            let i = choose|i: int| 0 <= i < s.drop_last().len() && s.drop_last()[i].0@ == k;
            assert(s[i].0@ == k);
        }
        if exists|i: int| 0 <= i < s.len() && s[i].0@ == k {
            let i = choose|i: int| 0 <= i < s.len() && s[i].0@ == k;
            if i < s.len() - 1 {
                assert(s.drop_last()[i].0@ == k);
            }
        }
    }
}

proof fn lemma_entries_value(s: Seq<(String, u64)>, i: int)
    requires
        unique_keys(s),
        0 <= i < s.len(),
    ensures
        entries_map(s).dom().contains(s[i].0@),
        entries_map(s)[s[i].0@] == s[i].1,
    decreases s.len(),
{
    if i < s.len() - 1 {
        assert(s.drop_last()[i] == s[i]);
        lemma_entries_value(s.drop_last(), i);
        assert(s.last().0@ != s[i].0@);
    }
}

proof fn lemma_entries_len(s: Seq<(String, u64)>)
    requires
        unique_keys(s),
    ensures
        entries_map(s).dom().len() == s.len(),
    decreases s.len(),
{
    if s.len() > 0 {
        lemma_entries_len(s.drop_last());
        lemma_entries_dom(s.drop_last(), s.last().0@);
        if entries_map(s.drop_last()).dom().contains(s.last().0@) {
            let i = choose|i: int| 0 <= i < s.drop_last().len() && s.drop_last()[i].0@ == s.last().0@;
            assert(s[i].0@ == s[s.len() - 1].0@);
        }
    }
}

proof fn lemma_entries_remove(s: Seq<(String, u64)>, i: int)
    requires
        unique_keys(s),
        0 <= i < s.len(),
    ensures
        entries_map(s.remove(i)) == entries_map(s).remove(s[i].0@),
    decreases s.len(),
{
    let k = s[i].0@;
    if i == s.len() - 1 {
        assert(s.remove(i) =~= s.drop_last());
        lemma_entries_dom(s.drop_last(), k);
        assert(!entries_map(s.drop_last()).dom().contains(k));
        assert(entries_map(s.drop_last()) =~= entries_map(s).remove(k));
    } else {
        let t = s.drop_last();
        assert(t.remove(i) =~= s.remove(i).drop_last());
        assert(s.remove(i).last() == s.last());
        lemma_entries_remove(t, i);
        assert(s.last().0@ != k);
        assert(entries_map(s.remove(i)) =~= entries_map(s).remove(k));
    }
}

/// `v` is the value of some key of `m`.
pub open spec fn is_value_of(m: Map<Seq<char>, u64>, v: u64) -> bool {
    exists|k: Seq<char>| m.dom().contains(k) && m[k] == v
}

/// The requests waiting for their reply: reply context to ticket. The host
/// keeps what answers a ticket (a channel to the waiting task).
pub struct PendingReplies {
    entries: Vec<(String, u64)>,
}

impl View for PendingReplies {
    type V = Map<Seq<char>, u64>;

    closed spec fn view(&self) -> Map<Seq<char>, u64> {
        entries_map(self.entries@)
    }
}

impl PendingReplies {
    #[verifier::type_invariant]
    closed spec fn well_formed(self) -> bool {
        unique_keys(self.entries@)
    }

    /// No request waits.
    pub fn new() -> (r: Self)
        ensures
            r@ == Map::<Seq<char>, u64>::empty(),
    {
        PendingReplies { entries: Vec::new() }
    }

    /// The number of waiting requests.
    pub fn len(&self) -> (r: usize)
        ensures
            r == self@.dom().len(),
            self@.dom().finite(),
    {
        proof {
            use_type_invariant(self);
            lemma_entries_len(self.entries@);
            lemma_entries_dom(self.entries@, Seq::empty());
        }
        self.entries.len()
    }

    fn find(&self, ctx: &str) -> (r: Option<usize>)
        ensures
            match r {
                Some(i) => i < self.entries@.len() && self.entries@[i as int].0@ == ctx@,
                None => forall|i: int| 0 <= i < self.entries@.len() ==> self.entries@[i].0@ != ctx@,
            },
    {
        let k = chars_of(ctx);
        let mut i: usize = 0;
        while i < self.entries.len()
            invariant
                i <= self.entries@.len(),
                k@ == ctx@,
                forall|j: int| 0 <= j < i ==> self.entries@[j].0@ != ctx@,
            decreases self.entries@.len() - i,
        {
            if crate::text::chars_eq(chars_of(self.entries[i].0.as_str()).as_slice(), k.as_slice()) {
                return Some(i);
            }
            i = i + 1;
        }
        None
    }

    /// Takes the request that waits for `ctx`, if any: its ticket, and the
    /// request no longer waits.
    pub fn take(&mut self, ctx: &str) -> (r: Option<u64>)
        ensures
            r == (if old(self)@.dom().contains(ctx@) {
                Some(old(self)@[ctx@])
            } else {
                None::<u64>
            }),
            final(self)@ == old(self)@.remove(ctx@),
    {
        proof {
            use_type_invariant(&*self);
            lemma_entries_dom(self.entries@, ctx@);
        }
        match self.find(ctx) {
            Some(i) => {
                proof {
                    lemma_entries_value(self.entries@, i as int);
                    lemma_entries_remove(self.entries@, i as int);
                }
                let mut es: Vec<(String, u64)> = Vec::new();
                std::mem::swap(&mut es, &mut self.entries);
                let ghost before = es@;
                let e = es.remove(i);
                proof {
                    assert(es@ == before.remove(i as int));
                    assert forall|a: int, b: int| 0 <= a < b < es@.len() implies es@[a].0@ != es@[b].0@ by {
                        let a2 = if a < i { a } else { a + 1 };
                        let b2 = if b < i { b } else { b + 1 };
                        assert(es@[a] == before[a2]);
                        assert(es@[b] == before[b2]);
                    }
                }
                self.entries = es;
                Some(e.1)
            },
            None => {
                assert(self@ =~= self@.remove(ctx@));
                None
            },
        }
    }

    /// Makes the request with ticket `ticket` wait for `ctx` (replacing any
    /// request that waited for the same context).
    pub fn insert(&mut self, ctx: String, ticket: u64)
        ensures
            final(self)@ == old(self)@.insert(ctx@, ticket),
    {
        proof {
            use_type_invariant(&*self);
        }
        let _ = self.take(ctx.as_str());
        proof {
            use_type_invariant(&*self);
            lemma_entries_dom(self.entries@, ctx@);
        }
        let mut es: Vec<(String, u64)> = Vec::new();
        std::mem::swap(&mut es, &mut self.entries);
        let ghost before = es@;
        let ghost k = ctx@;
        es.push((ctx, ticket));
        proof {
            assert(es@.drop_last() == before);
            assert forall|i: int, j: int| 0 <= i < j < es@.len() implies es@[i].0@ != es@[j].0@ by {
                if j == es@.len() - 1 {
                    if es@[i].0@ == es@[j].0@ {
                        assert(before[i].0@ == k);
                    }
                }
            }
        }
        self.entries = es;
        proof {
            assert(self@ =~= old(self)@.insert(k, ticket));
        }
    }

    /// Ends every wait: the tickets of all waiting requests, each once.
    pub fn drain(&mut self) -> (r: Vec<u64>)
        ensures
            final(self)@ == Map::<Seq<char>, u64>::empty(),
            r@.len() == old(self)@.dom().len(),
            forall|k: Seq<char>| #[trigger] old(self)@.dom().contains(k) ==> r@.contains(old(self)@[k]),
            forall|i: int| 0 <= i < r@.len() ==> is_value_of(old(self)@, #[trigger] r@[i]),
    {
        proof {
            use_type_invariant(&*self);
            lemma_entries_len(self.entries@);
        }
        let ghost s = self.entries@;
        let mut r: Vec<u64> = Vec::new();
        let mut i: usize = 0;
        while i < self.entries.len()
            invariant
                self.entries@ == s,
                unique_keys(s),
                i <= s.len(),
                r@.len() == i,
                forall|j: int| 0 <= j < i ==> #[trigger] r@[j] == s[j].1,
            decreases s.len() - i,
        {
            r.push(self.entries[i].1);
            i = i + 1;
        }
        proof {
            assert forall|k: Seq<char>| #[trigger] entries_map(s).dom().contains(k) implies r@.contains(entries_map(s)[k]) by {
                lemma_entries_dom(s, k);
                let j = choose|j: int| 0 <= j < s.len() && s[j].0@ == k;
                lemma_entries_value(s, j);
                assert(r@[j] == entries_map(s)[k]);
            }
            assert(old(self)@ == entries_map(s));
            assert forall|j: int| 0 <= j < r@.len() implies is_value_of(old(self)@, #[trigger] r@[j]) by {
                lemma_entries_value(s, j);
                assert(old(self)@.dom().contains(s[j].0@) && old(self)@[s[j].0@] == r@[j]);
            }
        }
        self.entries = Vec::new();
        assert(self@ =~= Map::<Seq<char>, u64>::empty());
        r
    }
}

/// A reply reaches the request that waits for its context exactly once:
/// once a request with ticket `t` waits for `ctx`, taking `ctx` gives `t`,
/// taking it again gives nothing, and every other waiting request stays.
pub proof fn law_reply_taken_once(m: Map<Seq<char>, u64>, ctx: Seq<char>, t: u64, other: Seq<char>)
    requires
        other != ctx,
    ensures
        m.insert(ctx, t).dom().contains(ctx),
        m.insert(ctx, t)[ctx] == t,
        !m.insert(ctx, t).remove(ctx).dom().contains(ctx),
        m.dom().contains(other) <==> m.insert(ctx, t).remove(ctx).dom().contains(other),
        m.dom().contains(other) ==> m.insert(ctx, t).remove(ctx)[other] == m[other],
{
}

// ── incoming messages ───────────────────────────────────────────

/// A button given as (text, data) asks to allow.
pub open spec fn pair_allows(p: (Seq<char>, Seq<char>)) -> bool {
    data_allows(p.1) || text_allows(p.0)
}

/// The callback data of the first button, row by row, that asks to allow.
pub open spec fn first_allow_rows(rows: Seq<Seq<(Seq<char>, Seq<char>)>>) -> Option<Seq<char>>
    decreases rows.len(),
{
    if rows.len() == 0 {
        None
    } else {
        match first_allow_row(rows[0]) {
            Some(d) => Some(d),
            None => first_allow_rows(rows.drop_first()),
        }
    }
}

/// The callback data of the first button of a row that asks to allow.
pub open spec fn first_allow_row(row: Seq<(Seq<char>, Seq<char>)>) -> Option<Seq<char>>
    decreases row.len(),
{
    if row.len() == 0 {
        None
    } else if pair_allows(row[0]) {
        Some(row[0].1)
    } else {
        first_allow_row(row.drop_first())
    }
}

proof fn lemma_first_allow_row(row: Seq<BridgeButton>, rest: Seq<BridgeButton>)
    ensures
        first_allow(row + rest) == match first_allow_row(row.map_values(|b: BridgeButton| (b.text@, b.data@))) {
            Some(d) => Some(d),
            None => first_allow(rest),
        },
    decreases row.len(),
{
    let v = row.map_values(|b: BridgeButton| (b.text@, b.data@));
    if row.len() > 0 {
        assert((row + rest)[0] == row[0]);
        assert((row + rest).drop_first() == row.drop_first() + rest);
        assert(v.drop_first() =~= row.drop_first().map_values(|b: BridgeButton| (b.text@, b.data@)));
        lemma_first_allow_row(row.drop_first(), rest);
    } else {
        assert(row + rest =~= rest);
    }
}

proof fn lemma_first_allow_rows(rows: Seq<Vec<BridgeButton>>)
    ensures
        first_allow(flatten(rows)) == first_allow_rows(rows_view(rows)),
    decreases rows.len(),
{
    if rows.len() > 0 {
        lemma_first_allow_rows(rows.drop_first());
        lemma_first_allow_row(rows[0]@, flatten(rows.drop_first()));
        assert(rows_view(rows).drop_first() =~= rows_view(rows.drop_first()));
    }
}

/// What the client does with an incoming message.
pub enum InboundAction {
    /// Nothing.
    Ignore,
    /// Record a log line.
    Log(LogLine),
    /// Answer the request with this ticket with the reply's content.
    Deliver { ticket: u64, content: String },
    /// Record a log line and send a card action that presses the allow button.
    AutoAllow { log: LogLine, reply: Outbound },
}

/// The incoming message that a text reads as, if any.
pub open spec fn inbound_of_text(text: Seq<char>) -> Option<InboundV> {
    match json_parse(text) {
        Some(j) => inbound_decode(j),
        None => None,
    }
}

/// Dispatches an incoming message text.
///
/// * Unreadable text: an error line with the text (at most 2000 characters).
/// * A reply: answers the request waiting for its reply context (which stops
///   waiting); a reply nobody waits for (a push) is logged with its content.
/// * Buttons: presses the first allow button with a card action on the same
///   session and reply context; without one, the message is logged and ignored.
/// * An error: an error line `[code] message`.
/// * Anything else: nothing.
pub fn handle_inbound(text: &str, pending: &mut PendingReplies) -> (r: InboundAction)
    ensures
        match inbound_of_text(text@) {
            None => {
                &&& r matches InboundAction::Log(l) && line_is(l, LogKind::Error, "cc-connect"@, Seq::empty(), "收到无法解析的消息"@, truncated(text@, 2000))
                &&& final(pending)@ == old(pending)@
            },
            Some(InboundV::Reply { reply_ctx, content, .. }) => if old(pending)@.dom().contains(reply_ctx) {
                &&& r matches InboundAction::Deliver { ticket, content: c } && ticket == old(pending)@[reply_ctx] && c@ == content
                &&& final(pending)@ == old(pending)@.remove(reply_ctx)
            } else {
                &&& r matches InboundAction::Log(l) && line_is(l, LogKind::System, "cc-connect"@, Seq::empty(), "📩 "@ + truncated(content, 120), content)
                &&& final(pending)@ == old(pending)@
            },
            Some(InboundV::Buttons { session_key, reply_ctx, content, buttons }) => {
                &&& final(pending)@ == old(pending)@
                &&& match first_allow_rows(buttons) {
                    Some(action) => r matches InboundAction::AutoAllow { log, reply: Outbound::CardAction { session_key: k, action: a, reply_ctx: c, project } }
                        && line_is(log, LogKind::System, "系统"@, Seq::empty(), "🔓 自动允许权限请求: "@ + truncated(content, 120), Seq::empty())
                        && k@ == session_key && a@ == action && c@ == reply_ctx && project is None,
                    None => r matches InboundAction::Log(l)
                        && line_is(l, LogKind::System, "系统"@, Seq::empty(), "⚠️ 收到无法自动处理的按钮消息，已忽略: "@ + truncated(content, 120), Seq::empty()),
                }
            },
            Some(InboundV::Error { code, message }) => {
                &&& r matches InboundAction::Log(l) && line_is(l, LogKind::Error, "cc-connect"@, Seq::empty(), seq!['['] + code + "] "@ + message, Seq::empty())
                &&& final(pending)@ == old(pending)@
            },
            Some(_) => r is Ignore && final(pending)@ == old(pending)@,
        },
{
    proof {
        reveal_strlit("");
        assert(""@ =~= Seq::<char>::empty());
    }
    let m = match parse_inbound(text) {
        Some(m) => m,
        None => {
            let t = truncate(text, 2000);
            return InboundAction::Log(log_line(LogKind::Error, "cc-connect", "", "收到无法解析的消息", t.as_str()));
        },
    };
    match m {
        Inbound::Reply { reply_ctx, content, .. } => {
            match pending.take(reply_ctx.as_str()) {
                Some(ticket) => InboundAction::Deliver { ticket, content },
                None => {
                    assert(old(pending)@ =~= old(pending)@.remove(reply_ctx@));
                    let mut summary: Vec<char> = Vec::new();
                    push_str(&mut summary, "📩 ");
                    push_str(&mut summary, truncate(content.as_str(), 120).as_str());
                    let summary = string_of(summary.as_slice());
                    InboundAction::Log(log_line(LogKind::System, "cc-connect", "", summary.as_str(), content.as_str()))
                },
            }
        },
        Inbound::Buttons { session_key, reply_ctx, content, buttons } => {
            proof {
                lemma_first_allow_rows(buttons@);
            }
            let short = truncate(content.as_str(), 120);
            match pick_allow_action(buttons.as_slice()) {
                Some(action) => {
                    let mut summary: Vec<char> = Vec::new();
                    push_str(&mut summary, "🔓 自动允许权限请求: ");
                    push_str(&mut summary, short.as_str());
                    let summary = string_of(summary.as_slice());
                    InboundAction::AutoAllow {
                        log: log_line(LogKind::System, "系统", "", summary.as_str(), ""),
                        reply: Outbound::CardAction { session_key, action, reply_ctx, project: None },
                    }
                },
                None => {
                    let mut summary: Vec<char> = Vec::new();
                    push_str(&mut summary, "⚠️ 收到无法自动处理的按钮消息，已忽略: ");
                    push_str(&mut summary, short.as_str());
                    let summary = string_of(summary.as_slice());
                    InboundAction::Log(log_line(LogKind::System, "系统", "", summary.as_str(), ""))
                },
            }
        },
        Inbound::Error { code, message } => {
            let mut summary: Vec<char> = Vec::new();
            summary.push('[');
            push_str(&mut summary, code.as_str());
            push_str(&mut summary, "] ");
            push_str(&mut summary, message.as_str());
            proof {
                assert(summary@ =~= seq!['['] + code@ + "] "@ + message@);
            }
            let summary = string_of(summary.as_slice());
            InboundAction::Log(log_line(LogKind::Error, "cc-connect", "", summary.as_str(), ""))
        },
        _ => InboundAction::Ignore,
    }
}

// ── registration ────────────────────────────────────────────────

/// What a message received while registering means.
pub enum RegisterReply {
    /// The bridge accepted the registration.
    Accepted,
    /// The bridge refused it, with this error.
    Rejected(String),
    /// Not the answer to the registration: keep waiting.
    Ignore,
}

/// Reads a message received while waiting for the registration answer.
pub fn register_reply(text: &str) -> (r: RegisterReply)
    ensures
        match inbound_of_text(text@) {
            Some(InboundV::RegisterAck { ok, error }) => if ok {
                r is Accepted
            } else {
                r matches RegisterReply::Rejected(e) && e@ == error
            },
            _ => r is Ignore,
        },
{
    match parse_inbound(text) {
        Some(Inbound::RegisterAck { ok, error }) => if ok {
            RegisterReply::Accepted
        } else {
            RegisterReply::Rejected(error)
        },
        _ => RegisterReply::Ignore,
    }
}

// ── reconnection ────────────────────────────────────────────────

/// The longest wait before reconnecting, in seconds.
pub open spec fn max_backoff() -> u64 {
    60
}

/// The wait after `b` seconds: twice as long, at most 60 seconds.
pub open spec fn next_backoff_spec(b: u64) -> u64 {
    if b * 2 < 60 {
        (b * 2) as u64
    } else {
        60
    }
}

/// The wait before the next attempt after waiting `b` seconds.
pub fn next_backoff(b: u64) -> (r: u64)
    requires
        b <= u64::MAX / 2,
    ensures
        r == next_backoff_spec(b),
{
    let d = b * 2;
    if d < 60 {
        d
    } else {
        60
    }
}

/// Waits stay between 1 and 60 seconds, and once at 60 stay there.
pub proof fn law_backoff_bounded(b: u64)
    requires
        1 <= b <= 60,
    ensures
        1 <= next_backoff_spec(b) <= 60,
        b <= next_backoff_spec(b),
        b == 60 ==> next_backoff_spec(b) == 60,
{
}


// ── the connection actor ────────────────────────────────────────

/// What happened to the connection since the last step.
pub enum ActorInput {
    /// Connected and registered.
    Connected,
    /// The connection was served until it ended: `None` when the client was
    /// asked to stop, the error otherwise.
    ServeEnded(Option<String>),
    /// Connecting or registering failed with this error.
    ConnectFailed(String),
}

/// What the actor does next.
pub enum ActorNext {
    /// Serve the connection.
    Serve,
    /// Stop for good.
    Stop,
    /// Wait this many seconds, then connect again.
    Retry(u64),
}

/// One step of the actor: the connection state to show, the lines to log,
/// and what comes next.
pub struct ActorStep {
    pub status: ConnState,
    pub logs: Vec<LogLine>,
    pub next: ActorNext,
}

/// The connection actor's state: the wait before the next attempt.
pub struct Actor {
    backoff: u64,
}

/// The line logged for a wait of `b` seconds.
pub open spec fn retry_text(b: u64) -> Seq<char> {
    "⏳ "@ + decimal(b as nat) + " 秒后重连..."@
}

/// The line logged once registered as `platform`.
pub open spec fn registered_text(platform: Seq<char>) -> Seq<char> {
    "✅ 已注册到 cc-connect（platform: "@ + platform + ", 权限模式: bypassPermissions）"@
}

fn retry_line(b: u64) -> (r: LogLine)
    ensures
        line_is(r, LogKind::System, "系统"@, Seq::empty(), retry_text(b), Seq::empty()),
{
    let mut t: Vec<char> = Vec::new();
    push_str(&mut t, "⏳ ");
    push_decimal(&mut t, b);
    push_str(&mut t, " 秒后重连...");
    let t = string_of(t.as_slice());
    proof {
        reveal_strlit("");
        assert(""@ =~= Seq::<char>::empty());
    }
    log_line(LogKind::System, "系统", "", t.as_str(), "")
}

fn error_line(prefix: &str, e: &str) -> (r: LogLine)
    ensures
        line_is(r, LogKind::Error, "cc-connect"@, Seq::empty(), prefix@ + e@, Seq::empty()),
{
    let mut t: Vec<char> = Vec::new();
    push_str(&mut t, prefix);
    push_str(&mut t, e);
    let t = string_of(t.as_slice());
    proof {
        reveal_strlit("");
        assert(""@ =~= Seq::<char>::empty());
    }
    log_line(LogKind::Error, "cc-connect", "", t.as_str(), "")
}

/// The state shown after a step on `input`.
pub open spec fn step_status(input: ActorInput) -> ConnState {
    match input {
        ActorInput::Connected => ConnState::Connected,
        _ => ConnState::Disconnected,
    }
}

/// What comes after a step on `input` when the current wait is `w`.
pub open spec fn step_next(w: u64, input: ActorInput) -> ActorNext {
    match input {
        ActorInput::Connected => ActorNext::Serve,
        ActorInput::ServeEnded(None) => ActorNext::Stop,
        _ => ActorNext::Retry(w),
    }
}

/// The wait after a step on `input` when the current wait is `w`.
pub open spec fn step_wait(w: u64, input: ActorInput) -> u64 {
    match input {
        ActorInput::Connected => 1,
        ActorInput::ServeEnded(None) => w,
        _ => next_backoff_spec(w),
    }
}

/// The wait after the actor took each of `inputs` in turn, starting at `w`.
pub open spec fn wait_after(w: u64, inputs: Seq<ActorInput>) -> u64
    decreases inputs.len(),
{
    if inputs.len() == 0 {
        w
    } else {
        step_wait(wait_after(w, inputs.drop_last()), inputs.last())
    }
}

/// Whether `input` is a failed attempt: connecting or registering failed, or
/// the connection ended with an error.
pub open spec fn is_failure(input: ActorInput) -> bool {
    match input {
        ActorInput::ConnectFailed(_) => true,
        ActorInput::ServeEnded(Some(_)) => true,
        _ => false,
    }
}

/// `2^k` seconds, at most 60.
pub open spec fn capped_doubling(k: nat) -> nat {
    if vstd::arithmetic::power2::pow2(k) < 60 {
        vstd::arithmetic::power2::pow2(k)
    } else {
        60
    }
}

proof fn lemma_waits_double(h: Seq<ActorInput>, f: Seq<ActorInput>, k: nat)
    requires
        h.len() == 0 || h.last() is Connected,
        k <= f.len(),
        forall|j: int| 0 <= j < f.len() ==> is_failure(#[trigger] f[j]),
    ensures
        wait_after(1, h + f.take(k as int)) == capped_doubling(k),
    decreases k,
{
    vstd::arithmetic::power2::lemma2_to64();
    if k == 0 {
        assert(h + f.take(0) =~= h);
        if h.len() > 0 {
            assert(wait_after(1, h) == step_wait(wait_after(1, h.drop_last()), h.last()));
        }
    } else {
        let km: nat = (k - 1) as nat;
        lemma_waits_double(h, f, km);
        let s = h + f.take(k as int);
        assert(s.drop_last() =~= h + f.take(km as int));
        assert(s.last() == f[km as int]);
        assert(is_failure(f[km as int]));
        vstd::arithmetic::power2::lemma_pow2_unfold(k);
        assert(vstd::arithmetic::power2::pow2(k) == 2 * vstd::arithmetic::power2::pow2(km));
        assert(wait_after(1, s) == next_backoff_spec(wait_after(1, h + f.take(km as int))));
    }
}

/// Reconnection backs off exponentially: after a fresh start or a successful
/// registration (`history` empty or ending in `Connected`), the `k`-th failed
/// attempt in a row (counting from 0) waits `min(2^k, 60)` seconds before the
/// next one: 1, 2, 4, 8, 16, 32, 60, 60, ...
pub proof fn law_backoff_sequence(history: Seq<ActorInput>, failures: Seq<ActorInput>, k: int)
    requires
        history.len() == 0 || history.last() is Connected,
        0 <= k < failures.len(),
        forall|j: int| 0 <= j < failures.len() ==> is_failure(#[trigger] failures[j]),
    ensures
        step_next(wait_after(1, history + failures.take(k)), failures[k]) == ActorNext::Retry(
            capped_doubling(k as nat) as u64,
        ),
        1 <= capped_doubling(k as nat) <= 60,
{
    lemma_waits_double(history, failures, k as nat);
    vstd::arithmetic::power2::lemma2_to64();
    assert(is_failure(failures[k]));
    if k > 0 {
        vstd::arithmetic::power2::lemma_pow2_pos(k as nat);
    }
}

/// Across any run of the actor, the state it shows is `Connected` exactly
/// after a registration and `Disconnected` after every failed attempt and
/// every ended connection (each attempt itself shows `Connecting`, see
/// [`Actor::attempt`]); it stops only when asked to, and otherwise either
/// serves the connection after registering or waits and retries.
pub proof fn law_status_order(w: u64, inputs: Seq<ActorInput>, k: int)
    requires
        0 <= k < inputs.len(),
    ensures
        (step_status(inputs[k]) == ConnState::Connected) <==> (inputs[k] is Connected),
        (step_status(inputs[k]) == ConnState::Disconnected) <==> !(inputs[k] is Connected),
        (step_next(wait_after(w, inputs.take(k)), inputs[k]) is Stop) <==> (inputs[k] == ActorInput::ServeEnded(None)),
        (step_next(wait_after(w, inputs.take(k)), inputs[k]) is Serve) <==> (inputs[k] is Connected),
        is_failure(inputs[k]) ==> step_next(wait_after(w, inputs.take(k)), inputs[k]) is Retry,
{
}

/// How one connection attempt of the actor's loop ends: connecting or
/// registering failed, or the client registered and served the connection
/// until it ended (`None`: the client was asked to stop).
pub enum AttemptOutcome {
    Refused(String),
    Served(Option<String>),
}

/// The steps the loop gives the actor for an attempt.
pub open spec fn attempt_inputs(o: AttemptOutcome) -> Seq<ActorInput> {
    match o {
        AttemptOutcome::Refused(e) => seq![ActorInput::ConnectFailed(e)],
        AttemptOutcome::Served(x) => seq![ActorInput::Connected, ActorInput::ServeEnded(x)],
    }
}

/// The states the loop shows for an attempt, in order: `Connecting` before
/// it (from [`Actor::attempt`]), then the state of each step.
pub open spec fn attempt_statuses(o: AttemptOutcome) -> Seq<ConnState> {
    match o {
        AttemptOutcome::Refused(e) => seq![ConnState::Connecting, step_status(ActorInput::ConnectFailed(e))],
        AttemptOutcome::Served(x) => seq![
            ConnState::Connecting,
            step_status(ActorInput::Connected),
            step_status(ActorInput::ServeEnded(x)),
        ],
    }
}

/// The states the loop shows over attempts that end as `os`, in order.
pub open spec fn run_statuses(os: Seq<AttemptOutcome>) -> Seq<ConnState>
    decreases os.len(),
{
    if os.len() == 0 {
        Seq::empty()
    } else {
        run_statuses(os.drop_last()) + attempt_statuses(os.last())
    }
}

/// Whether the actor stops after an attempt: exactly when its last step says so.
pub open spec fn attempt_stops(w: u64, o: AttemptOutcome) -> bool {
    step_next(w, attempt_inputs(o).last()) is Stop
}

/// Whether the state at position `j` of `t` is `c`.
pub open spec fn shown(t: Seq<ConnState>, j: int, c: ConnState) -> bool {
    0 <= j < t.len() && t[j] == c
}

/// `Connected` is shown only right after `Connecting` and is followed by
/// `Disconnected`.
pub open spec fn connected_in_order(t: Seq<ConnState>) -> bool {
    forall|j: int|
        #[trigger] shown(t, j, ConnState::Connected) ==> 0 < j && t[j - 1] == ConnState::Connecting && j + 1
            < t.len() && t[j + 1] == ConnState::Disconnected
}

/// Every `Connecting` is followed by another state.
pub open spec fn connecting_followed(t: Seq<ConnState>) -> bool {
    forall|j: int|
        #[trigger] shown(t, j, ConnState::Connecting) ==> j + 1 < t.len() && t[j + 1] != ConnState::Connecting
}

proof fn lemma_trace_concat(t0: Seq<ConnState>, a: Seq<ConnState>)
    requires
        connected_in_order(t0),
        connecting_followed(t0),
        connected_in_order(a),
        connecting_followed(a),
        t0.len() == 0 || t0.last() == ConnState::Disconnected,
        a.len() > 0,
        a[0] == ConnState::Connecting,
    ensures
        connected_in_order(t0 + a),
        connecting_followed(t0 + a),
{
    let t = t0 + a;
    let n = t0.len() as int;
    assert forall|j: int| #[trigger] shown(t, j, ConnState::Connected) implies 0 < j && t[j - 1]
        == ConnState::Connecting && j + 1 < t.len() && t[j + 1] == ConnState::Disconnected by {
        if j < n {
            assert(t[j] == t0[j]);
            assert(shown(t0, j, ConnState::Connected));
            assert(t[j - 1] == t0[j - 1]);
            assert(t[j + 1] == t0[j + 1]);
        } else {
            assert(t[j] == a[j - n]);
            assert(shown(a, j - n, ConnState::Connected));
            assert(t[j - 1] == a[j - 1 - n]);
            assert(t[j + 1] == a[j + 1 - n]);
        }
    }
    assert forall|j: int| #[trigger] shown(t, j, ConnState::Connecting) implies j + 1 < t.len() && t[j + 1]
        != ConnState::Connecting by {
        if j < n {
            assert(t[j] == t0[j]);
            if j + 1 == n {
                assert(t0[j] == t0.last());
            } else {
                assert(shown(t0, j, ConnState::Connecting));
                assert(t[j + 1] == t0[j + 1]);
            }
        } else {
            assert(t[j] == a[j - n]);
            assert(shown(a, j - n, ConnState::Connecting));
            assert(t[j + 1] == a[j + 1 - n]);
        }
    }
}

proof fn lemma_run_statuses(os: Seq<AttemptOutcome>)
    ensures
        os.len() > 0 ==> run_statuses(os).len() > 0 && run_statuses(os)[0] == ConnState::Connecting
            && run_statuses(os).last() == ConnState::Disconnected,
        connected_in_order(run_statuses(os)),
        connecting_followed(run_statuses(os)),
    decreases os.len(),
{
    if os.len() > 0 {
        let d = os.drop_last();
        lemma_run_statuses(d);
        let t0 = run_statuses(d);
        let a = attempt_statuses(os.last());
        assert(a.len() > 0 && a[0] == ConnState::Connecting && a.last() == ConnState::Disconnected);
        assert(connected_in_order(a)) by {
            assert forall|j: int| #[trigger] shown(a, j, ConnState::Connected) implies 0 < j && a[j - 1]
                == ConnState::Connecting && j + 1 < a.len() && a[j + 1] == ConnState::Disconnected by {}
        }
        assert(connecting_followed(a)) by {
            assert forall|j: int| #[trigger] shown(a, j, ConnState::Connecting) implies j + 1 < a.len() && a[j + 1]
                != ConnState::Connecting by {}
        }
        lemma_trace_concat(t0, a);
        let t = t0 + a;
        if t0.len() > 0 {
            assert(t[0] == t0[0]);
        }
        assert(t.last() == a.last());
    }
}

/// The order in which the actor's loop shows the connection state, over any
/// run: the first state shown is `Connecting` (an attempt starts);
/// `Connected` is shown only right after `Connecting`, that is right after
/// an attempt registered, and is followed by `Disconnected` when the
/// connection ends; every attempt is followed by `Connected` or
/// `Disconnected`, so each failed attempt shows `Disconnected`; and the run
/// ends showing `Disconnected`. The loop stops after an attempt exactly when
/// the client registered and was asked to stop while serving; every other
/// attempt is followed by a wait and a new attempt.
pub proof fn law_run_status_trace(os: Seq<AttemptOutcome>, w: u64)
    ensures
        os.len() > 0 ==> run_statuses(os)[0] == ConnState::Connecting && run_statuses(os).last()
            == ConnState::Disconnected,
        connected_in_order(run_statuses(os)),
        connecting_followed(run_statuses(os)),
        forall|k: int|
            0 <= k < os.len() ==> (attempt_stops(w, #[trigger] os[k]) <==> os[k] == AttemptOutcome::Served(None)),
        forall|k: int|
            0 <= k < os.len() && !attempt_stops(w, #[trigger] os[k]) ==> step_next(w, attempt_inputs(os[k]).last()) is Retry,
{
    lemma_run_statuses(os);
    assert forall|k: int| 0 <= k < os.len() implies (attempt_stops(w, #[trigger] os[k]) <==> os[k]
        == AttemptOutcome::Served(None)) by {
        match os[k] {
            AttemptOutcome::Refused(e) => {},
            AttemptOutcome::Served(x) => {},
        }
    }
    assert forall|k: int| 0 <= k < os.len() && !attempt_stops(w, #[trigger] os[k]) implies step_next(
        w,
        attempt_inputs(os[k]).last(),
    ) is Retry by {
        match os[k] {
            AttemptOutcome::Refused(e) => {},
            AttemptOutcome::Served(x) => {},
        }
    }
}

impl Actor {
    #[verifier::type_invariant]
    closed spec fn well_formed(self) -> bool {
        1 <= self.backoff <= 60
    }

    /// The wait, in seconds, before the next attempt after a failure.
    pub closed spec fn wait(self) -> u64 {
        self.backoff
    }

    /// A new actor: the first wait is 1 second.
    pub fn new() -> (r: Self)
        ensures
            r.wait() == 1,
    {
        Actor { backoff: 1 }
    }

    /// The wait before the next attempt, always between 1 and 60 seconds.
    pub fn wait_secs(&self) -> (r: u64)
        ensures
            r == self.wait(),
            1 <= r <= 60,
    {
        proof {
            use_type_invariant(self);
        }
        self.backoff
    }

    /// The state and line before an attempt to connect to `ws_url`.
    pub fn attempt(&self, ws_url: &str) -> (r: (ConnState, LogLine))
        ensures
            r.0 == ConnState::Connecting,
            line_is(r.1, LogKind::System, "系统"@, Seq::empty(), "🔌 正在连接 cc-connect: "@ + ws_url@, Seq::empty()),
    {
        let mut t: Vec<char> = Vec::new();
        push_str(&mut t, "🔌 正在连接 cc-connect: ");
        push_str(&mut t, ws_url);
        let t = string_of(t.as_slice());
        proof {
            reveal_strlit("");
            assert(""@ =~= Seq::<char>::empty());
        }
        (ConnState::Connecting, log_line(LogKind::System, "系统", "", t.as_str(), ""))
    }

    /// One step of the actor for `platform`. Registering resets the wait to
    /// 1 second; each failure waits the current time and then doubles it, up
    /// to 60 seconds; a requested stop ends the actor.
    pub fn step(&mut self, platform: &str, input: ActorInput) -> (r: ActorStep)
        ensures
            r.status == step_status(input),
            r.next == step_next(old(self).wait(), input),
            final(self).wait() == step_wait(old(self).wait(), input),
            match input {
                ActorInput::Connected => {
                    &&& r.status == ConnState::Connected
                    &&& r.next is Serve
                    &&& final(self).wait() == 1
                    &&& r.logs@.len() == 1
                    &&& line_is(r.logs@[0], LogKind::System, "系统"@, Seq::empty(), registered_text(platform@), Seq::empty())
                },
                ActorInput::ServeEnded(None) => {
                    &&& r.status == ConnState::Disconnected
                    &&& r.next is Stop
                    &&& final(self).wait() == old(self).wait()
                    &&& r.logs@.len() == 1
                    &&& line_is(r.logs@[0], LogKind::System, "系统"@, Seq::empty(), "🔌 Bridge 客户端已停止"@, Seq::empty())
                },
                ActorInput::ServeEnded(Some(e)) => {
                    &&& r.status == ConnState::Disconnected
                    &&& r.next == ActorNext::Retry(old(self).wait())
                    &&& final(self).wait() == next_backoff_spec(old(self).wait())
                    &&& r.logs@.len() == 2
                    &&& line_is(r.logs@[0], LogKind::Error, "cc-connect"@, Seq::empty(), "连接中断: "@ + e@, Seq::empty())
                    &&& line_is(r.logs@[1], LogKind::System, "系统"@, Seq::empty(), retry_text(old(self).wait()), Seq::empty())
                },
                ActorInput::ConnectFailed(e) => {
                    &&& r.status == ConnState::Disconnected
                    &&& r.next == ActorNext::Retry(old(self).wait())
                    &&& final(self).wait() == next_backoff_spec(old(self).wait())
                    &&& r.logs@.len() == 2
                    &&& line_is(r.logs@[0], LogKind::Error, "cc-connect"@, Seq::empty(), "连接失败: "@ + e@, Seq::empty())
                    &&& line_is(r.logs@[1], LogKind::System, "系统"@, Seq::empty(), retry_text(old(self).wait()), Seq::empty())
                },
            },
    {
        proof {
            use_type_invariant(&*self);
            reveal_strlit("");
            assert(""@ =~= Seq::<char>::empty());
        }
        let mut logs: Vec<LogLine> = Vec::new();
        match input {
            ActorInput::Connected => {
                self.backoff = 1;
                let mut t: Vec<char> = Vec::new();
                push_str(&mut t, "✅ 已注册到 cc-connect（platform: ");
                push_str(&mut t, platform);
                push_str(&mut t, ", 权限模式: bypassPermissions）");
                let t = string_of(t.as_slice());
                logs.push(log_line(LogKind::System, "系统", "", t.as_str(), ""));
                ActorStep { status: ConnState::Connected, logs, next: ActorNext::Serve }
            },
            ActorInput::ServeEnded(None) => {
                logs.push(log_line(LogKind::System, "系统", "", "🔌 Bridge 客户端已停止", ""));
                ActorStep { status: ConnState::Disconnected, logs, next: ActorNext::Stop }
            },
            ActorInput::ServeEnded(Some(e)) => {
                let b = self.backoff;
                logs.push(error_line("连接中断: ", e.as_str()));
                logs.push(retry_line(b));
                self.backoff = next_backoff(b);
                ActorStep { status: ConnState::Disconnected, logs, next: ActorNext::Retry(b) }
            },
            ActorInput::ConnectFailed(e) => {
                let b = self.backoff;
                logs.push(error_line("连接失败: ", e.as_str()));
                logs.push(retry_line(b));
                self.backoff = next_backoff(b);
                ActorStep { status: ConnState::Disconnected, logs, next: ActorNext::Retry(b) }
            },
        }
    }
}

// ── the connection address ──────────────────────────────────────

/// The serialization of `s` as a URL, if it parses (`url::Url::parse`).
pub uninterp spec fn url_parsed(s: Seq<char>) -> Option<Seq<char>>;

/// The serialization of URL `s` with the query pair `name=value` appended
/// (`url::form_urlencoded` encoding), if `s` parses.
pub uninterp spec fn url_with_pair(s: Seq<char>, name: Seq<char>, value: Seq<char>) -> Option<Seq<char>>;

/// `url::Url::parse`, serialized: named by [`url_parsed`].
#[verifier::external_body]
fn parse_url(s: &str) -> (r: Option<String>)
    ensures
        opt_view(r) == url_parsed(s@),
{
    url::Url::parse(s).ok().map(|u| u.as_str().to_string())
}

/// `url::Url::parse`, then `query_pairs_mut().append_pair(name, value)`,
/// serialized: named by [`url_with_pair`]. Appending a pair to a parsed URL
/// cannot fail, so there is a result exactly when `s` parses (as for
/// [`url_parsed`]).
#[verifier::external_body]
fn append_query_pair(s: &str, name: &str, value: &str) -> (r: Option<String>)
    ensures
        opt_view(r) == url_with_pair(s@, name@, value@),
        r is Some <==> url_parsed(s@) is Some,
{
    url::Url::parse(s).ok().map(|mut u| {
        u.query_pairs_mut().append_pair(name, value);
        u.as_str().to_string()
    })
}

/// The address the client connects to: the endpoint with `token=<token>`
/// appended when a token is set; an error naming the endpoint when it is not
/// a URL.
pub open spec fn connect_url_spec(ws_url: Seq<char>, token: Seq<char>) -> Result<Seq<char>, Seq<char>> {
    let u = if token.len() == 0 {
        url_parsed(ws_url)
    } else {
        url_with_pair(ws_url, "token"@, token)
    };
    match u {
        Some(s) => Ok(s),
        None => Err("WS 地址无效: "@ + ws_url),
    }
}

/// The address the client connects to.
pub fn connect_url(ws_url: &str, token: &str) -> (r: Result<String, String>)
    ensures
        match connect_url_spec(ws_url@, token@) {
            Ok(s) => r matches Ok(u) && u@ == s,
            Err(e) => r matches Err(m) && m@ == e,
        },
        r is Ok <==> url_parsed(ws_url@) is Some,
{
    let u = if chars_of(token).len() == 0 {
        parse_url(ws_url)
    } else {
        append_query_pair(ws_url, "token", token)
    };
    match u {
        Some(s) => Ok(s),
        None => {
            let mut t: Vec<char> = Vec::new();
            push_str(&mut t, "WS 地址无效: ");
            push_str(&mut t, ws_url);
            Err(string_of(t.as_slice()))
        },
    }
}

// ── outgoing requests ───────────────────────────────────────────

/// A fresh random identifier (`uuid::Uuid::new_v4`, hyphenated). Nothing is
/// stated of it: it is random.
#[verifier::external_body]
fn new_id() -> String {
    uuid::Uuid::new_v4().to_string()
}

/// A message for a request, with fresh message id and reply context.
pub fn ask_message(session_key: String, project: Option<String>, user_id: String, user_name: String, content: String) -> (r: Outbound)
    ensures
        match r {
            Outbound::Message { session_key: k, user_id: u, user_name: n, content: c, project: p, msg_id: _, reply_ctx: _ } => {
                k == session_key && u == user_id && n == user_name && c == content && p == project
            },
            _ => false,
        },
{
    let reply_ctx = new_id();
    let msg_id = new_id();
    Outbound::Message { msg_id, session_key, user_id, user_name, content, reply_ctx, project }
}

/// A card action on a session, with a fresh reply context.
pub fn card_action_message(session_key: String, project: Option<String>, action: String) -> (r: Outbound)
    ensures
        match r {
            Outbound::CardAction { session_key: k, action: a, project: p, reply_ctx: _ } => {
                k == session_key && a == action && p == project
            },
            _ => false,
        },
{
    let reply_ctx = new_id();
    Outbound::CardAction { session_key, action, reply_ctx, project }
}

/// A heartbeat at `now_millis` (the time in milliseconds, as an unsigned number).
pub fn ping_message(now_millis: i64) -> (r: Outbound)
    ensures
        r matches Outbound::Ping { ts } && ts == now_millis as u64,
{
    #[verifier::truncate]
    let ts = now_millis as u64;
    Outbound::Ping { ts }
}

} // verus!
