//! Decisions of the desktop application: how typed commands become card
//! actions, which run log entries belong to an agent, how an agent's entries
//! are split into sessions, what the agent form reads and writes, and the
//! texts of the status bar.
use vstd::prelude::*;
use crate::config::Agent;
use crate::conn::ConnState;
use crate::event_log::{LogEntry, LogKind};
use crate::filter::{split_and_from, strings_view};
use crate::text::{char_is_space, chars_of, is_space, push_decimal, push_str, starts_with, string_of, trim, trim_chars};

verus! {

// ── commands ────────────────────────────────────────────────────

/// The card action for a typed command: the trimmed input when it already
/// starts with `cmd:`, `cmd:` in front when it starts with `/`, `cmd:/` in
/// front otherwise (`/model` and `model` both become `cmd:/model`).
pub open spec fn command_action_spec(input: Seq<char>) -> Seq<char> {
    let t = trim(input);
    if starts_with(t, "cmd:"@) {
        t
    } else if starts_with(t, "/"@) {
        "cmd:"@ + t
    } else {
        "cmd:/"@ + t
    }
}

/// The card action for a typed command (see [`command_action_spec`]).
pub fn command_action(input: &str) -> (r: String)
    ensures
        r@ == command_action_spec(input@),
{
    let t = trim_chars(chars_of(input).as_slice());
    if crate::text::starts_with_chars(t.as_slice(), chars_of("cmd:").as_slice()) {
        string_of(t.as_slice())
    } else if crate::text::starts_with_chars(t.as_slice(), chars_of("/").as_slice()) {
        let mut v = chars_of("cmd:");
        crate::text::push_all(&mut v, t.as_slice());
        string_of(v.as_slice())
    } else {
        let mut v = chars_of("cmd:/");
        crate::text::push_all(&mut v, t.as_slice());
        string_of(v.as_slice())
    }
}

// ── the run log ─────────────────────────────────────────────────

/// An entry belongs to an agent when it comes from the agent (by name) or
/// carries the agent's session key.
pub open spec fn belongs(e: LogEntry, name: Seq<char>, session_key: Seq<char>) -> bool {
    e.source@ == name || (e.session_key@.len() > 0 && e.session_key@ == session_key)
}

/// Whether an entry belongs to an agent (see [`belongs`]).
pub fn belongs_to_agent(entry: &LogEntry, name: &str, session_key: &str) -> (r: bool)
    ensures
        r == belongs(*entry, name@, session_key@),
{
    let src = chars_of(entry.source.as_str());
    let key = chars_of(entry.session_key.as_str());
    crate::text::chars_eq_str(src.as_slice(), name) || (key.len() > 0 && crate::text::chars_eq_str(
        key.as_slice(),
        session_key,
    ))
}

/// An entry that starts a new session: one whose summary starts with 🧹
/// (a request to clear the session's context).
pub open spec fn boundary(e: LogEntry) -> bool {
    starts_with(e.summary@, "🧹"@)
}

/// Whether an entry starts a new session.
pub fn is_session_boundary(entry: &LogEntry) -> (r: bool)
    ensures
        r == boundary(*entry),
{
    crate::text::starts_with_chars(chars_of(entry.summary.as_str()).as_slice(), chars_of("🧹").as_slice())
}

/// Which kinds of entries are shown (errors always are).
pub struct KindFilter {
    pub webhook: bool,
    pub result: bool,
    pub system: bool,
}

/// Whether entries of `kind` are shown.
pub open spec fn kind_shown(f: KindFilter, kind: LogKind) -> bool {
    match kind {
        LogKind::Webhook => f.webhook,
        LogKind::Result => f.result,
        LogKind::System => f.system,
        LogKind::Error => true,
    }
}

/// Whether an entry is shown on an agent's page: it belongs to the agent and
/// its kind is shown.
pub open spec fn shown_on_page(e: LogEntry, name: Seq<char>, key: Seq<char>, f: KindFilter) -> bool {
    belongs(e, name, key) && kind_shown(f, e.kind)
}

/// The positions of the entries shown on an agent's page, in order.
pub open spec fn shown_positions(logs: Seq<LogEntry>, name: Seq<char>, key: Seq<char>, f: KindFilter) -> Seq<int>
    decreases logs.len(),
{
    if logs.len() == 0 {
        Seq::empty()
    } else {
        let rest = shown_positions(logs.drop_last(), name, key, f);
        if shown_on_page(logs.last(), name, key, f) {
            rest.push(logs.len() - 1)
        } else {
            rest
        }
    }
}

/// What the kind boxes do: an entry of the agent is shown when its kind's
/// box is ticked — webhook entries with the webhook box, result entries
/// with the result box, system entries with the system box — and error
/// entries always.
pub open spec fn passes_kind_boxes(e: LogEntry, f: KindFilter) -> bool {
    &&& (e.kind == LogKind::Webhook ==> f.webhook)
    &&& (e.kind == LogKind::Result ==> f.result)
    &&& (e.kind == LogKind::System ==> f.system)
}

/// An agent's page shows, in log order, exactly the entries that belong to
/// the agent and pass the kind boxes: a position is listed exactly when its
/// entry belongs to the agent and its kind's box is ticked (errors always),
/// and positions are listed in increasing order.
pub proof fn law_visible_entries(logs: Seq<LogEntry>, name: Seq<char>, key: Seq<char>, f: KindFilter)
    ensures
        forall|k: int|
            #[trigger] shown_positions(logs, name, key, f).contains(k) <==> (0 <= k < logs.len() && belongs(
                logs[k],
                name,
                key,
            ) && passes_kind_boxes(logs[k], f)),
        forall|a: int, b: int|
            0 <= a < b < shown_positions(logs, name, key, f).len() ==> shown_positions(logs, name, key, f)[a]
                < shown_positions(logs, name, key, f)[b],
    decreases logs.len(),
{
    if logs.len() > 0 {
        let d = logs.drop_last();
        law_visible_entries(d, name, key, f);
        let rest = shown_positions(d, name, key, f);
        let n = logs.len() - 1;
        assert forall|k: int| 0 <= k < n implies #[trigger] logs[k] == d[k] by {}
        assert forall|k: int| #[trigger] rest.contains(k) implies k < n by {}
        let sp = shown_positions(logs, name, key, f);
        assert forall|k: int| #[trigger] sp.contains(k) <==> (0 <= k < logs.len() && belongs(logs[k], name, key)
            && passes_kind_boxes(logs[k], f)) by {
            if shown_on_page(logs.last(), name, key, f) {
                assert(sp == rest.push(n));
                if k == n {
                    assert(sp[rest.len() as int] == n);
                } else {
                    if sp.contains(k) {
                        let x = choose|x: int| 0 <= x < sp.len() && sp[x] == k;
                        assert(x < rest.len());
                        assert(rest.contains(k));
                    }
                    if rest.contains(k) {
                        let x = choose|x: int| 0 <= x < rest.len() && rest[x] == k;
                        assert(sp[x] == k);
                    }
                }
            } else {
                assert(sp == rest);
                if k == n {
                    assert(!rest.contains(n));
                }
            }
        }
        assert forall|a: int, b: int| 0 <= a < b < sp.len() implies sp[a] < sp[b] by {
            if shown_on_page(logs.last(), name, key, f) {
                if b == rest.len() {
                    assert(rest.contains(rest[a]));
                } else {
                    assert(sp[a] == rest[a] && sp[b] == rest[b]);
                }
            }
        }
    }
}

/// The positions of the entries shown on an agent's page.
pub fn visible_entries(logs: &[LogEntry], name: &str, session_key: &str, f: &KindFilter) -> (r: Vec<usize>)
    ensures
        r@.map_values(|i: usize| i as int) == shown_positions(logs@, name@, session_key@, *f),
{
    let mut r: Vec<usize> = Vec::new();
    let mut i: usize = 0;
    while i < logs.len()
        invariant
            i <= logs@.len(),
            r@.map_values(|k: usize| k as int) == shown_positions(logs@.take(i as int), name@, session_key@, *f),
        decreases logs@.len() - i,
    {
        proof {
            assert(logs@.take(i + 1).drop_last() == logs@.take(i as int));
            assert(logs@.take(i + 1).last() == logs@[i as int]);
        }
        let e = &logs[i];
        let shown = match e.kind {
            LogKind::Webhook => f.webhook,
            LogKind::Result => f.result,
            LogKind::System => f.system,
            LogKind::Error => true,
        };
        if belongs_to_agent(e, name, session_key) && shown {
            let ghost before = r@;
            r.push(i);
            assert(r@.map_values(|k: usize| k as int) =~= before.map_values(|k: usize| k as int).push(i as int));
        }
        i = i + 1;
    }
    assert(logs@.take(logs@.len() as int) == logs@);
    r
}

/// The sessions of a run of entries: a new group starts at the first entry
/// and at each boundary entry that follows a non-empty group.
pub open spec fn group_sessions_spec(bs: Seq<bool>) -> Seq<Seq<int>>
    decreases bs.len(),
{
    if bs.len() == 0 {
        Seq::empty()
    } else {
        let g = group_sessions_spec(bs.drop_last());
        let i = bs.len() - 1;
        if g.len() == 0 || (bs.last() && g.last().len() > 0) {
            g.push(seq![i])
        } else {
            g.update(g.len() - 1, g.last().push(i))
        }
    }
}

/// The concatenation of groups.
pub open spec fn concat(g: Seq<Seq<int>>) -> Seq<int>
    decreases g.len(),
{
    if g.len() == 0 {
        Seq::empty()
    } else {
        concat(g.drop_last()) + g.last()
    }
}

/// The whole numbers from 0 below `n`.
pub open spec fn upto(n: int) -> Seq<int> {
    Seq::new(n as nat, |i: int| i)
}

proof fn lemma_concat_update_last(g: Seq<Seq<int>>, x: int)
    requires
        g.len() > 0,
    ensures
        concat(g.update(g.len() - 1, g.last().push(x))) == concat(g).push(x),
{
    let h = g.update(g.len() - 1, g.last().push(x));
    assert(h.drop_last() =~= g.drop_last());
}

/// Splitting into sessions keeps every entry, in order: the groups put
/// together are the entries. No group is empty, and every group after the
/// first starts at a boundary entry.
pub proof fn law_sessions_partition(bs: Seq<bool>)
    ensures
        concat(group_sessions_spec(bs)) == upto(bs.len() as int),
        forall|k: int| 0 <= k < group_sessions_spec(bs).len() ==> #[trigger] group_sessions_spec(bs)[k].len() > 0,
        forall|k: int| 1 <= k < group_sessions_spec(bs).len() ==> bs[#[trigger] group_sessions_spec(bs)[k][0]],
    decreases bs.len(),
{
    if bs.len() > 0 {
        let p = bs.drop_last();
        law_sessions_partition(p);
        let g = group_sessions_spec(p);
        let i = bs.len() - 1;
        assert(upto(bs.len() as int) =~= upto(i).push(i));
        if g.len() == 0 || (bs.last() && g.last().len() > 0) {
            let h = g.push(seq![i]);
            assert(h.drop_last() == g);
            assert(concat(h) == concat(g) + seq![i]);
            assert(concat(g) + seq![i] =~= concat(g).push(i));
            assert forall|k: int| 1 <= k < h.len() implies bs[#[trigger] h[k][0]] by {
                if k < g.len() {
                    assert(h[k] == g[k]);
                    assert(bs[g[k][0]] == p[g[k][0]]) by {
                        assert(concat(g) == upto(i));
                        lemma_concat_member(g, k, 0);
                    }
                } else {
                    assert(h[k] == seq![i]);
                }
            }
        } else {
            lemma_concat_update_last(g, i);
            let h = g.update(g.len() - 1, g.last().push(i));
            assert forall|k: int| 1 <= k < h.len() implies bs[#[trigger] h[k][0]] by {
                assert(concat(g) == upto(i));
                if k < g.len() - 1 {
                    assert(h[k] == g[k]);
                } else {
                    assert(h[k][0] == g[k][0]);
                }
                lemma_concat_member(g, k, 0);
                assert(bs[g[k][0]] == p[g[k][0]]);
            }
        }
    }
}

/// An element of a group is an element of the concatenation.
proof fn lemma_concat_member(g: Seq<Seq<int>>, k: int, j: int)
    requires
        0 <= k < g.len(),
        0 <= j < g[k].len(),
    ensures
        concat(g).contains(g[k][j]),
    decreases g.len(),
{
    if k < g.len() - 1 {
        lemma_concat_member(g.drop_last(), k, j);
        let w = choose|w: int| 0 <= w < concat(g.drop_last()).len() && concat(g.drop_last())[w] == g[k][j];
        assert(concat(g)[w] == g[k][j]);
    } else {
        assert(concat(g)[concat(g.drop_last()).len() + j] == g[k][j]);
    }
}

/// The session groups of the shown entries, as positions in `visible`.
pub fn group_sessions(logs: &[LogEntry], visible: &[usize]) -> (r: Vec<Vec<usize>>)
    requires
        forall|i: int| 0 <= i < visible@.len() ==> (visible@[i] as int) < logs@.len(),
    ensures
        r@.map_values(|g: Vec<usize>| g@.map_values(|k: usize| k as int)) == group_sessions_spec(
            visible@.map_values(|i: usize| boundary(logs@[i as int])),
        ),
{
    let ghost bs = visible@.map_values(|i: usize| boundary(logs@[i as int]));
    let mut groups: Vec<Vec<usize>> = Vec::new();
    let mut i: usize = 0;
    assert(bs.take(0) =~= Seq::<bool>::empty());
    while i < visible.len()
        invariant
            i <= visible@.len(),
            bs == visible@.map_values(|i: usize| boundary(logs@[i as int])),
            forall|k: int| 0 <= k < visible@.len() ==> (visible@[k] as int) < logs@.len(),
            groups@.map_values(|g: Vec<usize>| g@.map_values(|k: usize| k as int)) == group_sessions_spec(bs.take(i as int)),
        decreases visible@.len() - i,
    {
        let ghost before = groups@.map_values(|g: Vec<usize>| g@.map_values(|k: usize| k as int));
        proof {
            assert(bs.take(i + 1).drop_last() == bs.take(i as int));
            assert(bs.take(i + 1).last() == bs[i as int]);
        }
        let b = is_session_boundary(&logs[visible[i]]);
        let n = groups.len();
        if n == 0 || (b && groups[n - 1].len() > 0) {
            let mut g: Vec<usize> = Vec::new();
            g.push(i);
            assert(g@.map_values(|k: usize| k as int) =~= seq![i as int]);
            let ghost gs = groups@;
            groups.push(g);
            proof {
                assert(groups@ == gs.push(g));
                assert(groups@.map_values(|g: Vec<usize>| g@.map_values(|k: usize| k as int)) =~= before.push(seq![i as int]));
            }
        } else {
            let mut last = groups.pop().unwrap();
            proof {
                assert(before.last() == last@.map_values(|k: usize| k as int));
            }
            last.push(i);
            groups.push(last);
            proof {
                assert(last@.map_values(|k: usize| k as int) =~= before.last().push(i as int));
                assert(groups@.map_values(|g: Vec<usize>| g@.map_values(|k: usize| k as int)) =~= before.update(
                    before.len() - 1,
                    before.last().push(i as int),
                ));
            }
        }
        i = i + 1;
    }
    assert(bs.take(visible@.len() as int) == bs);
    groups
}

/// The largest number of entries the log keeps.
pub open spec fn max_log_entries() -> nat {
    1000
}

/// Keeps only the last 1000 entries, dropping the oldest.
pub fn cap_log(logs: &mut Vec<LogEntry>)
    ensures
        old(logs)@.len() <= 1000 ==> final(logs)@ == old(logs)@,
        old(logs)@.len() > 1000 ==> final(logs)@ == old(logs)@.subrange(old(logs)@.len() - 1000, old(logs)@.len() as int),
{
    if logs.len() > 1000 {
        let overflow = logs.len() - 1000;
        let kept = logs.split_off(overflow);
        *logs = kept;
    }
}

/// The entries kept: those for which `keep` holds, in order.
pub open spec fn kept_entries(logs: Seq<LogEntry>, name: Seq<char>, key: Seq<char>) -> Seq<LogEntry> {
    logs.filter(|e: LogEntry| !belongs(e, name, key))
}

/// Clears an agent's entries from the log, keeping every other entry in order.
pub fn clear_agent_log(logs: &mut Vec<LogEntry>, name: &str, session_key: &str)
    ensures
        final(logs)@ == kept_entries(old(logs)@, name@, session_key@),
{
    let mut all: Vec<LogEntry> = Vec::new();
    std::mem::swap(&mut all, logs);
    let ghost s = all@;
    let ghost mut done: Seq<LogEntry> = Seq::empty();
    let mut kept: Vec<LogEntry> = Vec::new();
    assert(done + all@ =~= s);
    while all.len() > 0
        invariant
            s == done + all@,
            kept@ == done.filter(|e: LogEntry| !belongs(e, name@, session_key@)),
        decreases all@.len(),
    {
        let ghost before = all@;
        let e = all.remove(0);
        proof {
            done.lemma_filter_push(e, |e: LogEntry| !belongs(e, name@, session_key@));
            assert(done.push(e) + all@ =~= done + before);
            done = done.push(e);
        }
        if !belongs_to_agent(&e, name, session_key) {
            kept.push(e);
        }
    }
    assert(done + all@ == done);
    *logs = kept;
}

// ── the agent form ──────────────────────────────────────────────

/// A new agent can be created once it has a name, a webhook URL and a base prompt.
pub fn can_create(agent: &Agent) -> (r: bool)
    ensures
        r == (agent.name@.len() > 0 && agent.webhook_url@.len() > 0 && agent.base_prompt@.len() > 0),
{
    !agent.name.as_str().is_empty() && !agent.webhook_url.as_str().is_empty() && !agent.base_prompt.as_str().is_empty()
}

/// How a filter setting is shown: 无过滤, 自定义正则 for a pattern setting,
/// or the plugin name.
pub open spec fn filter_label_spec(setting: Seq<char>) -> Seq<char> {
    if setting == "none"@ {
        "无过滤"@
    } else if starts_with(setting, "regex:"@) {
        "自定义正则"@
    } else {
        setting
    }
}

/// How a filter setting is shown.
pub fn filter_label(setting: &str) -> (r: String)
    ensures
        r@ == filter_label_spec(setting@),
{
    let s = chars_of(setting);
    if crate::text::chars_eq_str(s.as_slice(), "none") {
        string_of(chars_of("无过滤").as_slice())
    } else if crate::text::starts_with_chars(s.as_slice(), chars_of("regex:").as_slice()) {
        string_of(chars_of("自定义正则").as_slice())
    } else {
        string_of(s.as_slice())
    }
}

/// How a project is shown: (默认项目) for none.
pub fn project_label(project: &str) -> (r: String)
    ensures
        project@.len() == 0 ==> r@ == "(默认项目)"@,
        project@.len() > 0 ==> r@ == project@,
{
    if project.is_empty() {
        string_of(chars_of("(默认项目)").as_slice())
    } else {
        string_of(chars_of(project).as_slice())
    }
}

/// The three condition fields of a pattern setting: its `&&`-separated
/// pieces after `regex:`, trimmed, padded with empty fields or cut to three.
pub open spec fn condition_fields_spec(setting: Seq<char>) -> Seq<Seq<char>> {
    let body = if starts_with(setting, "regex:"@) { setting.skip(6) } else { Seq::empty() };
    let parts = split_and_from(body, 0, 0).map_values(|p: Seq<char>| trim(p));
    if parts.len() >= 3 {
        parts.take(3)
    } else {
        parts + Seq::new((3 - parts.len()) as nat, |i: int| Seq::<char>::empty())
    }
}

/// The three condition fields of a pattern setting (see [`condition_fields_spec`]).
pub fn condition_fields(setting: &str) -> (r: Vec<String>)
    ensures
        strings_view(r@) == condition_fields_spec(setting@),
{
    let s = chars_of(setting);
    proof {
        reveal_strlit("regex:");
    }
    let body: String = if crate::text::starts_with_chars(s.as_slice(), chars_of("regex:").as_slice()) {
        let mut b: Vec<char> = Vec::new();
        let mut i: usize = 6;
        while i < s.len()
            invariant
                6 <= i <= s@.len(),
                b@ == s@.subrange(6, i as int),
            decreases s@.len() - i,
        {
            b.push(s[i]);
            i = i + 1;
        }
        assert(b@ == s@.skip(6));
        string_of(b.as_slice())
    } else {
        assert(""@ =~= Seq::<char>::empty()) by {
            reveal_strlit("");
        }
        String::new()
    };
    let pieces = crate::filter::split_and(body.as_str());
    let ghost parts = strings_view(pieces@).map_values(|p: Seq<char>| trim(p));
    let mut out: Vec<String> = Vec::new();
    let mut i: usize = 0;
    while i < pieces.len() && i < 3
        invariant
            i <= pieces@.len(),
            i <= 3,
            parts == strings_view(pieces@).map_values(|p: Seq<char>| trim(p)),
            strings_view(out@) == parts.take(i as int),
        decreases pieces@.len() - i,
    {
        let t = trim_chars(chars_of(pieces[i].as_str()).as_slice());
        let ghost before = strings_view(out@);
        out.push(string_of(t.as_slice()));
        proof {
            assert(parts[i as int] == t@);
            assert(strings_view(out@) =~= before.push(t@));
            assert(parts.take(i + 1) =~= parts.take(i as int).push(parts[i as int]));
        }
        i = i + 1;
    }
    let m = i;
    assert(m as int == if parts.len() >= 3 { 3 } else { parts.len() as int });
    assert(strings_view(out@) =~= parts.take(m as int) + Seq::new((out@.len() - m) as nat, |i: int| Seq::<char>::empty()));
    while out.len() < 3
        invariant
            m <= out@.len() <= 3,
            m as int == if parts.len() >= 3 { 3 } else { parts.len() as int },
            strings_view(out@) == parts.take(m as int) + Seq::new((out@.len() - m) as nat, |i: int| Seq::<char>::empty()),
        decreases 3 - out@.len(),
    {
        let ghost before = strings_view(out@);
        out.push(String::new());
        proof {
            assert(strings_view(out@) =~= before.push(Seq::<char>::empty()));
            assert(strings_view(out@) =~= parts.take(m as int) + Seq::new((out@.len() - m) as nat, |i: int| Seq::<char>::empty()));
        }
    }
    proof {
        if parts.len() >= 3 {
            assert(strings_view(out@) =~= parts.take(3));
        } else {
            assert(parts.take(m as int) == parts);
        }
    }
    out
}

/// The setting for edited condition fields: `regex:` and the trimmed fields
/// joined with ` && `, empty fields at the end left out (the first field is
/// always kept; empty fields in the middle keep their place and are ignored
/// when filtering).
pub open spec fn setting_of_fields(fields: Seq<Seq<char>>) -> Seq<char> {
    "regex:"@ + join_and(drop_trailing_empty(fields.map_values(|f: Seq<char>| trim(f))))
}

/// The fields without the empty ones at the end, keeping at least one.
pub open spec fn drop_trailing_empty(f: Seq<Seq<char>>) -> Seq<Seq<char>>
    decreases f.len(),
{
    if f.len() > 1 && f.last().len() == 0 {
        drop_trailing_empty(f.drop_last())
    } else {
        f
    }
}

/// Pieces joined with ` && `.
pub open spec fn join_and(f: Seq<Seq<char>>) -> Seq<char>
    decreases f.len(),
{
    if f.len() == 0 {
        Seq::empty()
    } else if f.len() == 1 {
        f[0]
    } else {
        join_and(f.drop_last()) + " && "@ + f.last()
    }
}

/// The setting for edited condition fields (see [`setting_of_fields`]).
pub fn setting_from_fields(fields: &[String]) -> (r: String)
    ensures
        r@ == setting_of_fields(strings_view(fields@)),
{
    let ghost t = strings_view(fields@).map_values(|f: Seq<char>| trim(f));
    let mut segs: Vec<Vec<char>> = Vec::new();
    let mut i: usize = 0;
    while i < fields.len()
        invariant
            i <= fields@.len(),
            t == strings_view(fields@).map_values(|f: Seq<char>| trim(f)),
            segs@.len() == i,
            forall|k: int| 0 <= k < i ==> (#[trigger] segs@[k])@ == t[k],
        decreases fields@.len() - i,
    {
        segs.push(trim_chars(chars_of(fields[i].as_str()).as_slice()));
        i = i + 1;
    }
    let mut n: usize = segs.len();
    assert(t.take(n as int) == t);
    while n > 1 && segs[n - 1].len() == 0
        invariant
            n <= segs@.len(),
            segs@.len() == t.len(),
            forall|k: int| 0 <= k < segs@.len() ==> (#[trigger] segs@[k])@ == t[k],
            drop_trailing_empty(t.take(n as int)) == drop_trailing_empty(t),
        decreases n,
    {
        assert(t.take(n as int).drop_last() == t.take(n - 1));
        n = n - 1;
    }
    let ghost kept = t.take(n as int);
    assert(drop_trailing_empty(kept) == kept);
    let mut out = chars_of("regex:");
    let ghost head = out@;
    let mut j: usize = 0;
    assert(kept.take(0) =~= Seq::<Seq<char>>::empty());
    while j < n
        invariant
            j <= n <= segs@.len(),
            segs@.len() == t.len(),
            kept == t.take(n as int),
            forall|k: int| 0 <= k < segs@.len() ==> (#[trigger] segs@[k])@ == t[k],
            head == "regex:"@,
            out@ == head + join_and(kept.take(j as int)),
        decreases n - j,
    {
        proof {
            assert(kept.take(j + 1).drop_last() == kept.take(j as int));
            assert(kept.take(j + 1).last() == segs@[j as int]@);
        }
        if j > 0 {
            push_str(&mut out, " && ");
        }
        crate::text::push_all(&mut out, segs[j].as_slice());
        proof {
            if j == 0 {
                assert(kept.take(1) =~= seq![segs@[0]@]);
            }
        }
        j = j + 1;
    }
    assert(kept.take(n as int) == kept);
    string_of(out.as_slice())
}

// ── the status bar ──────────────────────────────────────────────

/// The bridge connection text of the status bar: the connection state while
/// the service runs, 未连接 otherwise.
pub open spec fn conn_text_spec(running: bool, state: ConnState) -> Seq<char> {
    if !running {
        "cc-connect 未连接"@
    } else {
        match state {
            ConnState::Connected => "cc-connect 已连接"@,
            ConnState::Connecting => "cc-connect 连接中…"@,
            ConnState::Disconnected => "cc-connect 已断开"@,
        }
    }
}

/// The bridge connection label: `● <text>`, with the bridge process id when
/// this application started a bridge process that still runs.
pub fn conn_label(running: bool, state: ConnState, pid: Option<u32>) -> (r: String)
    ensures
        match pid {
            Some(p) => r@ == "● "@ + conn_text_spec(running, state) + " · PID "@ + crate::text::decimal(p as nat),
            None => r@ == "● "@ + conn_text_spec(running, state),
        },
{
    let mut v = chars_of("● ");
    if !running {
        push_str(&mut v, "cc-connect 未连接");
    } else {
        match state {
            ConnState::Connected => push_str(&mut v, "cc-connect 已连接"),
            ConnState::Connecting => push_str(&mut v, "cc-connect 连接中…"),
            ConnState::Disconnected => push_str(&mut v, "cc-connect 已断开"),
        }
    }
    if let Some(p) = pid {
        push_str(&mut v, " · PID ");
        push_decimal(&mut v, p as u64);
    }
    string_of(v.as_slice())
}

// ── session groups as shown ─────────────────────────────────────

/// The most entries shown per session group.
pub open spec fn max_group_entries() -> nat {
    50
}

/// How many of a group's oldest entries are left out so that at most 50 show.
pub fn omitted_count(len: usize) -> (r: usize)
    ensures
        r == (if len > 50 { len - 50 } else { 0 }),
{
    if len > 50 {
        len - 50
    } else {
        0
    }
}

/// The heading of a session group: the current (last) session shows since
/// when and how many entries; an earlier one its number, first and last time
/// and count.
pub open spec fn group_heading_spec(index: u64, last: bool, first_clock: Seq<char>, last_clock: Seq<char>, count: u64) -> Seq<char> {
    if last {
        "── 当前会话 · 自 "@ + first_clock + " · "@ + crate::text::decimal(count as nat) + " 条 ──"@
    } else {
        "会话 "@ + crate::text::decimal(index as nat + 1) + " · "@ + first_clock + " – "@ + last_clock + " · "@
            + crate::text::decimal(count as nat) + " 条"@
    }
}

/// The heading of a session group (see [`group_heading_spec`]).
pub fn group_heading(index: u64, last: bool, first_clock: &str, last_clock: &str, count: u64) -> (r: String)
    requires
        index < u64::MAX,
    ensures
        r@ == group_heading_spec(index, last, first_clock@, last_clock@, count),
{
    let mut v: Vec<char> = Vec::new();
    if last {
        push_str(&mut v, "── 当前会话 · 自 ");
        push_str(&mut v, first_clock);
        push_str(&mut v, " · ");
        push_decimal(&mut v, count);
        push_str(&mut v, " 条 ──");
    } else {
        push_str(&mut v, "会话 ");
        push_decimal(&mut v, index + 1);
        push_str(&mut v, " · ");
        push_str(&mut v, first_clock);
        push_str(&mut v, " – ");
        push_str(&mut v, last_clock);
        push_str(&mut v, " · ");
        push_decimal(&mut v, count);
        push_str(&mut v, " 条");
    }
    string_of(v.as_slice())
}

/// The note for left-out entries.
pub fn omitted_note(count: usize) -> (r: String)
    ensures
        r@ == "… 已省略较早的 "@ + crate::text::decimal(count as nat) + " 条"@,
{
    let mut v = chars_of("… 已省略较早的 ");
    push_decimal(&mut v, count as u64);
    push_str(&mut v, " 条");
    string_of(v.as_slice())
}

// ── starting the bridge process ─────────────────────────────────

/// The whitespace-separated words of `s` (`str::split_whitespace`).
pub open spec fn words(s: Seq<char>) -> Seq<Seq<char>>
    decreases s.len(),
{
    if s.len() == 0 {
        Seq::empty()
    } else {
        let w = words(s.drop_last());
        let c = s.last();
        if is_space(c) {
            w
        } else if s.len() >= 2 && !is_space(s[s.len() - 2]) {
            w.update(w.len() - 1, w.last().push(c))
        } else {
            w.push(seq![c])
        }
    }
}

proof fn lemma_words_nonempty(s: Seq<char>)
    requires
        s.len() > 0,
        !is_space(s.last()),
    ensures
        words(s).len() > 0,
    decreases s.len(),
{
    if s.len() >= 2 && !is_space(s[s.len() - 2]) {
        assert(s.drop_last().last() == s[s.len() - 2]);
        lemma_words_nonempty(s.drop_last());
    }
}

/// The words of a command line.
pub fn split_words(s: &str) -> (r: Vec<String>)
    ensures
        strings_view(r@) == words(s@),
{
    let cs = chars_of(s);
    let mut out: Vec<Vec<char>> = Vec::new();
    let mut i: usize = 0;
    assert(cs@.take(0) =~= Seq::<char>::empty());
    assert(out@.map_values(|w: Vec<char>| w@) =~= Seq::<Seq<char>>::empty());
    while i < cs.len()
        invariant
            i <= cs@.len(),
            cs@ == s@,
            out@.map_values(|w: Vec<char>| w@) == words(cs@.take(i as int)),
        decreases cs@.len() - i,
    {
        let c = cs[i];
        let ghost t = cs@.take(i + 1);
        let ghost before = out@.map_values(|w: Vec<char>| w@);
        proof {
            assert(t.drop_last() == cs@.take(i as int));
            assert(t.last() == c);
        }
        if char_is_space(c) {
        } else if i >= 1 && !char_is_space(cs[i - 1]) {
            proof {
                assert(t[t.len() - 2] == cs@[i - 1]);
                assert(cs@.take(i as int).last() == cs@[i - 1]);
                lemma_words_nonempty(cs@.take(i as int));
            }
            let mut last = out.pop().unwrap();
            proof {
                assert(before.last() == last@);
            }
            last.push(c);
            out.push(last);
            proof {
                assert(out@.map_values(|w: Vec<char>| w@) =~= before.update(before.len() - 1, before.last().push(c)));
            }
        } else {
            let mut w: Vec<char> = Vec::new();
            w.push(c);
            let ghost ws = out@;
            out.push(w);
            proof {
                assert(out@ == ws.push(w));
                assert(out@.map_values(|w: Vec<char>| w@) =~= before.push(seq![c]));
            }
        }
        i = i + 1;
    }
    assert(cs@.take(cs@.len() as int) == cs@);
    let mut r: Vec<String> = Vec::new();
    let mut k: usize = 0;
    while k < out.len()
        invariant
            k <= out@.len(),
            r@.len() == k,
            forall|j: int| 0 <= j < k ==> (#[trigger] r@[j])@ == out@[j]@,
        decreases out@.len() - k,
    {
        r.push(string_of(out[k].as_slice()));
        k = k + 1;
    }
    assert(strings_view(r@) =~= out@.map_values(|w: Vec<char>| w@));
    r
}

/// The program and arguments of the bridge start command: its first word and
/// the others; `None` when the command has no words.
pub fn command_parts(cmd: &str) -> (r: Option<(String, Vec<String>)>)
    ensures
        match r {
            None => words(cmd@).len() == 0,
            Some((p, args)) => words(cmd@) == seq![p@] + strings_view(args@),
        },
{
    let mut ws = split_words(cmd);
    if ws.len() == 0 {
        return None;
    }
    let ghost all = strings_view(ws@);
    let args = ws.split_off(1);
    let p = ws.pop().unwrap();
    proof {
        assert(all =~= seq![p@] + strings_view(args@));
    }
    Some((p, args))
}

// ── option lists ────────────────────────────────────────────────

/// The strict order of texts: character by character, a proper prefix first
/// (the order of `String`, since UTF-8 keeps the order of code points).
pub open spec fn text_lt(a: Seq<char>, b: Seq<char>) -> bool
    decreases a.len(),
{
    if a.len() == 0 {
        b.len() > 0
    } else if b.len() == 0 {
        false
    } else if a[0] < b[0] {
        true
    } else if a[0] > b[0] {
        false
    } else {
        text_lt(a.drop_first(), b.drop_first())
    }
}

proof fn lemma_text_lt_irreflexive(a: Seq<char>)
    ensures
        !text_lt(a, a),
    decreases a.len(),
{
    if a.len() > 0 {
        lemma_text_lt_irreflexive(a.drop_first());
    }
}

proof fn lemma_text_lt_transitive(a: Seq<char>, b: Seq<char>, c: Seq<char>)
    requires
        text_lt(a, b),
        text_lt(b, c),
    ensures
        text_lt(a, c),
    decreases a.len(),
{
    if a.len() > 0 && b.len() > 0 && c.len() > 0 {
        if a[0] == b[0] && b[0] == c[0] {
            lemma_text_lt_transitive(a.drop_first(), b.drop_first(), c.drop_first());
        }
    }
}

proof fn lemma_text_lt_total(a: Seq<char>, b: Seq<char>)
    requires
        a != b,
    ensures
        text_lt(a, b) || text_lt(b, a),
    decreases a.len(),
{
    if a.len() > 0 && b.len() > 0 && a[0] == b[0] {
        if a.drop_first() == b.drop_first() {
            assert(a =~= seq![a[0]] + a.drop_first());
            assert(b =~= seq![b[0]] + b.drop_first());
        }
        lemma_text_lt_total(a.drop_first(), b.drop_first());
    } else if a.len() == 0 && b.len() == 0 {
        assert(a =~= b);
    }
}

/// The texts are in strictly increasing order (so none occurs twice).
pub open spec fn strictly_sorted(s: Seq<Seq<char>>) -> bool {
    forall|i: int, j: int| 0 <= i < j < s.len() ==> text_lt(#[trigger] s[i], #[trigger] s[j])
}

fn text_less(a: &[char], b: &[char]) -> (r: bool)
    ensures
        r == text_lt(a@, b@),
{
    let mut i: usize = 0;
    assert(a@.skip(0) == a@ && b@.skip(0) == b@);
    while i < a.len() && i < b.len() && a[i] == b[i]
        invariant
            i <= a@.len(),
            i <= b@.len(),
            text_lt(a@, b@) == text_lt(a@.skip(i as int), b@.skip(i as int)),
        decreases a@.len() - i,
    {
        proof {
            assert(a@.skip(i as int).drop_first() == a@.skip(i + 1));
            assert(b@.skip(i as int).drop_first() == b@.skip(i + 1));
            assert(a@.skip(i as int)[0] == a@[i as int]);
            assert(b@.skip(i as int)[0] == b@[i as int]);
        }
        i = i + 1;
    }
    proof {
        if i < a@.len() {
            assert(a@.skip(i as int)[0] == a@[i as int]);
        }
        if i < b@.len() {
            assert(b@.skip(i as int)[0] == b@[i as int]);
        }
    }
    if i == a.len() {
        i < b.len()
    } else if i == b.len() {
        false
    } else {
        a[i] < b[i]
    }
}

/// Adds `x` to a strictly sorted list at its place, unless it is there already.
fn insert_sorted(v: &mut Vec<String>, x: String)
    requires
        strictly_sorted(strings_view(old(v)@)),
    ensures
        strictly_sorted(strings_view(final(v)@)),
        forall|t: Seq<char>| strings_view(final(v)@).contains(t) <==> (strings_view(old(v)@).contains(t) || t == x@),
{
    let ghost s = strings_view(v@);
    let xc = chars_of(x.as_str());
    let mut p: usize = 0;
    while p < v.len() && text_less(chars_of(v[p].as_str()).as_slice(), xc.as_slice())
        invariant
            p <= v@.len(),
            s == strings_view(v@),
            xc@ == x@,
            forall|k: int| 0 <= k < p ==> text_lt(#[trigger] s[k], x@),
        decreases v@.len() - p,
    {
        p = p + 1;
    }
    if p < v.len() && crate::text::chars_eq(chars_of(v[p].as_str()).as_slice(), xc.as_slice()) {
        assert forall|t: Seq<char>| strings_view(v@).contains(t) <==> (s.contains(t) || t == x@) by {
            if t == x@ {
                assert(s[p as int] == x@);
            }
        }
        return;
    }
    proof {
        if p < s.len() {
            assert(!text_lt(s[p as int], x@));
            assert(s[p as int] != x@);
            lemma_text_lt_total(s[p as int], x@);
        }
    }
    v.insert(p, x);
    proof {
        let n = strings_view(v@);
        assert(n =~= s.insert(p as int, x@));
        assert forall|i: int, j: int| 0 <= i < j < n.len() implies text_lt(#[trigger] n[i], #[trigger] n[j]) by {
            if j < p {
                assert(n[i] == s[i] && n[j] == s[j]);
            } else if j == p {
                assert(n[i] == s[i]);
            } else if i == p {
                assert(n[j] == s[j - 1]);
                if j - 1 > p {
                    lemma_text_lt_transitive(x@, s[p as int], s[j - 1]);
                }
            } else if i < p {
                assert(n[i] == s[i] && n[j] == s[j - 1]);
                lemma_text_lt_transitive(s[i], x@, s[p as int]);
                if j - 1 > p {
                    lemma_text_lt_transitive(s[i], s[p as int], s[j - 1]);
                } else {
                }
            } else {
                assert(n[i] == s[i - 1] && n[j] == s[j - 1]);
            }
        }
        assert forall|t: Seq<char>| n.contains(t) <==> (s.contains(t) || t == x@) by {
            if n.contains(t) {
                let k = choose|k: int| 0 <= k < n.len() && n[k] == t;
                if k < p {
                    assert(s[k] == t);
                } else if k > p {
                    assert(s[k - 1] == t);
                }
            }
            if s.contains(t) {
                let k = choose|k: int| 0 <= k < s.len() && s[k] == t;
                if k < p {
                    assert(n[k] == t);
                } else {
                    assert(n[k + 1] == t);
                }
            }
            if t == x@ {
                assert(n[p as int] == t);
            }
        }
    }
}

/// The choices of a plugin list: `first`, the names found, and `last` if
/// given, sorted with each name once.
pub fn option_list(first: &str, found: &[String], last: Option<&str>) -> (r: Vec<String>)
    ensures
        strictly_sorted(strings_view(r@)),
        forall|t: Seq<char>| strings_view(r@).contains(t) <==> (t == first@ || strings_view(found@).contains(t) || (last matches Some(l) && t == l@)),
{
    let mut v: Vec<String> = Vec::new();
    assert(strings_view(v@) =~= Seq::<Seq<char>>::empty());
    insert_sorted(&mut v, string_of(chars_of(first).as_slice()));
    let mut i: usize = 0;
    while i < found.len()
        invariant
            i <= found@.len(),
            strictly_sorted(strings_view(v@)),
            forall|t: Seq<char>| strings_view(v@).contains(t) <==> (t == first@ || strings_view(found@).take(i as int).contains(t)),
        decreases found@.len() - i,
    {
        insert_sorted(&mut v, found[i].clone());
        proof {
            let f = strings_view(found@);
            assert(f.take(i + 1) =~= f.take(i as int).push(f[i as int]));
            let g = f.take(i + 1);
            let h = f.take(i as int);
            assert forall|t: Seq<char>| g.contains(t) <==> (h.contains(t) || t == f[i as int]) by {
                if g.contains(t) {
                    let k = choose|k: int| 0 <= k < g.len() && g[k] == t;
                    if k < i {
                        assert(h[k] == t);
                    }
                }
                if h.contains(t) {
                    let k = choose|k: int| 0 <= k < h.len() && h[k] == t;
                    assert(g[k] == t);
                }
                if t == f[i as int] {
                    assert(g[i as int] == t);
                }
            }
        }
        i = i + 1;
    }
    assert(strings_view(found@).take(found@.len() as int) == strings_view(found@));
    if let Some(l) = last {
        insert_sorted(&mut v, string_of(chars_of(l).as_slice()));
    }
    v
}

// ── entries and agents ──────────────────────────────────────────

/// The position of the latest entry of an agent, if any.
pub open spec fn last_owned(logs: Seq<LogEntry>, name: Seq<char>, key: Seq<char>) -> Option<int>
    decreases logs.len(),
{
    if logs.len() == 0 {
        None
    } else if belongs(logs.last(), name, key) {
        Some(logs.len() - 1)
    } else {
        last_owned(logs.drop_last(), name, key)
    }
}

/// The position of the latest entry of an agent (shown on its card).
pub fn last_entry_of(logs: &[LogEntry], name: &str, session_key: &str) -> (r: Option<usize>)
    ensures
        match r {
            Some(i) => last_owned(logs@, name@, session_key@) == Some(i as int),
            None => last_owned(logs@, name@, session_key@) is None,
        },
{
    let mut i: usize = logs.len();
    assert(logs@.take(i as int) == logs@);
    while i > 0
        invariant
            i <= logs@.len(),
            last_owned(logs@.take(i as int), name@, session_key@) == last_owned(logs@, name@, session_key@),
        decreases i,
    {
        let ghost t = logs@.take(i as int);
        assert(t.drop_last() == logs@.take(i - 1));
        assert(t.last() == logs@[i - 1]);
        i = i - 1;
        if belongs_to_agent(&logs[i], name, session_key) {
            return Some(i);
        }
    }
    None
}

/// Whether an entry belongs to one of the agents (given by name and session key).
pub open spec fn owned_by_any(e: LogEntry, agents: Seq<(String, String)>) -> bool {
    exists|i: int| 0 <= i < agents.len() && belongs(e, agents[i].0@, agents[i].1@)
}

fn owned(e: &LogEntry, agents: &[(String, String)]) -> (r: bool)
    ensures
        r == owned_by_any(*e, agents@),
{
    let mut i: usize = 0;
    while i < agents.len()
        invariant
            i <= agents@.len(),
            forall|k: int| 0 <= k < i ==> !belongs(*e, agents@[k].0@, agents@[k].1@),
        decreases agents@.len() - i,
    {
        if belongs_to_agent(e, agents[i].0.as_str(), agents[i].1.as_str()) {
            return true;
        }
        i = i + 1;
    }
    false
}

/// The positions of the entries of no agent (service and connection entries), in order.
pub open spec fn unowned_positions(logs: Seq<LogEntry>, agents: Seq<(String, String)>) -> Seq<int>
    decreases logs.len(),
{
    if logs.len() == 0 {
        Seq::empty()
    } else {
        let rest = unowned_positions(logs.drop_last(), agents);
        if owned_by_any(logs.last(), agents) {
            rest
        } else {
            rest.push(logs.len() - 1)
        }
    }
}

/// The positions of the entries that belong to no agent.
pub fn unowned_entries(logs: &[LogEntry], agents: &[(String, String)]) -> (r: Vec<usize>)
    ensures
        r@.map_values(|i: usize| i as int) == unowned_positions(logs@, agents@),
{
    let mut r: Vec<usize> = Vec::new();
    let mut i: usize = 0;
    while i < logs.len()
        invariant
            i <= logs@.len(),
            r@.map_values(|k: usize| k as int) == unowned_positions(logs@.take(i as int), agents@),
        decreases logs@.len() - i,
    {
        proof {
            assert(logs@.take(i + 1).drop_last() == logs@.take(i as int));
            assert(logs@.take(i + 1).last() == logs@[i as int]);
        }
        if !owned(&logs[i], agents) {
            let ghost before = r@;
            r.push(i);
            assert(r@.map_values(|k: usize| k as int) =~= before.map_values(|k: usize| k as int).push(i as int));
        }
        i = i + 1;
    }
    assert(logs@.take(logs@.len() as int) == logs@);
    r
}

/// Clears the entries that belong to no agent, keeping the agents' entries in order.
pub fn clear_unowned(logs: &mut Vec<LogEntry>, agents: &[(String, String)])
    ensures
        final(logs)@ == old(logs)@.filter(|e: LogEntry| owned_by_any(e, agents@)),
{
    let mut all: Vec<LogEntry> = Vec::new();
    std::mem::swap(&mut all, logs);
    let ghost s = all@;
    let ghost mut done: Seq<LogEntry> = Seq::empty();
    let mut kept: Vec<LogEntry> = Vec::new();
    assert(done + all@ =~= s);
    while all.len() > 0
        invariant
            s == done + all@,
            kept@ == done.filter(|e: LogEntry| owned_by_any(e, agents@)),
        decreases all@.len(),
    {
        let ghost before = all@;
        let e = all.remove(0);
        proof {
            done.lemma_filter_push(e, |e: LogEntry| owned_by_any(e, agents@));
            assert(done.push(e) + all@ =~= done + before);
            done = done.push(e);
        }
        if owned(&e, agents) {
            kept.push(e);
        }
    }
    assert(done + all@ == done);
    *logs = kept;
}

} // verus!
