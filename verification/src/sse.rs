//! Server-sent events: the line protocol of the webhook relay stream.
//!
//! Text arrives in arbitrary chunks. [`SseParser`] keeps the unfinished line
//! and the event being assembled between chunks; [`Utf8Chunker`] turns the raw
//! byte chunks into text without splitting a multi-byte character.
use vstd::prelude::*;
use crate::text::{
    can_complete, chars_of, decode_valid_utf8, push_all, string_of, trim, trim_chars, utf8_check,
};

verus! {

/// The `\n` character.
pub open spec fn nl() -> char {
    '\n'
}

/// Position of the first `\n` in `s`, or -1 when there is none.
pub open spec fn nl_pos(s: Seq<char>) -> int
    decreases s.len(),
{
    if s.len() == 0 {
        -1
    } else if s[0] == '\n' {
        0
    } else {
        let p = nl_pos(s.drop_first());
        if p < 0 {
            -1
        } else {
            p + 1
        }
    }
}

/// `s` without its trailing `\r` characters (what `trim_end_matches('\r')` gives).
pub open spec fn strip_cr(s: Seq<char>) -> Seq<char>
    decreases s.len(),
{
    if s.len() > 0 && s.last() == '\r' {
        strip_cr(s.drop_last())
    } else {
        s
    }
}

/// The lines of `lines` joined with `\n` between them.
pub open spec fn join_lines(lines: Seq<Seq<char>>) -> Seq<char>
    decreases lines.len(),
{
    if lines.len() == 0 {
        Seq::empty()
    } else if lines.len() == 1 {
        lines[0]
    } else {
        join_lines(lines.drop_last()) + seq!['\n'] + lines.last()
    }
}

/// The characters of `data:`.
pub open spec fn data_tag() -> Seq<char> {
    seq!['d', 'a', 't', 'a', ':']
}

/// The characters of `event:`.
pub open spec fn event_tag() -> Seq<char> {
    seq!['e', 'v', 'e', 'n', 't', ':']
}

/// What one line does to the event being assembled (its name and its data
/// lines), and the event it completes, if any.
pub open spec fn step_line(name: Seq<char>, data: Seq<Seq<char>>, line: Seq<char>) -> (
    Seq<char>,
    Seq<Seq<char>>,
    Option<(Seq<char>, Seq<char>)>,
) {
    if line.len() == 0 {
        if data.len() > 0 {
            (Seq::empty(), Seq::empty(), Some((name, join_lines(data))))
        } else {
            (Seq::empty(), data, None)
        }
    } else if data_tag().is_prefix_of(line) {
        let value = line.skip(5);
        let value = if value.len() > 0 && value[0] == ' ' {
            value.drop_first()
        } else {
            value
        };
        (name, data.push(value), None)
    } else if event_tag().is_prefix_of(line) {
        (trim(line.skip(6)), data, None)
    } else {
        (name, data, None)
    }
}

/// Consumes every complete line of `buf`: the resulting name, data lines,
/// unconsumed rest (holding no `\n`), and the completed events in order.
pub open spec fn run_lines(name: Seq<char>, data: Seq<Seq<char>>, buf: Seq<char>) -> (
    Seq<char>,
    Seq<Seq<char>>,
    Seq<char>,
    Seq<(Seq<char>, Seq<char>)>,
)
    decreases buf.len(),
{
    let p = nl_pos(buf);
    if p < 0 || p >= buf.len() {
        (name, data, buf, Seq::empty())
    } else {
        let line = strip_cr(buf.take(p));
        let (n1, d1, ev) = step_line(name, data, line);
        let (n2, d2, rest, evs) = run_lines(n1, d1, buf.skip(p + 1));
        let evs = match ev {
            Some(e) => seq![e] + evs,
            None => evs,
        };
        (n2, d2, rest, evs)
    }
}

pub proof fn lemma_nl_pos(s: Seq<char>)
    ensures
        -1 <= nl_pos(s) < s.len(),
        nl_pos(s) >= 0 ==> s[nl_pos(s)] == '\n',
        forall|i: int| 0 <= i < s.len() && (nl_pos(s) < 0 || i < nl_pos(s)) ==> #[trigger] s[i]
            != '\n',
    decreases s.len(),
{
    if s.len() > 0 && s[0] != '\n' {
        lemma_nl_pos(s.drop_first());
        assert forall|i: int|
            0 <= i < s.len() && (nl_pos(s) < 0 || i < nl_pos(s)) implies #[trigger] s[i]
            != '\n' by {
            if i > 0 {
                assert(s[i] == s.drop_first()[i - 1]);
            }
        }
    }
}

proof fn lemma_nl_pos_is(s: Seq<char>, p: int)
    requires
        -1 <= p < s.len(),
        p >= 0 ==> s[p] == '\n',
        forall|i: int| 0 <= i < s.len() && (p < 0 || i < p) ==> #[trigger] s[i] != '\n',
    ensures
        nl_pos(s) == p,
    decreases s.len(),
{
    if s.len() > 0 && s[0] != '\n' {
        let t = s.drop_first();
        assert forall|i: int| 0 <= i < t.len() && (p - 1 < 0 || i < p - 1) implies #[trigger] t[i]
            != '\n' by {
            assert(t[i] == s[i + 1]);
        }
        if p >= 1 {
            assert(t[p - 1] == s[p]);
            lemma_nl_pos_is(t, p - 1);
        } else {
            if p == 0 {
                assert(s[0] == '\n');
            }
            lemma_nl_pos_is(t, -1);
        }
    } else if s.len() > 0 {
        if p != 0 {
            assert(s[0] != '\n');
        }
    }
}

/// The newline search on a concatenation.
pub proof fn lemma_nl_pos_concat(x: Seq<char>, y: Seq<char>)
    ensures
        nl_pos(x) >= 0 ==> nl_pos(x + y) == nl_pos(x),
        nl_pos(x) < 0 && nl_pos(y) >= 0 ==> nl_pos(x + y) == x.len() + nl_pos(y),
        nl_pos(x) < 0 && nl_pos(y) < 0 ==> nl_pos(x + y) == -1,
{
    lemma_nl_pos(x);
    lemma_nl_pos(y);
    let s = x + y;
    if nl_pos(x) >= 0 {
        assert forall|i: int| 0 <= i < s.len() && (nl_pos(x) < 0 || i < nl_pos(x)) implies #[trigger] s[i]
            != '\n' by {
            assert(s[i] == x[i]);
        }
        lemma_nl_pos_is(s, nl_pos(x));
    } else if nl_pos(y) >= 0 {
        let p = x.len() + nl_pos(y);
        assert forall|i: int| 0 <= i < s.len() && (p < 0 || i < p) implies #[trigger] s[i] != '\n' by {
            if i < x.len() {
                assert(s[i] == x[i]);
            } else {
                assert(s[i] == y[i - x.len()]);
            }
        }
        assert(s[p] == y[nl_pos(y)]);
        lemma_nl_pos_is(s, p);
    } else {
        assert forall|i: int| 0 <= i < s.len() && (-1 < 0 || i < -1) implies #[trigger] s[i] != '\n' by {
            if i < x.len() {
                assert(s[i] == x[i]);
            } else {
                assert(s[i] == y[i - x.len()]);
            }
        }
        lemma_nl_pos_is(s, -1);
    }
}

/// Consuming the lines of `x + y` is consuming those of `x`, then those of the
/// rest of `x` followed by `y`.
pub proof fn lemma_run_lines_concat(
    name: Seq<char>,
    data: Seq<Seq<char>>,
    x: Seq<char>,
    y: Seq<char>,
)
    ensures
        ({
            let (n1, d1, r1, e1) = run_lines(name, data, x);
            let (n2, d2, r2, e2) = run_lines(n1, d1, r1 + y);
            run_lines(name, data, x + y) == (n2, d2, r2, e1 + e2)
        }),
    decreases x.len(),
{
    lemma_nl_pos(x);
    lemma_nl_pos_concat(x, y);
    let p = nl_pos(x);
    if p < 0 {
        assert(run_lines(name, data, x) == (name, data, x, Seq::<(Seq<char>, Seq<char>)>::empty()));
        let (n2, d2, r2, e2) = run_lines(name, data, x + y);
        assert(Seq::<(Seq<char>, Seq<char>)>::empty() + e2 == e2);
    } else {
        let xy = x + y;
        assert(xy.take(p) == x.take(p));
        assert(xy.skip(p + 1) == x.skip(p + 1) + y);
        let line = strip_cr(x.take(p));
        let (n1, d1, ev) = step_line(name, data, line);
        lemma_run_lines_concat(n1, d1, x.skip(p + 1), y);
        let (na, da, ra, ea) = run_lines(n1, d1, x.skip(p + 1));
        let (nb, db, rb, eb) = run_lines(na, da, ra + y);
        match ev {
            Some(e) => {
                assert(seq![e] + ea + eb == seq![e] + (ea + eb));
            },
            None => {},
        }
    }
}

/// One event of the stream: its `event:` name (empty when unnamed) and its
/// data lines joined with `\n`.
pub struct SseEvent {
    pub name: String,
    pub data: String,
}

/// The name and data of each event.
pub open spec fn event_views(v: Seq<SseEvent>) -> Seq<(Seq<char>, Seq<char>)> {
    v.map_values(|e: SseEvent| (e.name@, e.data@))
}

/// Incremental parser of the event stream.
pub struct SseParser {
    current_name: Vec<char>,
    current_data: Vec<Vec<char>>,
    buffer: Vec<char>,
}

/// The data lines of the event being assembled.
pub open spec fn lines_view(v: Seq<Vec<char>>) -> Seq<Seq<char>> {
    v.map_values(|l: Vec<char>| l@)
}

impl SseParser {
    /// The name of the event being assembled.
    pub closed spec fn name(&self) -> Seq<char> {
        self.current_name@
    }

    /// The data lines of the event being assembled.
    pub closed spec fn data(&self) -> Seq<Seq<char>> {
        lines_view(self.current_data@)
    }

    /// The text received after the last complete line.
    pub closed spec fn pending(&self) -> Seq<char> {
        self.buffer@
    }

    pub fn new() -> (p: Self)
        ensures
            p.name() == Seq::<char>::empty(),
            p.data() == Seq::<Seq<char>>::empty(),
            p.pending() == Seq::<char>::empty(),
    {
        let p = SseParser { current_name: Vec::new(), current_data: Vec::new(), buffer: Vec::new() };
        assert(lines_view(p.current_data@) =~= Seq::<Seq<char>>::empty());
        p
    }

    /// Takes a chunk of text and returns every event that it completes.
    pub fn feed(&mut self, chunk: &str) -> (events: Vec<SseEvent>)
        ensures
            ({
                let (n, d, rest, evs) = run_lines(old(self).name(), old(self).data(), old(self).pending() + chunk@);
                &&& final(self).name() == n
                &&& final(self).data() == d
                &&& final(self).pending() == rest
                &&& event_views(events@) == evs
            }),
    {
        let cs = chars_of(chunk);
        let mut buf = Vec::new();
        std::mem::swap(&mut buf, &mut self.buffer);
        push_all(&mut buf, cs.as_slice());
        let ghost b0 = buf@;
        let ghost n0 = self.current_name@;
        let ghost d0 = lines_view(self.current_data@);
        let mut events: Vec<SseEvent> = Vec::new();
        let mut start: usize = 0;
        proof {
            assert(b0.skip(0) == b0);
            let (n, d, rest, evs) = run_lines(n0, d0, b0);
            assert(event_views(events@) =~= Seq::<(Seq<char>, Seq<char>)>::empty());
            assert(Seq::<(Seq<char>, Seq<char>)>::empty() + evs == evs);
        }
        loop
            invariant
                start <= buf@.len(),
                buf@ == b0,
                ({
                    let (n, d, rest, evs) = run_lines(
                        self.current_name@,
                        lines_view(self.current_data@),
                        b0.skip(start as int),
                    );
                    run_lines(n0, d0, b0) == (n, d, rest, event_views(events@) + evs)
                }),
            ensures
                start <= buf@.len(),
                buf@ == b0,
                nl_pos(b0.skip(start as int)) < 0,
                ({
                    let (n, d, rest, evs) = run_lines(
                        self.current_name@,
                        lines_view(self.current_data@),
                        b0.skip(start as int),
                    );
                    run_lines(n0, d0, b0) == (n, d, rest, event_views(events@) + evs)
                }),
            decreases buf@.len() - start,
        {
            let ghost cur = b0.skip(start as int);
            proof {
                lemma_nl_pos(cur);
            }
            let mut p: usize = start;
            while p < buf.len() && buf[p] != '\n'
                invariant
                    start <= p <= buf@.len(),
                    buf@ == b0,
                    forall|i: int| start <= i < p ==> buf@[i] != '\n',
                decreases buf@.len() - p,
            {
                p = p + 1;
            }
            if p == buf.len() {
                proof {
                    assert forall|i: int| 0 <= i < cur.len() && (-1 < 0 || i < -1) implies #[trigger] cur[i]
                        != '\n' by {
                        assert(cur[i] == b0[start + i]);
                    }
                    lemma_nl_pos_is(cur, -1);
                }
                break;
            }
            proof {
                let q = p - start;
                assert forall|i: int| 0 <= i < cur.len() && (q < 0 || i < q) implies #[trigger] cur[i]
                    != '\n' by {
                    assert(cur[i] == b0[start + i]);
                }
                assert(cur[q] == b0[p as int]);
                lemma_nl_pos_is(cur, q);
            }
            // the line without its trailing carriage returns
            let mut end = p;
            while end > start && buf[end - 1] == '\r'
                invariant
                    start <= end <= p,
                    p < buf@.len(),
                    buf@ == b0,
                    strip_cr(b0.subrange(start as int, p as int)) == strip_cr(
                        b0.subrange(start as int, end as int),
                    ),
                decreases end,
            {
                proof {
                    let s = b0.subrange(start as int, end as int);
                    assert(s.drop_last() =~= b0.subrange(start as int, end - 1));
                }
                end = end - 1;
            }
            let mut line: Vec<char> = Vec::new();
            let mut k = start;
            while k < end
                invariant
                    start <= k <= end <= p < buf@.len(),
                    buf@ == b0,
                    line@ == b0.subrange(start as int, k as int),
                decreases end - k,
            {
                line.push(buf[k]);
                k = k + 1;
            }
            proof {
                let s = b0.subrange(start as int, end as int);
                assert(line@ == s);
                assert(!(s.len() > 0 && s.last() == '\r'));
                assert(strip_cr(s) == s);
                assert(cur.take(p - start) == b0.subrange(start as int, p as int));
                assert(cur.skip(p - start + 1) == b0.skip(p + 1));
            }
            let ghost before_events = event_views(events@);
            let ev = self.process_line(line);
            let ghost evv: Option<(Seq<char>, Seq<char>)> = match &ev {
                Some(e) => Some((e.name@, e.data@)),
                None => None,
            };
            match ev {
                Some(e) => {
                    events.push(e);
                    proof {
                        assert(event_views(events@) == before_events.push(evv->0));
                    }
                },
                None => {},
            }
            start = p + 1;
            proof {
                let (n, d, rest, evs) = run_lines(
                    self.current_name@,
                    lines_view(self.current_data@),
                    b0.skip(start as int),
                );
                match evv {
                    Some(e) => {
                        assert(before_events.push(e) + evs == before_events + (seq![e] + evs));
                    },
                    None => {},
                }
            }
        }
        let mut rest: Vec<char> = Vec::new();
        let mut k = start;
        while k < buf.len()
            invariant
                start <= k <= buf@.len(),
                buf@ == b0,
                rest@ == b0.subrange(start as int, k as int),
            decreases buf@.len() - k,
        {
            rest.push(buf[k]);
            k = k + 1;
        }
        proof {
            assert(rest@ == b0.skip(start as int));
            let cur = b0.skip(start as int);
            assert(event_views(events@) + Seq::<(Seq<char>, Seq<char>)>::empty() == event_views(events@));
        }
        self.buffer = rest;
        events
    }

    /// Applies one complete line (without its line end) to the event being
    /// assembled and returns the event that it completes, if any.
    fn process_line(&mut self, line: Vec<char>) -> (ev: Option<SseEvent>)
        ensures
            ({
                let (n, d, e) = step_line(old(self).current_name@, lines_view(old(self).current_data@), line@);
                &&& final(self).current_name@ == n
                &&& lines_view(final(self).current_data@) == d
                &&& match ev {
                    Some(x) => e == Some((x.name@, x.data@)),
                    None => e is None,
                }
                &&& final(self).buffer@ == old(self).buffer@
            }),
    {
        let dtag = ['d', 'a', 't', 'a', ':'];
        let etag = ['e', 'v', 'e', 'n', 't', ':'];
        assert(dtag@ == data_tag());
        assert(etag@ == event_tag());
        if line.len() == 0 {
            if self.current_data.len() > 0 {
                let mut name = Vec::new();
                std::mem::swap(&mut name, &mut self.current_name);
                let mut data = Vec::new();
                std::mem::swap(&mut data, &mut self.current_data);
                let joined = join_all(&data);
                proof {
                    assert(lines_view(self.current_data@) =~= Seq::<Seq<char>>::empty());
                }
                return Some(SseEvent { name: string_of(name.as_slice()), data: string_of(joined.as_slice()) });
            } else {
                self.current_name = Vec::new();
                return None;
            }
        }
        if crate::text::starts_with_chars(line.as_slice(), &dtag) {
            let mut value: Vec<char> = Vec::new();
            let mut k: usize = 5;
            if line.len() > 5 && line[5] == ' ' {
                k = 6;
            }
            let ghost v0 = line@.skip(5);
            while k < line.len()
                invariant
                    5 <= k <= line@.len(),
                    value@ == line@.subrange(
                        if v0.len() > 0 && v0[0] == ' ' { 6 } else { 5 },
                        k as int,
                    ),
                    if v0.len() > 0 && v0[0] == ' ' { 6 <= k } else { true },
                decreases line@.len() - k,
            {
                value.push(line[k]);
                k = k + 1;
            }
            proof {
                if v0.len() > 0 && v0[0] == ' ' {
                    assert(value@ == v0.drop_first());
                } else {
                    assert(value@ == v0);
                }
            }
            let ghost before = lines_view(self.current_data@);
            self.current_data.push(value);
            proof {
                assert(lines_view(self.current_data@) =~= before.push(value@));
            }
            return None;
        }
        if crate::text::starts_with_chars(line.as_slice(), &etag) {
            let mut rest: Vec<char> = Vec::new();
            let mut k: usize = 6;
            while k < line.len()
                invariant
                    6 <= k <= line@.len(),
                    rest@ == line@.subrange(6, k as int),
                decreases line@.len() - k,
            {
                rest.push(line[k]);
                k = k + 1;
            }
            assert(rest@ == line@.skip(6));
            self.current_name = trim_chars(rest.as_slice());
            return None;
        }
        None
    }
}

/// Feeding a parser one chunk and then another leaves it exactly as feeding
/// the two chunks at once, and yields the same events in the same order: how
/// the stream is cut into chunks does not matter.
pub proof fn law_feed_split_invariant(
    name: Seq<char>,
    data: Seq<Seq<char>>,
    pending: Seq<char>,
    a: Seq<char>,
    b: Seq<char>,
)
    ensures
        ({
            let (n1, d1, r1, e1) = run_lines(name, data, pending + a);
            let (n2, d2, r2, e2) = run_lines(n1, d1, r1 + b);
            run_lines(name, data, pending + (a + b)) == (n2, d2, r2, e1 + e2)
        }),
{
    lemma_run_lines_concat(name, data, pending + a, b);
    assert(pending + (a + b) == (pending + a) + b);
}

/// Whether an event with this name carries a webhook delivery: unnamed events
/// and `message` events do; the relay's `ready` and `ping` control events do not.
pub open spec fn is_delivery(name: Seq<char>) -> bool {
    name.len() == 0 || name == seq!['m', 'e', 's', 's', 'a', 'g', 'e']
}

/// Whether an event with this name carries a webhook delivery.
pub fn is_delivery_event(name: &str) -> (r: bool)
    ensures
        r == is_delivery(name@),
{
    let cs = chars_of(name);
    let msg = ['m', 'e', 's', 's', 'a', 'g', 'e'];
    assert(msg@ == seq!['m', 'e', 's', 's', 'a', 'g', 'e']);
    if cs.len() == 0 {
        return true;
    }
    if cs.len() != 7 {
        return false;
    }
    let mut i: usize = 0;
    while i < 7
        invariant
            i <= 7,
            cs@.len() == 7,
            cs@ == name@,
            msg@ == seq!['m', 'e', 's', 's', 'a', 'g', 'e'],
            forall|j: int| 0 <= j < i ==> cs@[j] == msg@[j],
        decreases 7 - i,
    {
        if cs[i] != msg[i] {
            assert(cs@[i as int] != msg@[i as int]);
            return false;
        }
        i = i + 1;
    }
    assert(cs@ =~= msg@);
    true
}

/// Turns byte chunks into text, keeping a character that is cut between two
/// chunks until its last bytes arrive.
pub struct Utf8Chunker {
    pending: Vec<u8>,
}

/// `v` is the length of the longest prefix of `p` that is valid UTF-8.
pub open spec fn longest_valid_prefix(p: Seq<u8>, v: int) -> bool {
    &&& 0 <= v <= p.len()
    &&& vstd::utf8::valid_utf8(p.take(v))
    &&& forall|j: int| v < j <= p.len() ==> !vstd::utf8::valid_utf8(#[trigger] p.take(j))
}

impl Utf8Chunker {
    /// The bytes kept back from earlier chunks.
    pub closed spec fn kept(&self) -> Seq<u8> {
        self.pending@
    }

    pub fn new() -> (c: Self)
        ensures
            c.kept() == Seq::<u8>::empty(),
    {
        Utf8Chunker { pending: Vec::new() }
    }

    /// Takes the next chunk of bytes and returns the text of the longest valid
    /// prefix of the kept bytes followed by the chunk. The bytes after that
    /// prefix are kept for the next call exactly when they can still be
    /// completed (an unfinished character, at most three bytes); otherwise they
    /// hold an invalid sequence and are all dropped.
    pub fn feed(&mut self, bytes: &[u8]) -> (s: String)
        ensures
            ({
                let p = old(self).kept() + bytes@;
                exists|v: int|
                    {
                        &&& longest_valid_prefix(p, v)
                        &&& s@ == vstd::utf8::decode_utf8(#[trigger] p.take(v))
                        &&& final(self).kept() == (if can_complete(p.skip(v)) {
                            p.skip(v)
                        } else {
                            Seq::<u8>::empty()
                        })
                    }
            }),
            final(self).kept().len() <= 3,
    {
        let ghost p = self.pending@ + bytes@;
        let mut i: usize = 0;
        while i < bytes.len()
            invariant
                i <= bytes@.len(),
                self.pending@ == old(self).pending@ + bytes@.subrange(0, i as int),
            decreases bytes@.len() - i,
        {
            self.pending.push(bytes[i]);
            i = i + 1;
        }
        assert(bytes@.subrange(0, bytes@.len() as int) == bytes@);
        let check = utf8_check(self.pending.as_slice());
        let v = check.valid_up_to;
        let mut prefix: Vec<u8> = Vec::new();
        let mut k: usize = 0;
        while k < v
            invariant
                k <= v <= self.pending@.len(),
                self.pending@ == p,
                prefix@ == p.subrange(0, k as int),
            decreases v - k,
        {
            prefix.push(self.pending[k]);
            k = k + 1;
        }
        assert(prefix@ == p.take(v as int));
        let text = decode_valid_utf8(prefix.as_slice());
        if v < self.pending.len() && check.error_len.is_none() {
            let mut rest: Vec<u8> = Vec::new();
            let mut j: usize = v;
            while j < self.pending.len()
                invariant
                    v <= j <= self.pending@.len(),
                    self.pending@ == p,
                    rest@ == p.subrange(v as int, j as int),
                decreases self.pending@.len() - j,
            {
                rest.push(self.pending[j]);
                j = j + 1;
            }
            assert(rest@ == p.skip(v as int));
            self.pending = rest;
        } else {
            self.pending = Vec::new();
        }
        assert(longest_valid_prefix(p, v as int));
        let r = string_of(text.as_slice());
        assert(r@ == vstd::utf8::decode_utf8(p.take(v as int)));
        assert(p == old(self).pending@ + bytes@);
        let ghost q = old(self).kept() + bytes@;
        assert(q == p);
        proof {
            if (v as int) == p.len() {
                assert(p.skip(v as int) =~= Seq::<u8>::empty());
            }
        }
        assert(longest_valid_prefix(q, v as int) && r@ == vstd::utf8::decode_utf8(q.take(v as int))
            && self.kept() == (if can_complete(q.skip(v as int)) {
                q.skip(v as int)
            } else {
                Seq::<u8>::empty()
            }));
        r
    }
}

proof fn lemma_decode_concat(x: Seq<u8>, y: Seq<u8>)
    requires
        vstd::utf8::valid_utf8(x),
        vstd::utf8::valid_utf8(y),
    ensures
        vstd::utf8::valid_utf8(x + y),
        vstd::utf8::decode_utf8(x + y) == vstd::utf8::decode_utf8(x) + vstd::utf8::decode_utf8(y),
    decreases x.len(),
{
    vstd::utf8::valid_utf8_concat(x, y);
    if x.len() == 0 {
        assert(x + y =~= y);
        assert(vstd::utf8::decode_utf8(x) =~= Seq::<char>::empty());
        assert(vstd::utf8::decode_utf8(x) + vstd::utf8::decode_utf8(y) =~= vstd::utf8::decode_utf8(y));
    } else {
        let rest = vstd::utf8::pop_first_scalar(x);
        let xy = x + y;
        assert(xy[0] == x[0]);
        if x.len() > 1 {
            assert(xy[1] == x[1]);
        }
        if x.len() > 2 {
            assert(xy[2] == x[2]);
        }
        if x.len() > 3 {
            assert(xy[3] == x[3]);
        }
        assert(vstd::utf8::length_of_first_scalar(xy) == vstd::utf8::length_of_first_scalar(x));
        assert(vstd::utf8::decode_first_scalar(xy) == vstd::utf8::decode_first_scalar(x));
        assert(vstd::utf8::pop_first_scalar(xy) =~= rest + y);
        lemma_decode_concat(rest, y);
        assert(vstd::utf8::decode_utf8(xy) =~= vstd::utf8::decode_utf8(x) + vstd::utf8::decode_utf8(y));
    }
}

/// The bytes of the chunks `bs`, one after another.
pub open spec fn flat_bytes(bs: Seq<Seq<u8>>) -> Seq<u8>
    decreases bs.len(),
{
    if bs.len() == 0 {
        Seq::empty()
    } else {
        flat_bytes(bs.drop_last()) + bs.last()
    }
}

/// What the chunker decodes at feed `i`: the bytes it kept, then chunk `i`.
pub open spec fn fed(bs: Seq<Seq<u8>>, kept: Seq<Seq<u8>>, i: int) -> Seq<u8> {
    kept[i] + bs[i]
}

/// The bytes turned into text by the first `n` feeds.
pub open spec fn consumed(bs: Seq<Seq<u8>>, vs: Seq<int>, kept: Seq<Seq<u8>>, n: nat) -> Seq<u8>
    decreases n,
{
    if n == 0 {
        Seq::empty()
    } else {
        consumed(bs, vs, kept, (n - 1) as nat) + fed(bs, kept, n - 1).take(vs[n - 1])
    }
}

/// The text returned by the first `n` feeds, one after another.
pub open spec fn texts(bs: Seq<Seq<u8>>, vs: Seq<int>, kept: Seq<Seq<u8>>, n: nat) -> Seq<char>
    decreases n,
{
    if n == 0 {
        Seq::empty()
    } else {
        texts(bs, vs, kept, (n - 1) as nat) + vstd::utf8::decode_utf8(fed(bs, kept, n - 1).take(vs[n - 1]))
    }
}

/// The chunks `bs` fed in turn to a fresh chunker, as [`Utf8Chunker::feed`]
/// states each call: before feed `i` the chunker keeps `kept[i]` (nothing at
/// first); feed `i` returns the text of the first `vs[i]` bytes of what it
/// then holds, its longest valid prefix, and keeps the rest exactly when it
/// can still be completed.
pub open spec fn chunker_run(bs: Seq<Seq<u8>>, vs: Seq<int>, kept: Seq<Seq<u8>>) -> bool {
    &&& vs.len() == bs.len()
    &&& kept.len() == bs.len() + 1
    &&& kept[0] == Seq::<u8>::empty()
    &&& forall|i: int| 0 <= i < bs.len() ==> longest_valid_prefix(#[trigger] fed(bs, kept, i), vs[i])
    &&& forall|i: int|
        0 <= i < bs.len() ==> #[trigger] kept[i + 1] == (if can_complete(fed(bs, kept, i).skip(vs[i])) {
            fed(bs, kept, i).skip(vs[i])
        } else {
            Seq::<u8>::empty()
        })
}

proof fn lemma_valid_suffix(x: Seq<u8>, y: Seq<u8>)
    requires
        vstd::utf8::valid_utf8(x),
        vstd::utf8::valid_utf8(x + y),
    ensures
        vstd::utf8::valid_utf8(y),
{
    let w = x + y;
    assert(w.subrange(0, x.len() as int) =~= x);
    assert(w.subrange(x.len() as int, w.len() as int) =~= y);
    if !vstd::utf8::valid_utf8(y) {
        vstd::utf8::partial_valid_partial_invalid_utf8(w, x.len() as int);
    }
}

proof fn lemma_flat_split(bs: Seq<Seq<u8>>, m: int)
    requires
        0 <= m <= bs.len(),
    ensures
        flat_bytes(bs) == flat_bytes(bs.take(m)) + flat_bytes(bs.skip(m)),
    decreases bs.len(),
{
    if m == bs.len() {
        assert(bs.take(m) =~= bs);
        assert(bs.skip(m) =~= Seq::<Seq<u8>>::empty());
        assert(flat_bytes(bs) + Seq::<u8>::empty() =~= flat_bytes(bs));
    } else {
        let d = bs.drop_last();
        lemma_flat_split(d, m);
        assert(d.take(m) =~= bs.take(m));
        assert(bs.skip(m).drop_last() =~= d.skip(m));
        assert(bs.skip(m).last() == bs.last());
        assert(flat_bytes(bs) =~= flat_bytes(bs.take(m)) + flat_bytes(bs.skip(m)));
    }
}

proof fn lemma_run_prefix(bs: Seq<Seq<u8>>, vs: Seq<int>, kept: Seq<Seq<u8>>, n: nat)
    requires
        chunker_run(bs, vs, kept),
        vstd::utf8::valid_utf8(flat_bytes(bs)),
        n <= bs.len(),
    ensures
        flat_bytes(bs.take(n as int)) == consumed(bs, vs, kept, n) + kept[n as int],
        vstd::utf8::valid_utf8(consumed(bs, vs, kept, n)),
        texts(bs, vs, kept, n) == vstd::utf8::decode_utf8(consumed(bs, vs, kept, n)),
    decreases n,
{
    if n == 0 {
        assert(bs.take(0) =~= Seq::<Seq<u8>>::empty());
        assert(consumed(bs, vs, kept, 0) + kept[0] =~= Seq::<u8>::empty());
        assert(vstd::utf8::decode_utf8(Seq::<u8>::empty()) =~= Seq::<char>::empty());
    } else {
        let k = (n - 1) as nat;
        lemma_run_prefix(bs, vs, kept, k);
        let c = consumed(bs, vs, kept, k);
        let p = fed(bs, kept, k as int);
        let v = vs[k as int];
        assert(longest_valid_prefix(p, v));
        assert(bs.take(n as int).drop_last() =~= bs.take(k as int));
        assert(flat_bytes(bs.take(n as int)) =~= c + p);
        lemma_flat_split(bs, n as int);
        let rest = flat_bytes(bs.skip(n as int));
        assert(flat_bytes(bs) =~= c + (p + rest));
        lemma_valid_suffix(c, p + rest);
        assert(p + rest =~= p.take(v) + (p.skip(v) + rest));
        lemma_valid_suffix(p.take(v), p.skip(v) + rest);
        assert(can_complete(p.skip(v)));
        assert(kept[k as int + 1] == p.skip(v));
        assert(consumed(bs, vs, kept, n) == c + p.take(v));
        vstd::utf8::valid_utf8_concat(c, p.take(v));
        lemma_decode_concat(c, p.take(v));
        assert(flat_bytes(bs.take(n as int)) =~= consumed(bs, vs, kept, n) + kept[n as int]);
    }
}

/// However valid UTF-8 is cut into chunks, also inside a character, feeding
/// the chunks in turn to a fresh chunker returns the whole text: the texts of
/// the feeds put together are the text the bytes encode, and nothing is left
/// kept at the end. The arguments are what the calls of
/// [`Utf8Chunker::feed`] state of themselves (see [`chunker_run`]).
pub proof fn law_chunks_reassemble_all(bs: Seq<Seq<u8>>, vs: Seq<int>, kept: Seq<Seq<u8>>)
    requires
        chunker_run(bs, vs, kept),
        vstd::utf8::valid_utf8(flat_bytes(bs)),
    ensures
        texts(bs, vs, kept, bs.len()) == vstd::utf8::decode_utf8(flat_bytes(bs)),
        kept[bs.len() as int] == Seq::<u8>::empty(),
{
    let n = bs.len();
    lemma_run_prefix(bs, vs, kept, n);
    assert(bs.take(n as int) =~= bs);
    let c = consumed(bs, vs, kept, n);
    lemma_valid_suffix(c, kept[n as int]);
    if n > 0 {
        let k = n - 1;
        let p = fed(bs, kept, k as int);
        let v = vs[k as int];
        assert(longest_valid_prefix(p, v));
        assert(kept[k as int + 1] == p.skip(v) || kept[k as int + 1] == Seq::<u8>::empty());
        if kept[n as int].len() > 0 {
            assert(kept[k as int + 1] == p.skip(v));
            vstd::utf8::valid_utf8_concat(p.take(v), p.skip(v));
            assert(p.take(v) + p.skip(v) =~= p.take(p.len() as int));
            assert(false);
        }
    }
    assert(kept[n as int] =~= Seq::<u8>::empty());
    assert(flat_bytes(bs) =~= c);
}

/// Valid UTF-8 cut anywhere and fed to a fresh chunker in two chunks comes
/// out as its whole text: the first chunk's unfinished character is kept and
/// completed by the second, and nothing is left over. The arguments are what
/// the two calls of [`Utf8Chunker::feed`] state of themselves: the valid
/// prefix of the first chunk, what was kept, and the valid prefix of the kept
/// bytes followed by the second chunk.
pub proof fn law_chunks_reassemble(b1: Seq<u8>, b2: Seq<u8>, v1: int, kept1: Seq<u8>, v2: int)
    requires
        vstd::utf8::valid_utf8(b1 + b2),
        longest_valid_prefix(b1, v1),
        (exists|rest: Seq<u8>| vstd::utf8::valid_utf8(#[trigger] (b1.skip(v1) + rest))) ==> kept1 == b1.skip(v1),
        longest_valid_prefix(kept1 + b2, v2),
    ensures
        kept1 == b1.skip(v1),
        v2 == (kept1 + b2).len(),
        vstd::utf8::decode_utf8(b1.take(v1)) + vstd::utf8::decode_utf8((kept1 + b2).take(v2))
            == vstd::utf8::decode_utf8(b1 + b2),
{
    let whole = b1 + b2;
    assert(whole.take(v1) == b1.take(v1));
    assert(whole.take(v1) == whole.subrange(0, v1));
    if !vstd::utf8::valid_utf8(whole.subrange(v1, whole.len() as int)) {
        vstd::utf8::partial_valid_partial_invalid_utf8(whole, v1);
    }
    assert(whole.subrange(v1, whole.len() as int) =~= b1.skip(v1) + b2);
    assert(vstd::utf8::valid_utf8(b1.skip(v1) + b2));
    let tail = kept1 + b2;
    assert(tail.take(tail.len() as int) == tail);
    assert(whole =~= b1.take(v1) + tail);
    lemma_decode_concat(b1.take(v1), tail);
}

/// The lines joined with `\n` between them.
pub fn join_all(lines: &Vec<Vec<char>>) -> (r: Vec<char>)
    ensures
        r@ == join_lines(lines_view(lines@)),
{
    let mut r: Vec<char> = Vec::new();
    let mut i: usize = 0;
    while i < lines.len()
        invariant
            i <= lines@.len(),
            r@ == join_lines(lines_view(lines@).take(i as int)),
        decreases lines@.len() - i,
    {
        let ghost prev = lines_view(lines@).take(i as int);
        if i > 0 {
            r.push('\n');
        }
        push_all(&mut r, lines[i].as_slice());
        proof {
            let now = lines_view(lines@).take(i + 1);
            assert(now.drop_last() == prev);
            assert(now.last() == lines@[i as int]@);
            if i == 0 {
                assert(prev.len() == 0);
            }
        }
        i = i + 1;
    }
    assert(lines_view(lines@).take(lines@.len() as int) == lines_view(lines@));
    r
}

} // verus!
