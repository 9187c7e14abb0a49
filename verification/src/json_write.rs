//! JSON text written directly: string literals with their escapes, as
//! `serde_json` writes them.
use vstd::prelude::*;
use crate::text::chars_of;

verus! {

/// The lower-case hexadecimal digit for `d` (`d < 16`).
pub open spec fn hex_lower(d: nat) -> char {
    if d < 10 {
        (48 + d) as char
    } else {
        (87 + d) as char
    }
}

/// How a character is written inside a JSON string literal: `"` and `\`
/// behind a backslash, the control characters that have a short escape by
/// it, the other control characters as `\u00XX` in lower-case hex, and every
/// other character as it is.
pub open spec fn escape_char(c: char) -> Seq<char> {
    let u = c as u32;
    if c == '"' {
        seq!['\\', '"']
    } else if c == '\\' {
        seq!['\\', '\\']
    } else if u == 8 {
        seq!['\\', 'b']
    } else if u == 9 {
        seq!['\\', 't']
    } else if u == 10 {
        seq!['\\', 'n']
    } else if u == 12 {
        seq!['\\', 'f']
    } else if u == 13 {
        seq!['\\', 'r']
    } else if u < 0x20 {
        seq!['\\', 'u', '0', '0', hex_lower((u / 16) as nat), hex_lower((u % 16) as nat)]
    } else {
        seq![c]
    }
}

/// The characters of `s`, each written as inside a JSON string literal.
pub open spec fn escaped(s: Seq<char>) -> Seq<char>
    decreases s.len(),
{
    if s.len() == 0 {
        Seq::empty()
    } else {
        escaped(s.drop_last()) + escape_char(s.last())
    }
}

/// `s` as a JSON string literal: quoted and escaped.
pub open spec fn json_string(s: Seq<char>) -> Seq<char> {
    seq!['"'] + escaped(s) + seq!['"']
}

fn hex_lower_char(d: u32) -> (c: char)
    requires
        d < 16,
    ensures
        c == hex_lower(d as nat),
{
    let digits: [char; 16] = ['0', '1', '2', '3', '4', '5', '6', '7', '8', '9', 'a', 'b', 'c', 'd', 'e', 'f'];
    let c = digits[d as usize];
    assert(c == hex_lower(d as nat)) by {
        assert(digits@ =~= seq!['0', '1', '2', '3', '4', '5', '6', '7', '8', '9', 'a', 'b', 'c', 'd', 'e', 'f']);
    }
    c
}

/// Appends the JSON escape of one character to `v`.
pub fn push_escaped_char(v: &mut Vec<char>, c: char)
    ensures
        final(v)@ == old(v)@ + escape_char(c),
{
    let u = c as u32;
    if c == '"' {
        v.push('\\');
        v.push('"');
    } else if c == '\\' {
        v.push('\\');
        v.push('\\');
    } else if u == 8 {
        v.push('\\');
        v.push('b');
    } else if u == 9 {
        v.push('\\');
        v.push('t');
    } else if u == 10 {
        v.push('\\');
        v.push('n');
    } else if u == 12 {
        v.push('\\');
        v.push('f');
    } else if u == 13 {
        v.push('\\');
        v.push('r');
    } else if u < 0x20 {
        v.push('\\');
        v.push('u');
        v.push('0');
        v.push('0');
        v.push(hex_lower_char(u / 16));
        v.push(hex_lower_char(u % 16));
    } else {
        v.push(c);
    }
    assert(final(v)@ =~= old(v)@ + escape_char(c));
}

/// Appends `s` as a JSON string literal to `v`.
pub fn push_json_string(v: &mut Vec<char>, s: &str)
    ensures
        final(v)@ == old(v)@ + json_string(s@),
{
    let cs = chars_of(s);
    v.push('"');
    let mut i: usize = 0;
    while i < cs.len()
        invariant
            i <= cs@.len(),
            cs@ == s@,
            v@ == old(v)@ + seq!['"'] + escaped(cs@.take(i as int)),
        decreases cs@.len() - i,
    {
        proof {
            assert(cs@.take(i + 1 as int).drop_last() =~= cs@.take(i as int));
            assert(cs@.take(i + 1 as int).last() == cs@[i as int]);
        }
        push_escaped_char(v, cs[i]);
        i = i + 1;
    }
    v.push('"');
    assert(cs@.take(cs@.len() as int) =~= cs@);
    assert(v@ =~= old(v)@ + json_string(s@));
}

} // verus!
