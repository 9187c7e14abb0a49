//! The security policy: rejects events whose text mentions the `rm` or
//! `sudo` command as a whole word (ASCII case-insensitive).
use vstd::prelude::*;
use crate::frame::{framed, write_output};
use crate::text::utf8_check;
use vstd::string::StringSliceAdditionalSpecFns;

verus! {

/// Word characters: ASCII letters, ASCII digits and `_`.
pub open spec fn word_byte(b: u8) -> bool {
    (48 <= b && b <= 57) || (65 <= b && b <= 90) || (97 <= b && b <= 122) || b == 95
}

/// The ASCII lower-case form of a byte (other bytes are unchanged).
pub open spec fn lower_byte(b: u8) -> u8 {
    if 65 <= b && b <= 90 {
        (b + 32) as u8
    } else {
        b
    }
}

/// `needle` equals `hay[i..i + needle.len()]`, ignoring ASCII case.
pub open spec fn same_ignoring_case_at(hay: Seq<u8>, needle: Seq<u8>, i: int) -> bool {
    forall|j: int| 0 <= j < needle.len() ==> lower_byte(#[trigger] hay[i + j]) == lower_byte(
        needle[j],
    )
}

/// `needle` occurs at `i` in `hay` (ignoring ASCII case) with no word byte
/// just before or just after it.
pub open spec fn word_at(hay: Seq<u8>, needle: Seq<u8>, i: int) -> bool {
    &&& 0 <= i
    &&& i + needle.len() <= hay.len()
    &&& same_ignoring_case_at(hay, needle, i)
    &&& (i == 0 || !word_byte(hay[i - 1]))
    &&& (i + needle.len() >= hay.len() || !word_byte(hay[i + needle.len()]))
}

/// `needle` occurs as a whole word somewhere in `hay`.
pub open spec fn has_word(hay: Seq<u8>, needle: Seq<u8>) -> bool {
    exists|i: int| word_at(hay, needle, i)
}

/// The bytes of `rm`.
pub open spec fn rm_bytes() -> Seq<u8> {
    seq![114u8, 109u8]
}

/// The bytes of `sudo`.
pub open spec fn sudo_bytes() -> Seq<u8> {
    seq![115u8, 117u8, 100u8, 111u8]
}

/// Whether the text bytes mention a dangerous command.
pub open spec fn dangerous(text: Seq<u8>) -> bool {
    has_word(text, rm_bytes()) || has_word(text, sudo_bytes())
}

/// Whether `b` is a word character.
pub fn is_word_char(b: u8) -> (r: bool)
    ensures
        r == word_byte(b),
{
    (48u8 <= b && b <= 57u8) || (65u8 <= b && b <= 90u8) || (97u8 <= b && b <= 122u8) || b == 95u8
}

fn to_lower_byte(b: u8) -> (r: u8)
    ensures
        r == lower_byte(b),
{
    if 65u8 <= b && b <= 90u8 {
        b + 32
    } else {
        b
    }
}

fn same_ignoring_case(hay: &[u8], needle: &[u8], i: usize) -> (r: bool)
    requires
        i + needle@.len() <= hay@.len(),
    ensures
        r == same_ignoring_case_at(hay@, needle@, i as int),
{
    let mut j: usize = 0;
    while j < needle.len()
        invariant
            i + needle@.len() <= hay@.len(),
            hay@.len() == hay.len(),
            j <= needle@.len(),
            forall|k: int| 0 <= k < j ==> lower_byte(#[trigger] hay@[i + k]) == lower_byte(
                needle@[k],
            ),
        decreases needle@.len() - j,
    {
        if to_lower_byte(hay[i + j]) != to_lower_byte(needle[j]) {
            return false;
        }
        j = j + 1;
    }
    true
}

/// Whether `needle` occurs in `hay` as a whole word (ASCII case-insensitive),
/// byte by byte.
pub fn contains_word_bytes(hay: &[u8], needle: &[u8]) -> (r: bool)
    ensures
        r == has_word(hay@, needle@),
{
    let n = needle.len();
    if hay.len() < n {
        return false;
    }
    let mut i: usize = 0;
    while i <= hay.len() - n
        invariant
            n == needle@.len(),
            n <= hay@.len(),
            hay@.len() == hay.len(),
            i <= hay@.len() - n + 1,
            forall|k: int| 0 <= k < i ==> !word_at(hay@, needle@, k),
        decreases hay@.len() - n + 1 - i,
    {
        if same_ignoring_case(hay, needle, i) {
            let before_ok = i == 0 || !is_word_char(hay[i - 1]);
            let after_ok = i + n >= hay.len() || !is_word_char(hay[i + n]);
            if before_ok && after_ok {
                assert(word_at(hay@, needle@, i as int));
                return true;
            }
        }
        if i == hay.len() - n {
            proof {
                assert forall|k: int| !word_at(hay@, needle@, k) by {
                    if 0 <= k && k <= i {
                    }
                }
            }
            return false;
        }
        i = i + 1;
    }
    proof {
        assert forall|k: int| !word_at(hay@, needle@, k) by {}
    }
    false
}

/// Whether `needle` occurs in `haystack` as a whole word, comparing the UTF-8
/// bytes and ignoring ASCII case.
pub fn contains_as_word(haystack: &str, needle: &str) -> (r: bool)
    ensures
        r == has_word(haystack.spec_bytes(), needle.spec_bytes()),
{
    contains_word_bytes(haystack.as_bytes(), needle.as_bytes())
}

/// Whether the text mentions `rm` or `sudo` as a whole word.
pub fn contains_dangerous_command(text: &str) -> (r: bool)
    ensures
        r == dangerous(text.spec_bytes()),
{
    let rm: [u8; 2] = [114u8, 109u8];
    let sudo: [u8; 4] = [115u8, 117u8, 100u8, 111u8];
    assert(rm@ == rm_bytes());
    assert(sudo@ == sudo_bytes());
    let t = text.as_bytes();
    contains_word_bytes(t, &rm) || contains_word_bytes(t, &sudo)
}

/// The policy answer for an input: `{"allow":true}` or `{"allow":false}` as text.
pub open spec fn verdict_json(allow: bool) -> Seq<u8> {
    if allow {
        seq![123u8, 34, 97, 108, 108, 111, 119, 34, 58, 116, 114, 117, 101, 125]
    } else {
        seq![123u8, 34, 97, 108, 108, 111, 119, 34, 58, 102, 97, 108, 115, 101, 125]
    }
}

/// Whether the policy lets an input through: input that is not UTF-8 is read
/// as empty text, which is let through.
pub open spec fn policy_allows(input: Seq<u8>) -> bool {
    !vstd::utf8::valid_utf8(input) || !dangerous(input)
}

/// The bytes of `word` stand at `i` in `t` as a whole word: ASCII case
/// ignored, and no ASCII letter, digit or `_` just before or just after.
pub open spec fn whole_word_at(t: Seq<u8>, word: Seq<u8>, i: int) -> bool {
    &&& 0 <= i
    &&& i + word.len() <= t.len()
    &&& forall|j: int| 0 <= j < word.len() ==> lower_byte(#[trigger] t[i + j]) == word[j]
    &&& (i == 0 || !word_byte(t[i - 1]))
    &&& (i + word.len() == t.len() || !word_byte(t[i + word.len()]))
}

proof fn lemma_whole_word(t: Seq<u8>, word: Seq<u8>, i: int)
    requires
        forall|j: int| 0 <= j < word.len() ==> lower_byte(#[trigger] word[j]) == word[j],
    ensures
        whole_word_at(t, word, i) <==> word_at(t, word, i),
{
    if whole_word_at(t, word, i) {
        assert forall|j: int| 0 <= j < word.len() implies lower_byte(#[trigger] t[i + j]) == lower_byte(word[j]) by {
            assert(lower_byte(t[i + j]) == word[j]);
        }
    }
    if word_at(t, word, i) {
        assert forall|j: int| 0 <= j < word.len() implies lower_byte(#[trigger] t[i + j]) == word[j] by {
            assert(lower_byte(t[i + j]) == lower_byte(word[j]));
        }
    }
}

/// Neither `rm` nor `sudo` stands anywhere in `t` as a whole word.
pub open spec fn no_dangerous_word(t: Seq<u8>) -> bool {
    forall|i: int|
        #![trigger whole_word_at(t, rm_bytes(), i)]
        #![trigger whole_word_at(t, sudo_bytes(), i)]
        !whole_word_at(t, rm_bytes(), i) && !whole_word_at(t, sudo_bytes(), i)
}

/// The security policy refuses an event exactly when its text names `rm` or
/// `sudo` as a whole word: for UTF-8 input, the verdict is "allow" exactly
/// when neither `rm` nor `sudo` (ASCII case ignored) stands anywhere in it
/// as a whole word; input that is not UTF-8 is read as empty text and let
/// through.
pub proof fn law_security_verdict(input: Seq<u8>)
    ensures
        vstd::utf8::valid_utf8(input) ==> (policy_allows(input) <==> no_dangerous_word(input)),
        !vstd::utf8::valid_utf8(input) ==> policy_allows(input),
{
    lemma_has_whole_word(input, rm_bytes());
    lemma_has_whole_word(input, sudo_bytes());
    if vstd::utf8::valid_utf8(input) {
        if policy_allows(input) {
            assert(!has_word(input, rm_bytes()));
            assert(!has_word(input, sudo_bytes()));
            assert forall|i: int|
                #![trigger whole_word_at(input, rm_bytes(), i)]
                #![trigger whole_word_at(input, sudo_bytes(), i)]
                !whole_word_at(input, rm_bytes(), i) && !whole_word_at(input, sudo_bytes(), i) by {
                if whole_word_at(input, rm_bytes(), i) {
                    assert(exists|k: int| #[trigger] whole_word_at(input, rm_bytes(), k));
                }
                if whole_word_at(input, sudo_bytes(), i) {
                    assert(exists|k: int| #[trigger] whole_word_at(input, sudo_bytes(), k));
                }
            }
        } else {
            assert(has_word(input, rm_bytes()) || has_word(input, sudo_bytes()));
            if has_word(input, rm_bytes()) {
                let k = choose|k: int| #[trigger] whole_word_at(input, rm_bytes(), k);
                assert(whole_word_at(input, rm_bytes(), k));
            } else {
                let k = choose|k: int| #[trigger] whole_word_at(input, sudo_bytes(), k);
                assert(whole_word_at(input, sudo_bytes(), k));
            }
            assert(!no_dangerous_word(input));
        }
    }
}

/// `has_word` holds exactly when the word stands somewhere as a whole word.
proof fn lemma_has_whole_word(t: Seq<u8>, word: Seq<u8>)
    requires
        word == rm_bytes() || word == sudo_bytes(),
    ensures
        has_word(t, word) <==> exists|i: int| #[trigger] whole_word_at(t, word, i),
{
    assert forall|j: int| 0 <= j < word.len() implies lower_byte(#[trigger] word[j]) == word[j] by {
        if word == rm_bytes() {
            assert(j == 0 || j == 1);
        } else {
            assert(j == 0 || j == 1 || j == 2 || j == 3);
        }
    }
    if has_word(t, word) {
        let i = choose|i: int| word_at(t, word, i);
        lemma_whole_word(t, word, i);
        assert(whole_word_at(t, word, i));
    }
    if exists|i: int| #[trigger] whole_word_at(t, word, i) {
        let i = choose|i: int| #[trigger] whole_word_at(t, word, i);
        lemma_whole_word(t, word, i);
        assert(word_at(t, word, i));
    }
}

/// A UTF-8 event whose text runs `rm` or `sudo` as a whole word is refused:
/// the plugin answers `{"allow":false}`.
pub proof fn law_dangerous_refused(input: Seq<u8>, word: Seq<u8>, i: int)
    requires
        vstd::utf8::valid_utf8(input),
        word == rm_bytes() || word == sudo_bytes(),
        whole_word_at(input, word, i),
    ensures
        !policy_allows(input),
        verdict_json(policy_allows(input)) == seq![123u8, 34, 97, 108, 108, 111, 119, 34, 58, 102, 97, 108, 115, 101, 125],
{
    law_security_verdict(input);
    if word == rm_bytes() {
        assert(whole_word_at(input, rm_bytes(), i));
    } else {
        assert(whole_word_at(input, sudo_bytes(), i));
    }
}

/// The security policy on the raw event bytes: the framed answer.
pub fn process(input: &[u8]) -> (out: Vec<u8>)
    ensures
        out@ == framed(verdict_json(policy_allows(input@))),
{
    let check = utf8_check(input);
    let rm: [u8; 2] = [114u8, 109u8];
    let sudo: [u8; 4] = [115u8, 117u8, 100u8, 111u8];
    assert(rm@ == rm_bytes());
    assert(sudo@ == sudo_bytes());
    assert(input@.take(input@.len() as int) == input@);
    let allow = if check.valid_up_to == input.len() {
        !contains_word_bytes(input, &rm) && !contains_word_bytes(input, &sudo)
    } else {
        true
    };
    let json: Vec<u8> = if allow {
        vec![123u8, 34, 97, 108, 108, 111, 119, 34, 58, 116, 114, 117, 101, 125]
    } else {
        vec![123u8, 34, 97, 108, 108, 111, 119, 34, 58, 102, 97, 108, 115, 101, 125]
    };
    assert(json@ == verdict_json(allow));
    write_output(json.as_slice())
}

} // verus!
