//! Turns arbitrary text into a prefix that can stand at the start of an
//! exported symbol name.

use vstd::prelude::*;
use crate::text::{is_digit, is_letter, to_chars};

verus! {

/// Whether `c` may stand in a prefix: an ASCII letter, an ASCII digit or `_`.
pub open spec fn is_word_char(c: char) -> bool {
    is_letter(c) || is_digit(c) || c == '_'
}

/// `c` itself where it may stand in a prefix, else `_`.
pub open spec fn clean_char(c: char) -> char {
    if is_word_char(c) {
        c
    } else {
        '_'
    }
}

/// The prefix made from `s`: every character that may not stand in a prefix
/// becomes `_`; an empty result becomes `_`; a result that starts with a digit
/// gets `_` in front.
pub open spec fn sanitized(s: Seq<char>) -> Seq<char> {
    let mapped = s.map_values(|c: char| clean_char(c));
    if mapped.len() == 0 {
        seq!['_']
    } else if is_digit(mapped[0]) {
        seq!['_'] + mapped
    } else {
        mapped
    }
}

/// Whether `s` matches `[A-Za-z_][A-Za-z0-9_]*`.
pub open spec fn is_identifier(s: Seq<char>) -> bool {
    &&& s.len() > 0
    &&& !is_digit(s[0])
    &&& forall|i: int| 0 <= i < s.len() ==> is_word_char(#[trigger] s[i])
}

/// Tests a character for being a letter, a digit or `_`.
fn word_char(c: char) -> (r: bool)
    ensures
        r == is_word_char(c),
{
    ('a' <= c && c <= 'z') || ('A' <= c && c <= 'Z') || ('0' <= c && c <= '9') || c == '_'
}

/// Makes a prefix from arbitrary text. Total: every input has a prefix.
pub fn sanitize(s: &str) -> (out: String)
    ensures
        out@ == sanitized(s@),
        is_identifier(out@),
{
    let chars = to_chars(s);
    let mut out = String::new();
    let ghost mapped = s@.map_values(|c: char| clean_char(c));
    if chars.len() == 0 {
        out.push('_');
        assert(out@ =~= seq!['_']);
        return out;
    }
    let first: char = chars[0];
    if '0' <= first && first <= '9' {
        out.push('_');
    }
    let ghost head = out@;
    assert(head =~= if is_digit(mapped[0]) {
        seq!['_']
    } else {
        Seq::<char>::empty()
    });
    let mut i: usize = 0;
    while i < chars.len()
        invariant
            i <= chars@.len(),
            chars@ == s@,
            mapped == s@.map_values(|c: char| clean_char(c)),
            out@ == head + mapped.take(i as int),
        decreases chars@.len() - i,
    {
        let c: char = chars[i];
        if word_char(c) {
            out.push(c);
        } else {
            out.push('_');
        }
        assert(mapped.take(i + 1) =~= mapped.take(i as int).push(clean_char(c)));
        assert(out@ =~= head + mapped.take(i + 1));
        i = i + 1;
    }
    assert(mapped.take(chars@.len() as int) =~= mapped);
    assert(out@ =~= sanitized(s@));
    proof {
        lemma_sanitized_is_identifier(s@);
    }
    out
}

/// Every prefix is non-empty, holds only letters, digits and `_`, and does
/// not start with a digit.
pub proof fn lemma_sanitized_is_identifier(s: Seq<char>)
    ensures
        is_identifier(sanitized(s)),
{
    let mapped = s.map_values(|c: char| clean_char(c));
    assert forall|i: int| 0 <= i < mapped.len() implies is_word_char(#[trigger] mapped[i]) by {
        assert(mapped[i] == clean_char(s[i]));
    }
    let out = sanitized(s);
    assert forall|i: int| 0 <= i < out.len() implies is_word_char(#[trigger] out[i]) by {
        if mapped.len() > 0 && is_digit(mapped[0]) && i > 0 {
            assert(out[i] == mapped[i - 1]);
        }
    }
}

/// Text that already is a prefix is its own prefix.
pub proof fn lemma_identifier_unchanged(s: Seq<char>)
    requires
        is_identifier(s),
    ensures
        sanitized(s) == s,
{
    let mapped = s.map_values(|c: char| clean_char(c));
    assert(mapped =~= s);
}

/// Making a prefix from a prefix changes nothing.
pub proof fn lemma_sanitize_idempotent(s: Seq<char>)
    ensures
        sanitized(sanitized(s)) == sanitized(s),
{
    lemma_sanitized_is_identifier(s);
    lemma_identifier_unchanged(sanitized(s));
}

} // verus!
