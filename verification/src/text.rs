//! Text primitives shared by the rest of the library: the links to `std`'s
//! string functions that the verifier has no description of, conversions
//! between strings and character vectors, and lexicographic byte order.

use vstd::prelude::*;
use vstd::utf8::*;
use vstd::string::*;
use vstd::std_specs::iter::IteratorSpec;

verus! {

/// `String::push` appends one character to the end of the string.
pub assume_specification[ String::push ](s: &mut String, ch: char)
    ensures
        final(s)@ == old(s)@.push(ch),
;

/// The error of `core::str::from_utf8`; only passed through.
#[verifier::external_type_specification]
#[verifier::external_body]
pub struct ExUtf8Error(core::str::Utf8Error);

/// `core::str::from_utf8` succeeds exactly on well-formed UTF-8 and then
/// yields the text that the bytes encode.
pub assume_specification<'a>[ core::str::from_utf8 ](v: &'a [u8]) -> (r: Result<
    &'a str,
    core::str::Utf8Error,
>)
    ensures
        r is Ok <==> valid_utf8(v@),
        r matches Ok(s) ==> s@ == decode_utf8(v@),
;

/// Collects the characters of a string slice, in order.
pub fn to_chars(s: &str) -> (out: Vec<char>)
    ensures
        out@ == s@,
{
    broadcast use vstd::string::group_string_axioms;

    let mut out: Vec<char> = Vec::new();
    let mut it = s.chars();
    loop
        invariant
            out@ + it.remaining() == s@,
            it.obeys_prophetic_iter_laws(),
            it.decrease() is Some,
        decreases it.decrease()->0,
    {
        match it.next() {
            Some(c) => {
                out.push(c);
                assert(out@ + it.remaining() =~= s@);
            },
            None => {
                assert(out@ =~= s@);
                return out;
            },
        }
    }
}

/// Whether `c` is white space: a character with Unicode's `White_Space`
/// property, which is what `char::is_whitespace` tests.
pub open spec fn is_space(c: char) -> bool {
    let n = c as u32;
    ||| 0x09 <= n <= 0x0D
    ||| n == 0x20
    ||| n == 0x85
    ||| n == 0xA0
    ||| n == 0x1680
    ||| 0x2000 <= n <= 0x200A
    ||| n == 0x2028
    ||| n == 0x2029
    ||| n == 0x202F
    ||| n == 0x205F
    ||| n == 0x3000
}

/// Tests a character for white space.
pub fn is_whitespace(c: char) -> (r: bool)
    ensures
        r == is_space(c),
{
    let n: u32 = c as u32;
    (0x09 <= n && n <= 0x0D) || n == 0x20 || n == 0x85 || n == 0xA0 || n == 0x1680 || (0x2000
        <= n && n <= 0x200A) || n == 0x2028 || n == 0x2029 || n == 0x202F || n == 0x205F || n
        == 0x3000
}

/// Whether `c` is an ASCII decimal digit.
pub open spec fn is_digit(c: char) -> bool {
    '0' <= c <= '9'
}

/// Whether `c` is an ASCII letter.
pub open spec fn is_letter(c: char) -> bool {
    ('a' <= c <= 'z') || ('A' <= c <= 'Z')
}

/// The lower-case form of an ASCII upper-case letter; any other character unchanged.
pub open spec fn ascii_lower(c: char) -> char {
    if 'A' <= c <= 'Z' {
        ((c as u8) + 32) as char
    } else {
        c
    }
}

/// Lower-cases an ASCII letter.
pub fn to_ascii_lower(c: char) -> (r: char)
    ensures
        r == ascii_lower(c),
{
    if 'A' <= c && c <= 'Z' {
        ((c as u8) + 32) as char
    } else {
        c
    }
}

/// First index at or after `i` that holds no white space, or the length of `s`.
pub open spec fn skip_spaces(s: Seq<char>, i: int) -> int
    decreases s.len() - i,
{
    if i >= s.len() || !is_space(s[i]) {
        i
    } else {
        skip_spaces(s, i + 1)
    }
}

/// Last index `h` with `lo <= h <= hi` such that `s[h - 1]` is no white space, or `lo`.
pub open spec fn drop_spaces(s: Seq<char>, lo: int, hi: int) -> int
    decreases hi - lo,
{
    if hi <= lo || !is_space(s[hi - 1]) {
        hi
    } else {
        drop_spaces(s, lo, hi - 1)
    }
}

/// `s` without the white space at its two ends.
pub open spec fn trimmed(s: Seq<char>) -> Seq<char> {
    let lo = skip_spaces(s, 0);
    s.subrange(lo, drop_spaces(s, lo, s.len() as int))
}

/// Whether `s` holds nothing but white space.
pub open spec fn is_blank(s: Seq<char>) -> bool {
    forall|i: int| 0 <= i < s.len() ==> is_space(#[trigger] s[i])
}

/// The bounds of `v[lo..hi]` without the white space at its two ends.
pub(crate) fn trim_bounds(v: &Vec<char>, lo: usize, hi: usize) -> (r: (usize, usize))
    requires
        lo <= hi <= v@.len(),
    ensures
        lo <= r.0 <= r.1 <= hi,
        v@.subrange(r.0 as int, r.1 as int) == trimmed(v@.subrange(lo as int, hi as int)),
        r.0 == r.1 <==> is_blank(v@.subrange(lo as int, hi as int)),
{
    let ghost s = v@.subrange(lo as int, hi as int);
    let mut a: usize = lo;
    while a < hi && is_whitespace(v[a])
        invariant
            lo <= a <= hi <= v@.len(),
            s == v@.subrange(lo as int, hi as int),
            skip_spaces(s, 0) == skip_spaces(s, a - lo),
            forall|i: int| 0 <= i < a - lo ==> is_space(#[trigger] s[i]),
        decreases hi - a,
    {
        a = a + 1;
    }
    let mut b: usize = hi;
    while b > a && is_whitespace(v[b - 1])
        invariant
            lo <= a <= b <= hi <= v@.len(),
            s == v@.subrange(lo as int, hi as int),
            a - lo == skip_spaces(s, 0),
            drop_spaces(s, a - lo, s.len() as int) == drop_spaces(s, a - lo, b - lo),
            forall|i: int| b - lo <= i < s.len() ==> is_space(#[trigger] s[i]),
        decreases b - a,
    {
        b = b - 1;
    }
    assert(v@.subrange(a as int, b as int) =~= s.subrange(a - lo, b - lo));
    proof {
        if a == b {
            assert forall|i: int| 0 <= i < s.len() implies is_space(#[trigger] s[i]) by {
                if i >= a - lo {
                    assert(i >= b - lo);
                }
            }
        } else {
            assert(!is_space(s[a - lo]));
        }
    }
    (a, b)
}

/// Builds a string from the characters `v[start..end]`.
pub(crate) fn string_of_range(v: &Vec<char>, start: usize, end: usize) -> (out: String)
    requires
        start <= end <= v@.len(),
    ensures
        out@ == v@.subrange(start as int, end as int),
{
    let mut out = String::new();
    let mut i: usize = start;
    while i < end
        invariant
            start <= i <= end <= v@.len(),
            out@ == v@.subrange(start as int, i as int),
        decreases end - i,
    {
        out.push(v[i]);
        i = i + 1;
    }
    out
}

/// Builds a string from a sequence of characters.
pub fn from_chars(v: &Vec<char>) -> (out: String)
    ensures
        out@ == v@,
{
    let out = string_of_range(v, 0, v.len());
    assert(v@.subrange(0, v@.len() as int) =~= v@);
    out
}

/// Three-way lexicographic comparison of byte strings: negative when `a`
/// comes first, zero when they are equal, positive when `b` comes first.
pub open spec fn lex_order(a: Seq<u8>, b: Seq<u8>) -> int
    decreases a.len(),
{
    if a.len() == 0 && b.len() == 0 {
        0
    } else if a.len() == 0 {
        -1
    } else if b.len() == 0 {
        1
    } else if a[0] < b[0] {
        -1
    } else if a[0] > b[0] {
        1
    } else {
        lex_order(a.drop_first(), b.drop_first())
    }
}

/// Outcome of a three-way comparison.
#[derive(Clone, Copy, Debug, PartialEq, Eq, Structural)]
pub enum Order {
    Before,
    Same,
    After,
}

impl Order {
    /// Whether this outcome is the one that the number `n` stands for.
    pub open spec fn is_sign_of(self, n: int) -> bool {
        match self {
            Order::Before => n < 0,
            Order::Same => n == 0,
            Order::After => n > 0,
        }
    }
}

/// Compares two byte strings lexicographically.
pub fn order_bytes(a: &[u8], b: &[u8]) -> (r: Order)
    ensures
        r.is_sign_of(lex_order(a@, b@)),
{
    let mut i: usize = 0;
    assert(a@.skip(0) =~= a@ && b@.skip(0) =~= b@);
    loop
        invariant
            i <= a@.len(),
            i <= b@.len(),
            lex_order(a@, b@) == lex_order(a@.skip(i as int), b@.skip(i as int)),
        decreases a@.len() - i,
    {
        if i == a.len() && i == b.len() {
            return Order::Same;
        } else if i == a.len() {
            return Order::Before;
        } else if i == b.len() {
            return Order::After;
        } else if a[i] < b[i] {
            return Order::Before;
        } else if a[i] > b[i] {
            return Order::After;
        }
        assert(a@.skip(i as int).drop_first() =~= a@.skip(i + 1));
        assert(b@.skip(i as int).drop_first() =~= b@.skip(i + 1));
        i = i + 1;
    }
}

/// Compares two strings by their UTF-8 bytes, which is how `str` is ordered.
pub fn order_strs(a: &str, b: &str) -> (r: Order)
    ensures
        r.is_sign_of(lex_order(encode_utf8(a@), encode_utf8(b@))),
{
    order_bytes(a.as_bytes(), b.as_bytes())
}

/// Two byte strings compare as the same exactly when they are equal.
pub proof fn lemma_lex_order_same(a: Seq<u8>, b: Seq<u8>)
    ensures
        lex_order(a, b) == 0 <==> a == b,
    decreases a.len(),
{
    if a.len() == 0 || b.len() == 0 {
        if a.len() == 0 && b.len() == 0 {
            assert(a =~= b);
        }
    } else if a[0] == b[0] {
        lemma_lex_order_same(a.drop_first(), b.drop_first());
        if a.drop_first() == b.drop_first() {
            assert(a =~= seq![a[0]] + a.drop_first());
            assert(b =~= seq![b[0]] + b.drop_first());
        }
    }
}

/// Whether two strings hold the same text.
pub fn same_text(a: &str, b: &str) -> (r: bool)
    ensures
        r == (a@ == b@),
{
    let r = order_strs(a, b) == Order::Same;
    proof {
        lemma_lex_order_same(encode_utf8(a@), encode_utf8(b@));
        encode_utf8_decode_utf8(a@);
        encode_utf8_decode_utf8(b@);
    }
    r
}

/// The distinct items of `items`, each at the place of its first appearance.
pub open spec fn first_appearances(items: Seq<Seq<char>>) -> Seq<Seq<char>>
    decreases items.len(),
{
    if items.len() == 0 {
        Seq::empty()
    } else {
        let before = first_appearances(items.drop_last());
        if before.contains(items.last()) {
            before
        } else {
            before.push(items.last())
        }
    }
}

/// The texts that a list of strings holds.
pub open spec fn texts(v: Seq<String>) -> Seq<Seq<char>> {
    v.map_values(|s: String| s@)
}

/// Whether `list` holds `item`.
pub fn holds_text(list: &Vec<String>, item: &str) -> (r: bool)
    ensures
        r == texts(list@).contains(item@),
{
    let mut i: usize = 0;
    while i < list.len()
        invariant
            i <= list@.len(),
            forall|j: int| 0 <= j < i ==> texts(list@)[j] != item@,
        decreases list@.len() - i,
    {
        if same_text(list[i].as_str(), item) {
            assert(texts(list@)[i as int] == item@);
            return true;
        }
        i = i + 1;
    }
    false
}

/// Appends `item` unless the list already holds it.
pub fn push_unique(list: &mut Vec<String>, item: String)
    ensures
        texts(final(list)@) == (if texts(old(list)@).contains(item@) {
            texts(old(list)@)
        } else {
            texts(old(list)@).push(item@)
        }),
{
    if !holds_text(list, item.as_str()) {
        let ghost before = list@;
        list.push(item);
        assert(texts(list@) =~= texts(before).push(item@));
    }
}

/// First index at or after `i` that holds a line feed, or the length of `s`.
pub open spec fn line_end(s: Seq<char>, i: int) -> int
    decreases s.len() - i,
{
    if i >= s.len() {
        s.len() as int
    } else if s[i] == '\n' {
        i
    } else {
        line_end(s, i + 1)
    }
}

/// The line that starts at `i`, without its ending. A line ends with a line
/// feed, or with a carriage return and a line feed; the last line may go
/// without an ending, and then keeps a carriage return at its end.
pub open spec fn line_at(s: Seq<char>, i: int) -> Seq<char> {
    let e = line_end(s, i);
    if e < s.len() && i < e && s[e - 1] == '\r' {
        s.subrange(i, e - 1)
    } else {
        s.subrange(i, e)
    }
}

/// The lines of `s` from index `i` on.
pub open spec fn lines_from(s: Seq<char>, i: int) -> Seq<Seq<char>>
    decreases s.len() - i + 1,
{
    if i < 0 || i >= s.len() {
        Seq::empty()
    } else {
        proof {
            lemma_line_end_bounds(s, i);
        }
        seq![line_at(s, i)] + lines_from(s, line_end(s, i) + 1)
    }
}

/// The lines of `s`, as `str::lines` splits them.
pub open spec fn lines_of(s: Seq<char>) -> Seq<Seq<char>> {
    lines_from(s, 0)
}

/// The line feed that ends the line starting at `i` lies at or after `i`.
pub proof fn lemma_line_end_bounds(s: Seq<char>, i: int)
    requires
        0 <= i <= s.len(),
    ensures
        i <= line_end(s, i) <= s.len(),
    decreases s.len() - i,
{
    if i < s.len() && s[i] != '\n' {
        lemma_line_end_bounds(s, i + 1);
    }
}

/// Finds the line that starts at `i`: where its text ends, and where its
/// line feed stands (the length of `v` for a last line without one).
pub(crate) fn next_line(v: &Vec<char>, i: usize) -> (r: (usize, usize))
    requires
        i < v@.len(),
    ensures
        i <= r.0 <= r.1 <= v@.len(),
        v@.subrange(i as int, r.0 as int) == line_at(v@, i as int),
        r.1 == line_end(v@, i as int),
        lines_from(v@, i as int) == seq![line_at(v@, i as int)] + lines_from(v@, r.1 + 1),
{
    let n: usize = v.len();
    let mut e: usize = i;
    while e < n && v[e] != '\n'
        invariant
            i <= e <= n,
            n == v@.len(),
            line_end(v@, i as int) == line_end(v@, e as int),
        decreases n - e,
    {
        e = e + 1;
    }
    let end: usize = if e < n && i < e && v[e - 1] == '\r' {
        e - 1
    } else {
        e
    };
    (end, e)
}

/// First index at or after `i` that holds white space, or the length of `s`.
pub open spec fn word_end(s: Seq<char>, i: int) -> int
    decreases s.len() - i,
{
    if i >= s.len() || is_space(s[i]) {
        i
    } else {
        word_end(s, i + 1)
    }
}

/// The words of `s` from index `i` on: the maximal runs of characters that
/// are no white space.
pub open spec fn words_from(s: Seq<char>, i: int) -> Seq<Seq<char>>
    decreases s.len() - i,
    via words_from_decreases
{
    if i < 0 || skip_spaces(s, i) >= s.len() {
        Seq::empty()
    } else {
        let a = skip_spaces(s, i);
        seq![s.subrange(a, word_end(s, a))] + words_from(s, word_end(s, a))
    }
}

#[via_fn]
proof fn words_from_decreases(s: Seq<char>, i: int) {
    if !(i < 0 || skip_spaces(s, i) >= s.len()) {
        lemma_skip_spaces_bounds(s, i);
        let a = skip_spaces(s, i);
        lemma_word_end_bounds(s, a);
        assert(word_end(s, a) > a);
    }
}

/// The words of `s`, as `str::split_whitespace` splits them.
pub open spec fn words_of(s: Seq<char>) -> Seq<Seq<char>> {
    words_from(s, 0)
}

/// Skipping white space moves forward, and stops at a character that is none.
pub proof fn lemma_skip_spaces_bounds(s: Seq<char>, i: int)
    requires
        0 <= i,
    ensures
        i <= skip_spaces(s, i),
        i <= s.len() ==> skip_spaces(s, i) <= s.len(),
        skip_spaces(s, i) < s.len() ==> !is_space(s[skip_spaces(s, i)]),
    decreases s.len() - i,
{
    if i < s.len() && is_space(s[i]) {
        lemma_skip_spaces_bounds(s, i + 1);
    }
}

/// A word that starts at a character that is no white space is not empty.
pub proof fn lemma_word_end_bounds(s: Seq<char>, i: int)
    requires
        0 <= i <= s.len(),
    ensures
        i <= word_end(s, i) <= s.len(),
        i < s.len() && !is_space(s[i]) ==> i < word_end(s, i),
    decreases s.len() - i,
{
    if i < s.len() && !is_space(s[i]) {
        lemma_word_end_bounds(s, i + 1);
    }
}

/// Finds the first word of `v[..hi]` at or after `from`.
pub(crate) fn next_word(v: &Vec<char>, from: usize, hi: usize) -> (r: Option<(usize, usize)>)
    requires
        from <= hi <= v@.len(),
    ensures
        r is None <==> words_from(v@.take(hi as int), from as int).len() == 0,
        r matches Some((a, b)) ==> from <= a < b <= hi && words_from(
            v@.take(hi as int),
            from as int,
        ) == seq![v@.subrange(a as int, b as int)] + words_from(v@.take(hi as int), b as int),
{
    let ghost s = v@.take(hi as int);
    let mut a: usize = from;
    while a < hi && is_whitespace(v[a])
        invariant
            from <= a <= hi <= v@.len(),
            s == v@.take(hi as int),
            skip_spaces(s, from as int) == skip_spaces(s, a as int),
        decreases hi - a,
    {
        a = a + 1;
    }
    if a >= hi {
        return None;
    }
    let mut b: usize = a + 1;
    assert(word_end(s, a as int) == word_end(s, a + 1));
    while b < hi && !is_whitespace(v[b])
        invariant
            a < b <= hi <= v@.len(),
            s == v@.take(hi as int),
            word_end(s, a as int) == word_end(s, b as int),
        decreases hi - b,
    {
        b = b + 1;
    }
    assert(s.subrange(a as int, b as int) =~= v@.subrange(a as int, b as int));
    Some((a, b))
}

/// The last word of `s`: what `split_whitespace().last()` gives.
pub open spec fn word_start(s: Seq<char>, hi: int) -> int
    decreases hi,
{
    if hi <= 0 || is_space(s[hi - 1]) {
        hi
    } else {
        word_start(s, hi - 1)
    }
}

/// The last word of `s`, or `None` where `s` is blank.
pub open spec fn last_word(s: Seq<char>) -> Option<Seq<char>> {
    let hi = drop_spaces(s, 0, s.len() as int);
    if hi <= 0 {
        None
    } else {
        Some(s.subrange(word_start(s, hi), hi))
    }
}

/// Finds the last word of `v[lo..hi]`.
pub(crate) fn last_word_bounds(v: &Vec<char>, lo: usize, hi: usize) -> (r: Option<(usize, usize)>)
    requires
        lo <= hi <= v@.len(),
    ensures
        r is Some <==> last_word(v@.subrange(lo as int, hi as int)) is Some,
        r matches Some((a, b)) ==> lo <= a < b <= hi && v@.subrange(a as int, b as int)
            == last_word(v@.subrange(lo as int, hi as int))->0,
{
    let ghost s = v@.subrange(lo as int, hi as int);
    let mut b: usize = hi;
    while b > lo && is_whitespace(v[b - 1])
        invariant
            lo <= b <= hi <= v@.len(),
            s == v@.subrange(lo as int, hi as int),
            drop_spaces(s, 0, s.len() as int) == drop_spaces(s, 0, b - lo),
        decreases b - lo,
    {
        b = b - 1;
    }
    if b == lo {
        return None;
    }
    let mut a: usize = b - 1;
    assert(word_start(s, b - lo) == word_start(s, b - lo - 1));
    while a > lo && !is_whitespace(v[a - 1])
        invariant
            lo <= a < b <= hi <= v@.len(),
            s == v@.subrange(lo as int, hi as int),
            word_start(s, b - lo) == word_start(s, a - lo),
        decreases a - lo,
    {
        a = a - 1;
    }
    assert(s.subrange(a - lo, b - lo) =~= v@.subrange(a as int, b as int));
    Some((a, b))
}

/// Whether `needle` stands in `hay` at index `i`.
pub open spec fn occurs_at(hay: Seq<char>, needle: Seq<char>, i: int) -> bool {
    0 <= i && i + needle.len() <= hay.len() && hay.subrange(i, i + needle.len()) == needle
}

/// The first index at or after `from` at which `needle` stands in `hay`.
pub open spec fn first_occurrence(hay: Seq<char>, needle: Seq<char>, from: int) -> Option<int>
    decreases hay.len() - from + 1,
{
    if from < 0 || from + needle.len() > hay.len() {
        None
    } else if occurs_at(hay, needle, from) {
        Some(from)
    } else {
        first_occurrence(hay, needle, from + 1)
    }
}

/// Whether `needle` stands anywhere in `hay`.
pub open spec fn contains_text(hay: Seq<char>, needle: Seq<char>) -> bool {
    first_occurrence(hay, needle, 0) is Some
}

/// Tests whether `needle` stands in `v` at index `i`.
pub(crate) fn matches_at(v: &Vec<char>, hi: usize, needle: &Vec<char>, i: usize) -> (r: bool)
    requires
        i <= hi <= v@.len(),
    ensures
        r == occurs_at(v@.take(hi as int), needle@, i as int),
{
    let m: usize = needle.len();
    if m > hi - i {
        return false;
    }
    let ghost hay = v@.take(hi as int);
    let mut k: usize = 0;
    while k < m
        invariant
            k <= m,
            m == needle@.len(),
            i + m <= hi <= v@.len(),
            hay == v@.take(hi as int),
            hay.subrange(i as int, i + k) == needle@.take(k as int),
        decreases m - k,
    {
        if v[i + k] != needle[k] {
            assert(hay.subrange(i as int, i + m)[k as int] != needle@[k as int]);
            return false;
        }
        assert(hay.subrange(i as int, i + k + 1) =~= hay.subrange(i as int, i + k).push(hay[i + k]));
        assert(needle@.take(k + 1) =~= needle@.take(k as int).push(needle@[k as int]));
        k = k + 1;
    }
    assert(needle@.take(m as int) =~= needle@);
    true
}

/// Finds the first place at or after `from` where `needle` stands in `v[..hi]`.
pub(crate) fn find_from(v: &Vec<char>, from: usize, hi: usize, needle: &Vec<char>) -> (r: Option<usize>)
    requires
        from <= hi <= v@.len(),
    ensures
        r is Some <==> first_occurrence(v@.take(hi as int), needle@, from as int) is Some,
        r matches Some(i) ==> from <= i && i + needle@.len() <= hi && first_occurrence(
            v@.take(hi as int),
            needle@,
            from as int,
        ) == Some(i as int),
{
    let m: usize = needle.len();
    if m > hi - from {
        return None;
    }
    let last: usize = hi - m;
    let ghost hay = v@.take(hi as int);
    let mut i: usize = from;
    loop
        invariant
            from <= i <= last,
            last + m == hi,
            hi <= v@.len(),
            m == needle@.len(),
            hay == v@.take(hi as int),
            first_occurrence(hay, needle@, from as int) == first_occurrence(hay, needle@, i as int),
        decreases last - i,
    {
        if matches_at(v, hi, needle, i) {
            return Some(i);
        }
        if i >= last {
            assert(first_occurrence(hay, needle@, i + 1) is None);
            return None;
        }
        i = i + 1;
    }
}

/// Turning a comparison round turns its outcome round.
pub proof fn lemma_lex_order_flip(a: Seq<u8>, b: Seq<u8>)
    ensures
        lex_order(a, b) < 0 <==> lex_order(b, a) > 0,
        lex_order(a, b) == 0 <==> lex_order(b, a) == 0,
    decreases a.len(),
{
    if a.len() > 0 && b.len() > 0 && a[0] == b[0] {
        lemma_lex_order_flip(a.drop_first(), b.drop_first());
    }
}

/// Lexicographic order is transitive.
pub proof fn lemma_lex_order_trans(a: Seq<u8>, b: Seq<u8>, c: Seq<u8>)
    requires
        lex_order(a, b) <= 0,
        lex_order(b, c) <= 0,
    ensures
        lex_order(a, c) <= 0,
        lex_order(a, b) < 0 || lex_order(b, c) < 0 ==> lex_order(a, c) < 0,
    decreases a.len(),
{
    if a.len() > 0 && b.len() > 0 && c.len() > 0 && a[0] == b[0] && b[0] == c[0] {
        lemma_lex_order_trans(a.drop_first(), b.drop_first(), c.drop_first());
    }
}

/// Order of two texts by their UTF-8 bytes: how `str` and `String` compare.
pub open spec fn text_order(a: Seq<char>, b: Seq<char>) -> int {
    lex_order(encode_utf8(a), encode_utf8(b))
}

/// Two texts compare as the same exactly when they are equal.
pub proof fn lemma_text_order_same(a: Seq<char>, b: Seq<char>)
    ensures
        text_order(a, b) == 0 <==> a == b,
{
    lemma_lex_order_same(encode_utf8(a), encode_utf8(b));
    encode_utf8_decode_utf8(a);
    encode_utf8_decode_utf8(b);
}

/// Whether the texts stand in strictly ascending order.
pub open spec fn is_ascending(t: Seq<Seq<char>>) -> bool {
    forall|i: int, j: int| 0 <= i < j < t.len() ==> text_order(#[trigger] t[i], #[trigger] t[j]) < 0
}

/// Puts `item` into a strictly ascending list, at its place in the order,
/// unless the list holds it already.
pub(crate) fn insert_ascending(list: &mut Vec<String>, item: &str)
    requires
        is_ascending(texts(old(list)@)),
    ensures
        is_ascending(texts(final(list)@)),
        forall|x: Seq<char>|
            texts(final(list)@).contains(x) <==> (texts(old(list)@).contains(x) || x == item@),
{
    let ghost before = texts(list@);
    let mut p: usize = 0;
    let mut here: Order = Order::After;
    let mut stop: bool = false;
    while p < list.len() && !stop
        invariant
            p <= list@.len(),
            texts(list@) == before,
            forall|i: int| 0 <= i < p ==> text_order(#[trigger] before[i], item@) < 0,
            stop ==> p < list@.len() && here != Order::Before && here.is_sign_of(
                text_order(before[p as int], item@),
            ),
        decreases list@.len() - p + (if stop { 0int } else { 1int }),
    {
        here = order_strs(list[p].as_str(), item);
        assert(before[p as int] == list@[p as int]@);
        if here == Order::Before {
            p = p + 1;
        } else {
            stop = true;
        }
    }
    if stop && here == Order::Same {
        proof {
            assert(before[p as int] == list@[p as int]@);
            lemma_text_order_same(before[p as int], item@);
            assert(before.contains(item@));
        }
        return ;
    }
    list.insert(p, item.to_owned());
    proof {
        let after = texts(list@);
        assert(after =~= before.insert(p as int, item@));
        assert forall|i: int, j: int| 0 <= i < j < after.len() implies text_order(
            #[trigger] after[i],
            #[trigger] after[j],
        ) < 0 by {
            if j < p {
                assert(after[i] == before[i] && after[j] == before[j]);
            } else if j == p {
                assert(after[i] == before[i]);
            } else if i == p {
                // item against a later entry
                lemma_lex_order_flip(encode_utf8(before[p as int]), encode_utf8(item@));
                if j - 1 > p {
                    assert(text_order(before[p as int], before[j - 1]) < 0);
                    lemma_lex_order_trans(
                        encode_utf8(item@),
                        encode_utf8(before[p as int]),
                        encode_utf8(before[j - 1]),
                    );
                }
                assert(after[j] == before[j - 1]);
            } else if i < p {
                assert(after[i] == before[i] && after[j] == before[j - 1]);
            } else {
                assert(after[i] == before[i - 1] && after[j] == before[j - 1]);
            }
        }
        assert forall|x: Seq<char>| after.contains(x) <==> (before.contains(x) || x
            == item@) by {
            if after.contains(x) {
                let k = choose|k: int| 0 <= k < after.len() && after[k] == x;
                if k < p {
                    assert(before[k] == x);
                } else if k > p {
                    assert(before[k - 1] == x);
                }
            }
            if before.contains(x) {
                let k = choose|k: int| 0 <= k < before.len() && before[k] == x;
                if k < p {
                    assert(after[k] == x);
                } else {
                    assert(after[k + 1] == x);
                }
            }
            if x == item@ {
                assert(after[p as int] == x);
            }
        }
    }
}

} // verus!
