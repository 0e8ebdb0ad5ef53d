//! The rules of a module: which of its functions get the prefix, and what
//! their export names look like.

use vstd::prelude::*;
use vstd::string::*;
use regex::Regex;
use vstd::utf8::encode_utf8;
use crate::text::{
    find_from, first_occurrence, from_chars, same_text, string_of_range, texts, to_chars,
    trim_bounds, trimmed,
};

verus! {

/// A compiled regular expression of the `regex` crate.
#[verifier::external_type_specification]
#[verifier::external_body]
pub struct ExRegex(Regex);

/// The pattern that a compiled regular expression was made from.
pub uninterp spec fn regex_source(re: Regex) -> Seq<char>;

/// What compiling `pattern` gives: nothing to report for a pattern that the
/// `regex` crate accepts, else the crate's error message.
pub uninterp spec fn regex_check(pattern: Seq<char>) -> Result<(), Seq<char>>;

/// Whether the regular expression that `Regex::new` compiles from `pattern`
/// has a match anywhere in `text`.
pub uninterp spec fn regex_matches(pattern: Seq<char>, text: Seq<char>) -> bool;

/// Whether the compiled expression `re` has a match anywhere in `text`. This
/// depends on the compiled value, which holds more than its pattern: the
/// options it was built with.
pub uninterp spec fn regex_accepts(re: Regex, text: Seq<char>) -> bool;

/// Whether `re` matches as the expression that `Regex::new` compiles from
/// its own pattern: it was built with no option changed.
pub open spec fn is_plain(re: Regex) -> bool {
    forall|t: Seq<char>| #[trigger] regex_accepts(re, t) == regex_matches(regex_source(re), t)
}

/// `Regex::new`: compiles a pattern. Whether it compiles, and with which
/// message it fails, depends on the pattern alone; what is compiled remembers
/// the pattern and matches as the pattern says under the default options.
#[verifier::external_body]
fn compile(pattern: &str) -> (r: Result<Regex, String>)
    ensures
        r is Ok <==> regex_check(pattern@) is Ok,
        r matches Ok(re) ==> regex_source(re) == pattern@,
        (r matches Ok(re) ==> forall|t: Seq<char>|
            #[trigger] regex_accepts(re, t) == regex_matches(pattern@, t)),
        (r matches Err(msg) ==> regex_check(pattern@) == Err::<(), Seq<char>>(msg@)),
{
    match Regex::new(pattern) {
        Ok(re) => Ok(re),
        Err(e) => Err(e.to_string()),
    }
}

/// `Regex::is_match`: whether the compiled expression has a match anywhere
/// in `text`. The outcome depends on the compiled value and the text alone.
#[verifier::external_body]
fn is_match(re: &Regex, text: &str) -> (b: bool)
    ensures
        b == regex_accepts(*re, text@),
{
    re.is_match(text)
}

/// First index at or after `i` that holds a comma, or the length of `s`.
pub open spec fn comma_end(s: Seq<char>, i: int) -> int
    decreases s.len() - i,
{
    if i >= s.len() || s[i] == ',' {
        i
    } else {
        comma_end(s, i + 1)
    }
}

/// The items of a comma-separated list from index `i` on: the pieces
/// between commas, trimmed, without the empty ones.
pub open spec fn csv_from(s: Seq<char>, i: int) -> Seq<Seq<char>>
    decreases s.len() - i + 1,
{
    if i < 0 || i > s.len() {
        Seq::empty()
    } else {
        proof {
            lemma_comma_end_bounds(s, i);
        }
        let e = comma_end(s, i);
        let item = trimmed(s.subrange(i, e));
        let head = if item.len() > 0 {
            seq![item]
        } else {
            Seq::empty()
        };
        head + csv_from(s, e + 1)
    }
}

/// The comma that ends the piece starting at `i` lies at or after `i`.
pub proof fn lemma_comma_end_bounds(s: Seq<char>, i: int)
    requires
        0 <= i <= s.len(),
    ensures
        i <= comma_end(s, i) <= s.len(),
    decreases s.len() - i,
{
    if i < s.len() && s[i] != ',' {
        lemma_comma_end_bounds(s, i + 1);
    }
}

/// The items of a comma-separated list.
pub open spec fn csv_items(s: Seq<char>) -> Seq<Seq<char>> {
    csv_from(s, 0)
}

/// Splits a comma-separated list into its items.
pub fn parse_csv(value: &str) -> (items: Vec<String>)
    ensures
        texts(items@) == csv_items(value@),
{
    let chars = to_chars(value);
    let n: usize = chars.len();
    let mut items: Vec<String> = Vec::new();
    let mut i: usize = 0;
    let mut done: bool = false;
    assert(texts(items@) + csv_from(chars@, 0) =~= csv_items(chars@));
    while !done
        invariant
            i <= n,
            n == chars@.len(),
            !done ==> texts(items@) + csv_from(chars@, i as int) == csv_items(chars@),
            done ==> texts(items@) == csv_items(chars@),
        decreases n - i + (if done { 0int } else { 1int }),
    {
        let mut e: usize = i;
        while e < n && chars[e] != ','
            invariant
                i <= e <= n,
                n == chars@.len(),
                comma_end(chars@, i as int) == comma_end(chars@, e as int),
            decreases n - e,
        {
            e = e + 1;
        }
        let (lo, hi) = trim_bounds(&chars, i, e);
        let ghost before = texts(items@);
        if lo < hi {
            items.push(string_of_range(&chars, lo, hi));
            assert(texts(items@) =~= before.push(chars@.subrange(lo as int, hi as int)));
        }
        proof {
            let item = trimmed(chars@.subrange(i as int, e as int));
            let head = if item.len() > 0 {
                seq![item]
            } else {
                Seq::<Seq<char>>::empty()
            };
            assert(texts(items@) =~= before + head);
            assert(before + (head + csv_from(chars@, e + 1)) =~= texts(items@) + csv_from(
                chars@,
                e + 1,
            ));
        }
        if e >= n {
            assert(csv_from(chars@, e + 1) =~= Seq::<Seq<char>>::empty());
            assert(texts(items@) + Seq::<Seq<char>>::empty() =~= texts(items@));
            done = true;
        } else {
            i = e + 1;
        }
    }
    items
}

/// Whether `s` holds a bracket or a brace: the signs of glob classes and
/// alternatives, which the rules do not know.
pub open spec fn has_bracket(s: Seq<char>) -> bool {
    exists|i: int| 0 <= i < s.len() && is_bracket(#[trigger] s[i])
}

/// Whether `c` is one of `[`, `]`, `{`, `}`.
pub open spec fn is_bracket(c: char) -> bool {
    c == '[' || c == ']' || c == '{' || c == '}'
}

/// Tests a glob for holding a bracket or a brace.
fn bracketed(g: &str) -> (r: bool)
    ensures
        r == has_bracket(g@),
{
    let chars = to_chars(g);
    let mut i: usize = 0;
    while i < chars.len()
        invariant
            i <= chars@.len(),
            chars@ == g@,
            forall|j: int| 0 <= j < i ==> !is_bracket(#[trigger] g@[j]),
        decreases chars@.len() - i,
    {
        let c: char = chars[i];
        if c == '[' || c == ']' || c == '{' || c == '}' {
            assert(is_bracket(g@[i as int]));
            return true;
        }
        i = i + 1;
    }
    false
}

/// Whether the bytes of `p` from `pi` on are all `*`.
pub open spec fn only_stars(p: Seq<u8>, pi: int) -> bool {
    forall|k: int| #![trigger p[k]] pi <= k < p.len() ==> p[k] == 42u8
}

/// Whether the wildcard pattern `p` matches `t`, given that the matching
/// stands at `pi` in the pattern and at `ti` in the text, that the last `*`
/// passed stands at `star` (-1 when none was passed), and that this `*` is
/// being tried as covering the text up to `mark`.
///
/// In a pattern `?` stands for any one byte and `*` for any run of bytes.
/// Bytes are matched from the left; a pattern byte that equals the text byte
/// it faces is taken as that byte, also where it is a `*`. When the matching
/// gets stuck, the last `*` passed is made to cover one byte more.
pub open spec fn wildcard_from(p: Seq<u8>, t: Seq<u8>, pi: int, ti: int, star: int, mark: int) -> bool
    decreases t.len() - mark, t.len() - ti, p.len() - pi,
    when 0 <= mark <= ti <= t.len() && -1 <= star < pi <= p.len()
{
    if ti >= t.len() {
        only_stars(p, pi)
    } else if pi < p.len() && (p[pi] == 63u8 || p[pi] == t[ti]) {
        wildcard_from(p, t, pi + 1, ti + 1, star, mark)
    } else if pi < p.len() && p[pi] == 42u8 {
        wildcard_from(p, t, pi + 1, ti, pi, ti)
    } else if star >= 0 {
        wildcard_from(p, t, star + 1, mark + 1, star, mark + 1)
    } else {
        false
    }
}

/// Whether the wildcard pattern `p` matches the whole of `t`.
pub open spec fn wildcard_matches(p: Seq<u8>, t: Seq<u8>) -> bool {
    wildcard_from(p, t, 0, 0, -1, 0)
}

/// Whether the wildcard pattern `p` from `pi` on matches `t` from `ti` on,
/// where `?` stands for any one byte, `*` for any run of bytes, and any
/// other byte for itself.
pub open spec fn glob_at(p: Seq<u8>, t: Seq<u8>, pi: int, ti: int) -> bool
    decreases p.len() - pi, t.len() - ti,
{
    if pi < 0 || pi >= p.len() {
        ti >= t.len()
    } else if p[pi] == 42u8 {
        glob_at(p, t, pi + 1, ti) || (0 <= ti < t.len() && glob_at(p, t, pi, ti + 1))
    } else {
        0 <= ti < t.len() && (p[pi] == 63u8 || p[pi] == t[ti]) && glob_at(p, t, pi + 1, ti + 1)
    }
}

/// Whether `t` holds no `*`.
pub open spec fn star_free(t: Seq<u8>) -> bool {
    forall|k: int| #![trigger t[k]] 0 <= k < t.len() ==> t[k] != 42u8
}

/// Whether the pattern bytes `p[a..b]` are no `*` and match, one by one, the
/// text bytes from `m` on.
spec fn literal(p: Seq<u8>, t: Seq<u8>, a: int, b: int, m: int) -> bool {
    forall|k: int|
        #![trigger p[k]]
        a <= k < b ==> p[k] != 42u8 && 0 <= m + (k - a) < t.len() && (p[k] == 63u8 || p[k] == t[m
            + (k - a)])
}

/// At the end of the text, what is left of a pattern matches exactly when
/// it is all `*`.
proof fn lemma_glob_at_end(p: Seq<u8>, t: Seq<u8>, pi: int, ti: int)
    requires
        0 <= pi <= p.len(),
        ti >= t.len(),
    ensures
        glob_at(p, t, pi, ti) == only_stars(p, pi),
    decreases p.len() - pi,
{
    if pi < p.len() {
        if p[pi] == 42u8 {
            lemma_glob_at_end(p, t, pi + 1, ti);
            assert(only_stars(p, pi) == only_stars(p, pi + 1)) by {
                if only_stars(p, pi + 1) {
                    assert forall|k: int| #![trigger p[k]] pi <= k < p.len() implies p[k] == 42u8 by {
                        if k > pi {
                            assert(pi + 1 <= k);
                        }
                    }
                }
            }
        } else {
            assert(p[pi] != 42u8);
        }
    }
}

/// A run of pattern bytes that match the text one by one can be passed over.
proof fn lemma_literal_passes(p: Seq<u8>, t: Seq<u8>, a: int, b: int, m: int)
    requires
        0 <= a <= b <= p.len(),
        0 <= m,
        literal(p, t, a, b, m),
    ensures
        glob_at(p, t, a, m) == glob_at(p, t, b, m + (b - a)),
    decreases b - a,
{
    if a < b {
        assert(p[a] != 42u8);
        assert(0 <= m + (a - a) < t.len());
        assert(p[a] == 63u8 || p[a] == t[m + (a - a)]);
        assert forall|k: int| #![trigger p[k]] a + 1 <= k < b implies p[k] != 42u8 && 0 <= (m + 1)
            + (k - (a + 1)) < t.len() && (p[k] == 63u8 || p[k] == t[(m + 1) + (k - (a + 1))]) by {
            assert(m + (k - a) == (m + 1) + (k - (a + 1)));
        }
        lemma_literal_passes(p, t, a + 1, b, m + 1);
    }
}

/// Where a pattern matches from a run of bytes that are no `*`, the run
/// matches the text one by one.
proof fn lemma_plain_run_is_literal(p: Seq<u8>, t: Seq<u8>, a: int, b: int, m: int)
    requires
        0 <= a <= b <= p.len(),
        0 <= m,
        0 <= m <= t.len(),
        forall|k: int| #![trigger p[k]] a <= k < b ==> p[k] != 42u8,
        glob_at(p, t, a, m),
    ensures
        m + (b - a) <= t.len(),
        literal(p, t, a, b, m),
        glob_at(p, t, b, m + (b - a)),
    decreases b - a,
{
    if a < b {
        assert(p[a] != 42u8);
        lemma_plain_run_is_literal(p, t, a + 1, b, m + 1);
        assert forall|k: int| #![trigger p[k]] a <= k < b implies p[k] != 42u8 && 0 <= m + (k - a)
            < t.len() && (p[k] == 63u8 || p[k] == t[m + (k - a)]) by {
            if k > a {
                assert(m + (k - a) == (m + 1) + (k - (a + 1)));
            }
        }
    }
}

/// A `*` that matches from some place in the text matches from every
/// earlier place.
proof fn lemma_star_reaches_back(p: Seq<u8>, t: Seq<u8>, pi: int, ti: int, j: int)
    requires
        0 <= pi < p.len(),
        p[pi] == 42u8,
        0 <= ti <= j <= t.len(),
        glob_at(p, t, pi, j),
    ensures
        glob_at(p, t, pi, ti),
    decreases j - ti,
{
    if ti < j {
        lemma_star_reaches_back(p, t, pi, ti + 1, j);
    }
}

/// Where a `*` is followed by a run of bytes that are no `*` and then by
/// another `*`, a match from the first `*` gives a match from the second,
/// at the place where the run can end at the earliest.
proof fn lemma_star_to_star(p: Seq<u8>, t: Seq<u8>, s: int, pi: int, m: int)
    requires
        0 <= s < pi < p.len(),
        p[s] == 42u8,
        p[pi] == 42u8,
        forall|k: int| #![trigger p[k]] s + 1 <= k < pi ==> p[k] != 42u8,
        0 <= m <= t.len(),
        glob_at(p, t, s, m),
    ensures
        m + (pi - s - 1) <= t.len(),
        glob_at(p, t, pi, m + (pi - s - 1)),
    decreases t.len() - m,
{
    if glob_at(p, t, s + 1, m) {
        lemma_plain_run_is_literal(p, t, s + 1, pi, m);
    } else {
        lemma_star_to_star(p, t, s, pi, m + 1);
        lemma_star_reaches_back(p, t, pi, m + (pi - s - 1), m + 1 + (pi - s - 1));
    }
}

/// A `*` followed by a run of bytes that are no `*` and is longer than the
/// rest of the text does not match.
proof fn lemma_run_too_long(p: Seq<u8>, t: Seq<u8>, s: int, pi: int, m: int)
    requires
        0 <= s < pi <= p.len(),
        p[s] == 42u8,
        forall|k: int| #![trigger p[k]] s + 1 <= k < pi ==> p[k] != 42u8,
        0 <= m <= t.len(),
        m + (pi - s - 1) > t.len(),
    ensures
        !glob_at(p, t, s, m),
    decreases t.len() - m,
{
    if glob_at(p, t, s + 1, m) {
        lemma_plain_run_is_literal(p, t, s + 1, pi, m);
    }
    if m < t.len() {
        lemma_run_too_long(p, t, s, pi, m + 1);
    }
}

/// On a text without `*`, the matching from any state that it can reach
/// decides what the wildcard pattern means: with no `*` passed, whether the
/// rest of the pattern matches the rest of the text; with a `*` passed,
/// whether the pattern from that `*` on matches the text from the mark on.
proof fn lemma_wildcard_state(p: Seq<u8>, t: Seq<u8>, pi: int, ti: int, star: int, mark: int)
    requires
        star_free(t),
        0 <= mark <= ti <= t.len(),
        -1 <= star < pi <= p.len(),
        star >= 0 ==> p[star] == 42u8 && literal(p, t, star + 1, pi, mark) && ti - mark == pi - star
            - 1,
    ensures
        wildcard_from(p, t, pi, ti, star, mark) == (if star < 0 {
            glob_at(p, t, pi, ti)
        } else {
            glob_at(p, t, star, mark)
        }),
    decreases t.len() - mark, t.len() - ti, p.len() - pi,
{
    if star >= 0 {
        lemma_literal_passes(p, t, star + 1, pi, mark);
        assert(glob_at(p, t, star + 1, mark) == glob_at(p, t, pi, ti));
    }
    if ti >= t.len() {
        lemma_glob_at_end(p, t, pi, ti);
        if star >= 0 && mark < t.len() {
            assert forall|k: int| #![trigger p[k]] star + 1 <= k < pi implies p[k] != 42u8 by {}
            lemma_run_too_long(p, t, star, pi, mark + 1);
        }
    } else if pi < p.len() && (p[pi] == 63u8 || p[pi] == t[ti]) {
        assert(t[ti] != 42u8);
        if star >= 0 {
            assert forall|k: int| #![trigger p[k]] star + 1 <= k < pi + 1 implies p[k] != 42u8 && 0
                <= mark + (k - (star + 1)) < t.len() && (p[k] == 63u8 || p[k] == t[mark + (k - (star
                + 1))]) by {
                if k == pi {
                    assert(mark + (k - (star + 1)) == ti);
                }
            }
        }
        lemma_wildcard_state(p, t, pi + 1, ti + 1, star, mark);
    } else if pi < p.len() && p[pi] == 42u8 {
        lemma_wildcard_state(p, t, pi + 1, ti, pi, ti);
        if star >= 0 {
            assert forall|k: int| #![trigger p[k]] star + 1 <= k < pi implies p[k] != 42u8 by {}
            if glob_at(p, t, star, mark) {
                lemma_star_to_star(p, t, star, pi, mark);
            }
        }
    } else if star >= 0 {
        lemma_wildcard_state(p, t, star + 1, mark + 1, star, mark + 1);
    }
}

/// Whether the wildcard pattern `p` matches the whole of `t`, where `?`
/// stands for any one byte and `*` for any run of bytes.
pub open spec fn glob_matches(p: Seq<u8>, t: Seq<u8>) -> bool {
    glob_at(p, t, 0, 0)
}

/// On a text without `*` (every name of a function or a module is one), a
/// pattern matches exactly when it does with `?` read as any one byte and
/// `*` as any run of bytes.
pub proof fn lemma_wildcard_is_glob(p: Seq<u8>, t: Seq<u8>)
    requires
        star_free(t),
    ensures
        wildcard_matches(p, t) == glob_matches(p, t),
{
    lemma_wildcard_state(p, t, 0, 0, -1, 0);
}

/// Matches `text` against a pattern of literal bytes, `?` and `*`.
pub fn wildcard_match(pattern: &str, text: &str) -> (r: bool)
    ensures
        r == wildcard_matches(encode_utf8(pattern@), encode_utf8(text@)),
        star_free(encode_utf8(text@)) ==> r == glob_matches(
            encode_utf8(pattern@),
            encode_utf8(text@),
        ),
{
    let p: &[u8] = pattern.as_bytes();
    let t: &[u8] = text.as_bytes();
    proof {
        if star_free(t@) {
            lemma_wildcard_is_glob(p@, t@);
        }
    }
    let mut pi: usize = 0;
    let mut ti: usize = 0;
    let mut star: Option<usize> = None;
    let mut mark: usize = 0;
    while ti < t.len()
        invariant
            p@ == encode_utf8(pattern@),
            t@ == encode_utf8(text@),
            star_free(t@) ==> wildcard_matches(p@, t@) == glob_matches(p@, t@),
            mark <= ti <= t@.len(),
            pi <= p@.len(),
            star matches Some(s) ==> s < pi,
            wildcard_matches(p@, t@) == wildcard_from(
                p@,
                t@,
                pi as int,
                ti as int,
                match star {
                    Some(s) => s as int,
                    None => -1,
                },
                mark as int,
            ),
        decreases t@.len() - mark, t@.len() - ti, p@.len() - pi,
    {
        if pi < p.len() && (p[pi] == 63 || p[pi] == t[ti]) {
            pi = pi + 1;
            ti = ti + 1;
        } else if pi < p.len() && p[pi] == 42 {
            star = Some(pi);
            pi = pi + 1;
            mark = ti;
        } else {
            match star {
                Some(s) => {
                    pi = s + 1;
                    mark = mark + 1;
                    ti = mark;
                },
                None => {
                    return false;
                },
            }
        }
    }
    while pi < p.len() && p[pi] == 42
        invariant
            pi <= p@.len(),
            only_stars(p@, pi as int) == wildcard_matches(p@, t@),
        decreases p@.len() - pi,
    {
        pi = pi + 1;
    }
    pi == p.len()
}

/// Whether one of the patterns matches `name`.
pub open spec fn any_glob_matches(globs: Seq<String>, name: Seq<char>) -> bool {
    exists|i: int|
        0 <= i < globs.len() && wildcard_matches(
            encode_utf8((#[trigger] globs[i])@),
            encode_utf8(name),
        )
}

/// Whether one of the expressions has a match in `name`.
pub open spec fn any_regex_matches(exprs: Seq<Regex>, name: Seq<char>) -> bool {
    exists|i: int| 0 <= i < exprs.len() && regex_accepts(#[trigger] exprs[i], name)
}

/// For expressions that `Regex::new` compiled, whether one of them matches
/// is a matter of their patterns and the name alone.
pub proof fn lemma_plain_expressions_match_by_pattern(exprs: Seq<Regex>, name: Seq<char>)
    requires
        forall|i: int| 0 <= i < exprs.len() ==> is_plain(#[trigger] exprs[i]),
    ensures
        any_regex_matches(exprs, name) <==> exists|i: int|
            0 <= i < exprs.len() && regex_matches(regex_source(#[trigger] exprs[i]), name),
{
    if any_regex_matches(exprs, name) {
        let i = choose|i: int| 0 <= i < exprs.len() && regex_accepts(#[trigger] exprs[i], name);
        assert(regex_matches(regex_source(exprs[i]), name));
    }
    if exists|i: int| 0 <= i < exprs.len() && regex_matches(regex_source(#[trigger] exprs[i]), name) {
        let i = choose|i: int|
            0 <= i < exprs.len() && regex_matches(regex_source(#[trigger] exprs[i]), name);
        assert(regex_accepts(exprs[i], name));
    }
}

/// Tests whether one of the patterns matches `name`.
fn glob_hit(globs: &Vec<String>, name: &str) -> (r: bool)
    ensures
        r == any_glob_matches(globs@, name@),
{
    let mut i: usize = 0;
    while i < globs.len()
        invariant
            i <= globs@.len(),
            forall|j: int|
                0 <= j < i ==> !wildcard_matches(
                    encode_utf8((#[trigger] globs@[j])@),
                    encode_utf8(name@),
                ),
        decreases globs@.len() - i,
    {
        if wildcard_match(globs[i].as_str(), name) {
            return true;
        }
        i = i + 1;
    }
    false
}

/// Tests whether one of the expressions has a match in `name`.
fn regex_hit(exprs: &Vec<Regex>, name: &str) -> (r: bool)
    ensures
        r == any_regex_matches(exprs@, name@),
{
    let mut i: usize = 0;
    while i < exprs.len()
        invariant
            i <= exprs@.len(),
            forall|j: int|
                0 <= j < i ==> !regex_accepts(#[trigger] exprs@[j], name@),
        decreases exprs@.len() - i,
    {
        if is_match(&exprs[i], name) {
            return true;
        }
        i = i + 1;
    }
    false
}

/// The first place at or after `start` where `from` stands lies at or after
/// `start` and leaves room for `from`.
pub proof fn lemma_first_occurrence_bounds(s: Seq<char>, from: Seq<char>, start: int)
    ensures
        first_occurrence(s, from, start) matches Some(i) ==> start <= i && i + from.len()
            <= s.len(),
    decreases s.len() - start + 1,
{
    if !(start < 0 || start + from.len() > s.len()) && !crate::text::occurs_at(s, from, start) {
        lemma_first_occurrence_bounds(s, from, start + 1);
    }
}

/// `s` from `start` on, with every `from` replaced by `to`, found from the
/// left and without overlap. An empty `from` replaces nothing.
pub open spec fn replaced_from(s: Seq<char>, from: Seq<char>, to: Seq<char>, start: int) -> Seq<char>
    decreases s.len() - start + 1,
{
    if from.len() == 0 || start < 0 || start > s.len() {
        s.skip(start)
    } else {
        proof {
            lemma_first_occurrence_bounds(s, from, start);
        }
        match first_occurrence(s, from, start) {
            None => s.skip(start),
            Some(i) => s.subrange(start, i) + to + replaced_from(s, from, to, i + from.len()),
        }
    }
}

/// `s` with every `from` replaced by `to`.
pub open spec fn replaced(s: Seq<char>, from: Seq<char>, to: Seq<char>) -> Seq<char> {
    replaced_from(s, from, to, 0)
}

/// Replaces every `from` in `s` by `to`.
fn replace_all(s: &Vec<char>, from: &str, to: &str) -> (out: Vec<char>)
    requires
        from@.len() > 0,
    ensures
        out@ == replaced(s@, from@, to@),
{
    let pat = to_chars(from);
    let with = to_chars(to);
    let n: usize = s.len();
    let mut out: Vec<char> = Vec::new();
    let mut pos: usize = 0;
    let mut done: bool = false;
    assert(s@.take(n as int) =~= s@);
    assert(out@ + replaced_from(s@, from@, to@, 0) =~= replaced(s@, from@, to@));
    while !done
        invariant
            pos <= n,
            n == s@.len(),
            pat@ == from@,
            with@ == to@,
            from@.len() > 0,
            s@.take(n as int) == s@,
            !done ==> out@ + replaced_from(s@, from@, to@, pos as int) == replaced(
                s@,
                from@,
                to@,
            ),
            done ==> out@ == replaced(s@, from@, to@),
        decreases n - pos + (if done { 0int } else { 1int }),
    {
        let ghost before = out@;
        match find_from(s, pos, n, &pat) {
            Some(i) => {
                let mut k: usize = pos;
                while k < i
                    invariant
                        pos <= k <= i <= n,
                        n == s@.len(),
                        out@ == before + s@.subrange(pos as int, k as int),
                    decreases i - k,
                {
                    out.push(s[k]);
                    assert(out@ =~= before + s@.subrange(pos as int, k + 1));
                    k = k + 1;
                }
                let ghost mid = out@;
                let mut j: usize = 0;
                while j < with.len()
                    invariant
                        j <= with@.len(),
                        out@ == mid + with@.take(j as int),
                    decreases with@.len() - j,
                {
                    out.push(with[j]);
                    assert(out@ =~= mid + with@.take(j + 1));
                    j = j + 1;
                }
                assert(with@.take(with@.len() as int) =~= with@);
                assert(out@ + replaced_from(s@, from@, to@, i + pat@.len()) =~= before + (s@.subrange(
                    pos as int,
                    i as int,
                ) + to@ + replaced_from(s@, from@, to@, i + from@.len())));
                pos = i + pat.len();
            },
            None => {
                let mut k: usize = pos;
                while k < n
                    invariant
                        pos <= k <= n,
                        n == s@.len(),
                        out@ == before + s@.subrange(pos as int, k as int),
                    decreases n - k,
                {
                    out.push(s[k]);
                    assert(out@ =~= before + s@.subrange(pos as int, k + 1));
                    k = k + 1;
                }
                assert(s@.subrange(pos as int, n as int) =~= s@.skip(pos as int));
                done = true;
            },
        }
    }
    out
}

/// The rules of one module.
#[derive(Debug)]
pub struct ModuleRules {
    /// Where this list is not empty, a function is included only if one of
    /// these expressions has a match in its name.
    pub include_regex: Vec<Regex>,
    /// A function is excluded if one of these expressions has a match in its name.
    pub exclude_regex: Vec<Regex>,
    /// Where this list is not empty, a function is included only if one of
    /// these wildcard patterns matches its name.
    pub include_glob: Vec<String>,
    /// A function is excluded if one of these wildcard patterns matches its name.
    pub exclude_glob: Vec<String>,
    /// The template of export names, with the placeholders `{prefix}`,
    /// `{sep}`, `{module}`, `{name}` and `{suffix}`.
    pub template: Option<String>,
    /// What follows the name in an export name; nothing when missing.
    pub suffix: Option<String>,
}

impl Default for ModuleRules {
    /// The rules that include everything, exclude nothing and name exports
    /// by prefix, separator and name.
    fn default() -> (r: ModuleRules)
        ensures
            r.include_regex@.len() == 0,
            r.exclude_regex@.len() == 0,
            r.include_glob@.len() == 0,
            r.exclude_glob@.len() == 0,
            r.template is None,
            r.suffix is None,
    {
        ModuleRules {
            include_regex: Vec::new(),
            exclude_regex: Vec::new(),
            include_glob: Vec::new(),
            exclude_glob: Vec::new(),
            template: None,
            suffix: None,
        }
    }
}

/// The export name that a template gives.
pub open spec fn filled(
    template: Seq<char>,
    prefix: Seq<char>,
    sep: Seq<char>,
    module: Seq<char>,
    name: Seq<char>,
    suffix: Seq<char>,
) -> Seq<char> {
    replaced(
        replaced(
            replaced(replaced(replaced(template, "{prefix}"@, prefix), "{sep}"@, sep), "{module}"@, module),
            "{name}"@,
            name,
        ),
        "{suffix}"@,
        suffix,
    )
}

impl ModuleRules {
    /// Whether the include rules let `name` in: each kind of include rule
    /// that is present has a rule that matches.
    pub open spec fn includes(self, name: Seq<char>) -> bool {
        (self.include_regex@.len() == 0 || any_regex_matches(self.include_regex@, name)) && (
        self.include_glob@.len() == 0 || any_glob_matches(self.include_glob@, name))
    }

    /// Whether an exclude rule matches `name`.
    pub open spec fn excludes(self, name: Seq<char>) -> bool {
        any_regex_matches(self.exclude_regex@, name) || any_glob_matches(self.exclude_glob@, name)
    }

    /// Whether the function `name` of the module `module` gets the prefix:
    /// the include rules let in its name or its path `module::name`, and no
    /// exclude rule matches either.
    pub open spec fn prefixes(self, module: Seq<char>, name: Seq<char>) -> bool {
        let subject = module + "::"@ + name;
        (self.includes(name) || self.includes(subject)) && !self.excludes(name) && !self.excludes(
            subject,
        )
    }

    /// What follows the name in an export name.
    pub open spec fn suffix_text(self) -> Seq<char> {
        match self.suffix {
            Some(s) => s@,
            None => Seq::empty(),
        }
    }

    /// The export name of the function `name` of the module `module`.
    pub open spec fn export_name(
        self,
        prefix: Seq<char>,
        sep: Seq<char>,
        module: Seq<char>,
        name: Seq<char>,
    ) -> Seq<char> {
        match self.template {
            Some(t) => filled(t@, prefix, sep, module, name, self.suffix_text()),
            None => prefix + sep + name + self.suffix_text(),
        }
    }

    fn included(&self, name: &str) -> (r: bool)
        ensures
            r == self.includes(name@),
    {
        let regex_ok: bool = self.include_regex.len() == 0 || regex_hit(&self.include_regex, name);
        let glob_ok: bool = self.include_glob.len() == 0 || glob_hit(&self.include_glob, name);
        regex_ok && glob_ok
    }

    fn excluded(&self, name: &str) -> (r: bool)
        ensures
            r == self.excludes(name@),
    {
        if regex_hit(&self.exclude_regex, name) {
            return true;
        }
        glob_hit(&self.exclude_glob, name)
    }

    /// Decides whether a function of a module gets the prefix.
    pub fn should_prefix(&self, module: &str, name: &str) -> (r: bool)
        ensures
            r == self.prefixes(module@, name@),
    {
        let mut subject: String = module.to_owned();
        subject.append("::");
        subject.append(name);
        let wanted: bool = self.included(name) || self.included(subject.as_str());
        wanted && !self.excluded(name) && !self.excluded(subject.as_str())
    }

    /// Makes the export name of a function of a module.
    pub fn render_export_name(&self, prefix: &str, sep: &str, module: &str, name: &str) -> (r: String)
        ensures
            r@ == self.export_name(prefix@, sep@, module@, name@),
    {
        proof {
            reveal_strlit("");
            reveal_strlit("{prefix}");
            reveal_strlit("{sep}");
            reveal_strlit("{module}");
            reveal_strlit("{name}");
            reveal_strlit("{suffix}");
        }
        assert(""@ =~= Seq::<char>::empty());
        let suffix: &str = match &self.suffix {
            Some(s) => s.as_str(),
            None => "",
        };
        match &self.template {
            Some(tpl) => {
                let t0 = to_chars(tpl.as_str());
                let t1 = replace_all(&t0, "{prefix}", prefix);
                let t2 = replace_all(&t1, "{sep}", sep);
                let t3 = replace_all(&t2, "{module}", module);
                let t4 = replace_all(&t3, "{name}", name);
                let t5 = replace_all(&t4, "{suffix}", suffix);
                from_chars(&t5)
            },
            None => {
                let mut out: String = prefix.to_owned();
                out.append(sep);
                out.append(name);
                out.append(suffix);
                out
            },
        }
    }
}

/// One `name = value` argument of a module's attribute. `value` is `None`
/// where the value is not a string.
pub struct RuleArg {
    pub key: String,
    pub value: Option<String>,
}

/// Why a module's rules cannot be used.
#[derive(Debug, PartialEq, Eq)]
pub struct RuleError {
    /// Index of the argument that the error is reported at.
    pub arg: usize,
    /// What is wrong.
    pub message: String,
}

/// The items of all lists that the arguments give under `key`, in order.
pub open spec fn collected(args: Seq<RuleArg>, key: Seq<char>) -> Seq<Seq<char>>
    decreases args.len(),
{
    if args.len() == 0 {
        Seq::empty()
    } else {
        let before = collected(args.drop_last(), key);
        match args.last().value {
            Some(v) => if args.last().key@ == key {
                before + csv_items(v@)
            } else {
                before
            },
            None => before,
        }
    }
}

/// The value of the last argument that gives a string under `key`.
pub open spec fn last_value(args: Seq<RuleArg>, key: Seq<char>) -> Option<Seq<char>>
    decreases args.len(),
{
    if args.len() == 0 {
        None
    } else {
        match args.last().value {
            Some(v) => if args.last().key@ == key {
                Some(v@)
            } else {
                last_value(args.drop_last(), key)
            },
            None => last_value(args.drop_last(), key),
        }
    }
}

/// The message for a pattern that does not compile.
pub open spec fn regex_message(kind: Seq<char>, pattern: Seq<char>, reason: Seq<char>) -> Seq<char> {
    "symbaker_module: invalid "@ + kind + " regex '"@ + pattern + "': "@ + reason
}

/// The message for a glob with a bracket or a brace.
pub open spec fn glob_message(kind: Seq<char>, glob: Seq<char>) -> Seq<char> {
    "symbaker_module: unsupported "@ + kind + " glob '"@ + glob + "' (use only '*' and '?')"@
}

/// The message for the first pattern of the list that does not compile.
pub open spec fn bad_regex(patterns: Seq<Seq<char>>, kind: Seq<char>) -> Option<Seq<char>>
    decreases patterns.len(),
{
    if patterns.len() == 0 {
        None
    } else {
        match regex_check(patterns[0]) {
            Err(reason) => Some(regex_message(kind, patterns[0], reason)),
            Ok(_) => bad_regex(patterns.drop_first(), kind),
        }
    }
}

/// The message for the first glob of the list with a bracket or a brace.
pub open spec fn bad_glob(globs: Seq<Seq<char>>, kind: Seq<char>) -> Option<Seq<char>>
    decreases globs.len(),
{
    if globs.len() == 0 {
        None
    } else if has_bracket(globs[0]) {
        Some(glob_message(kind, globs[0]))
    } else {
        bad_glob(globs.drop_first(), kind)
    }
}

/// What is wrong with the list that the argument `arg` belongs to. An
/// argument that names no list has nothing wrong.
pub open spec fn problem_at(args: Seq<RuleArg>, arg: RuleArg) -> Option<Seq<char>> {
    if arg.key@ == "include_regex"@ {
        bad_regex(collected(args, "include_regex"@), "include"@)
    } else if arg.key@ == "exclude_regex"@ {
        bad_regex(collected(args, "exclude_regex"@), "exclude"@)
    } else if arg.key@ == "include_glob"@ {
        bad_glob(collected(args, "include_glob"@), "include"@)
    } else if arg.key@ == "exclude_glob"@ {
        bad_glob(collected(args, "exclude_glob"@), "exclude"@)
    } else {
        None
    }
}

/// The index of the first argument at or after `from` whose list has
/// something wrong.
pub open spec fn first_problem(args: Seq<RuleArg>, from: int) -> Option<int>
    decreases args.len() - from,
{
    if from < 0 || from >= args.len() {
        None
    } else if problem_at(args, args[from]) is Some {
        Some(from)
    } else {
        first_problem(args, from + 1)
    }
}

/// The patterns that a list of compiled expressions was made from.
pub open spec fn sources_of(exprs: Seq<Regex>) -> Seq<Seq<char>> {
    exprs.map_values(|re: Regex| regex_source(re))
}

/// Whether every expression of the list matches as `Regex::new` makes its
/// pattern match.
pub open spec fn all_plain(exprs: Seq<Regex>) -> bool {
    forall|i: int| 0 <= i < exprs.len() ==> is_plain(#[trigger] exprs[i])
}

/// Whether `rules` are the rules that the arguments give.
pub open spec fn rules_of(rules: ModuleRules, args: Seq<RuleArg>) -> bool {
    &&& sources_of(rules.include_regex@) == collected(args, "include_regex"@)
    &&& sources_of(rules.exclude_regex@) == collected(args, "exclude_regex"@)
    &&& all_plain(rules.include_regex@)
    &&& all_plain(rules.exclude_regex@)
    &&& texts(rules.include_glob@) == collected(args, "include_glob"@)
    &&& texts(rules.exclude_glob@) == collected(args, "exclude_glob"@)
    &&& (match rules.template {
        Some(t) => Some(t@),
        None => None,
    }) == last_value(args, "template"@)
    &&& (match rules.suffix {
        Some(t) => Some(t@),
        None => None,
    }) == last_value(args, "suffix"@)
}

/// Compiles a list of patterns; fails with the message for the first one
/// that does not compile.
fn compile_regexes(specs: &Vec<String>, kind: &str) -> (r: Result<Vec<Regex>, String>)
    ensures
        r is Err <==> bad_regex(texts(specs@), kind@) is Some,
        r matches Err(msg) ==> bad_regex(texts(specs@), kind@) == Some(msg@),
        r matches Ok(v) ==> sources_of(v@) == texts(specs@) && all_plain(v@),
{
    let ghost all = texts(specs@);
    let mut out: Vec<Regex> = Vec::new();
    let mut i: usize = 0;
    assert(all.skip(0) =~= all);
    assert(sources_of(out@) =~= all.take(0));
    while i < specs.len()
        invariant
            i <= specs@.len(),
            all == texts(specs@),
            bad_regex(all, kind@) == bad_regex(all.skip(i as int), kind@),
            sources_of(out@) == all.take(i as int),
            all_plain(out@),
        decreases specs@.len() - i,
    {
        let pattern: &str = specs[i].as_str();
        assert(all.skip(i as int)[0] == pattern@);
        assert(all.skip(i as int).drop_first() =~= all.skip(i + 1));
        match compile(pattern) {
            Ok(re) => {
                let ghost before = out@;
                out.push(re);
                assert(sources_of(out@) =~= sources_of(before).push(pattern@));
                assert(sources_of(out@) =~= all.take(i + 1));
            },
            Err(reason) => {
                let mut msg: String = "symbaker_module: invalid ".to_owned();
                msg.append(kind);
                msg.append(" regex '");
                msg.append(pattern);
                msg.append("': ");
                msg.append(reason.as_str());
                return Err(msg);
            },
        }
        i = i + 1;
    }
    assert(all.take(specs@.len() as int) =~= all);
    Ok(out)
}

/// Checks a list of globs; fails with the message for the first one that
/// holds a bracket or a brace.
fn validate_globs(specs: &Vec<String>, kind: &str) -> (r: Result<Vec<String>, String>)
    ensures
        r is Err <==> bad_glob(texts(specs@), kind@) is Some,
        r matches Err(msg) ==> bad_glob(texts(specs@), kind@) == Some(msg@),
        r matches Ok(v) ==> texts(v@) == texts(specs@),
{
    let ghost all = texts(specs@);
    let mut out: Vec<String> = Vec::new();
    let mut i: usize = 0;
    assert(all.skip(0) =~= all);
    assert(texts(out@) =~= all.take(0));
    while i < specs.len()
        invariant
            i <= specs@.len(),
            all == texts(specs@),
            bad_glob(all, kind@) == bad_glob(all.skip(i as int), kind@),
            texts(out@) == all.take(i as int),
        decreases specs@.len() - i,
    {
        let g: &str = specs[i].as_str();
        assert(all.skip(i as int)[0] == g@);
        assert(all.skip(i as int).drop_first() =~= all.skip(i + 1));
        if bracketed(g) {
            let mut msg: String = "symbaker_module: unsupported ".to_owned();
            msg.append(kind);
            msg.append(" glob '");
            msg.append(g);
            msg.append("' (use only '*' and '?')");
            return Err(msg);
        }
        let ghost before = out@;
        out.push(specs[i].clone());
        assert(texts(out@) =~= texts(before).push(g@));
        assert(texts(out@) =~= all.take(i + 1));
        i = i + 1;
    }
    assert(all.take(specs@.len() as int) =~= all);
    Ok(out)
}

/// The lists and values that the arguments give, as they are collected
/// before anything is checked.
struct Gathered {
    include_regex: Vec<String>,
    exclude_regex: Vec<String>,
    include_glob: Vec<String>,
    exclude_glob: Vec<String>,
    template: Option<String>,
    suffix: Option<String>,
}

impl Gathered {
    spec fn holds(self, args: Seq<RuleArg>) -> bool {
        &&& texts(self.include_regex@) == collected(args, "include_regex"@)
        &&& texts(self.exclude_regex@) == collected(args, "exclude_regex"@)
        &&& texts(self.include_glob@) == collected(args, "include_glob"@)
        &&& texts(self.exclude_glob@) == collected(args, "exclude_glob"@)
        &&& (match self.template {
            Some(t) => Some(t@),
            None => None,
        }) == last_value(args, "template"@)
        &&& (match self.suffix {
            Some(t) => Some(t@),
            None => None,
        }) == last_value(args, "suffix"@)
    }
}

/// Appends the items of a comma-separated list to `list`.
fn extend_with(list: &mut Vec<String>, value: &str)
    ensures
        texts(final(list)@) == texts(old(list)@) + csv_items(value@),
{
    let mut items = parse_csv(value);
    let ghost a = list@;
    let ghost b = items@;
    list.append(&mut items);
    assert(texts(list@) =~= texts(a) + texts(b));
}

/// Collects the lists and values that the arguments give.
fn gather(args: &Vec<RuleArg>) -> (g: Gathered)
    ensures
        g.holds(args@),
{
    proof {
        reveal_strlit("include_regex");
        reveal_strlit("exclude_regex");
        reveal_strlit("include_glob");
        reveal_strlit("exclude_glob");
        reveal_strlit("template");
        reveal_strlit("suffix");
    }
    let mut g = Gathered {
        include_regex: Vec::new(),
        exclude_regex: Vec::new(),
        include_glob: Vec::new(),
        exclude_glob: Vec::new(),
        template: None,
        suffix: None,
    };
    let mut i: usize = 0;
    assert(args@.take(0) =~= Seq::<RuleArg>::empty());
    assert(texts(g.include_regex@) =~= Seq::<Seq<char>>::empty());
    assert(texts(g.exclude_regex@) =~= Seq::<Seq<char>>::empty());
    assert(texts(g.include_glob@) =~= Seq::<Seq<char>>::empty());
    assert(texts(g.exclude_glob@) =~= Seq::<Seq<char>>::empty());
    while i < args.len()
        invariant
            i <= args@.len(),
            g.holds(args@.take(i as int)),
        decreases args@.len() - i,
    {
        let arg: &RuleArg = &args[i];
        proof {
            reveal_strlit("include_regex");
            reveal_strlit("exclude_regex");
            reveal_strlit("include_glob");
            reveal_strlit("exclude_glob");
            reveal_strlit("template");
            reveal_strlit("suffix");
            assert("include_regex"@.len() == 13 && "exclude_regex"@.len() == 13
                && "include_glob"@.len() == 12 && "exclude_glob"@.len() == 12 && "template"@.len()
                == 8 && "suffix"@.len() == 6);
            assert("include_regex"@[0] == 'i' && "exclude_regex"@[0] == 'e' && "include_glob"@[0]
                == 'i' && "exclude_glob"@[0] == 'e');
            assert(args@.take(i + 1).drop_last() =~= args@.take(i as int));
            assert(args@.take(i + 1).last() == *arg);
        }
        match &arg.value {
            Some(v) => {
                let key: &str = arg.key.as_str();
                if same_text(key, "include_regex") {
                    extend_with(&mut g.include_regex, v.as_str());
                } else if same_text(key, "exclude_regex") {
                    extend_with(&mut g.exclude_regex, v.as_str());
                } else if same_text(key, "include_glob") {
                    extend_with(&mut g.include_glob, v.as_str());
                } else if same_text(key, "exclude_glob") {
                    extend_with(&mut g.exclude_glob, v.as_str());
                } else if same_text(key, "template") {
                    g.template = Some(v.clone());
                } else if same_text(key, "suffix") {
                    g.suffix = Some(v.clone());
                }
            },
            None => {},
        }
        i = i + 1;
    }
    assert(args@.take(args@.len() as int) =~= args@);
    g
}

/// Arguments of which none has the key give nothing under it.
proof fn lemma_nothing_collected(args: Seq<RuleArg>, key: Seq<char>)
    requires
        forall|j: int| 0 <= j < args.len() ==> (#[trigger] args[j]).key@ != key,
    ensures
        collected(args, key).len() == 0,
    decreases args.len(),
{
    if args.len() > 0 {
        assert forall|j: int| 0 <= j < args.drop_last().len() implies (#[trigger] args.drop_last()[j]).key@
            != key by {
            assert(args.drop_last()[j] == args[j]);
        }
        lemma_nothing_collected(args.drop_last(), key);
    }
}

/// Reads a module's rules from the arguments of its attribute. The lists of
/// all arguments with one key are joined. Each argument that names a list
/// has the whole list of its key checked, in the order of the arguments; the
/// first list with something wrong gives the error, reported at that argument.
pub fn parse_module_rules(args: &Vec<RuleArg>) -> (r: Result<ModuleRules, RuleError>)
    ensures
        r is Err <==> first_problem(args@, 0) is Some,
        r matches Err(e) ==> first_problem(args@, 0) == Some(e.arg as int) && problem_at(
            args@,
            args@[e.arg as int],
        ) == Some(e.message@),
        r matches Ok(rules) ==> rules_of(rules, args@),
{
    let g = gather(args);
    let mut include_regex: Vec<Regex> = Vec::new();
    let mut exclude_regex: Vec<Regex> = Vec::new();
    let mut include_glob: Vec<String> = Vec::new();
    let mut exclude_glob: Vec<String> = Vec::new();
    let mut k: usize = 0;
    while k < args.len()
        invariant
            k <= args@.len(),
            g.holds(args@),
            first_problem(args@, 0) == first_problem(args@, k as int),
            all_plain(include_regex@),
            all_plain(exclude_regex@),
            sources_of(include_regex@) == collected(args@, "include_regex"@) || (include_regex@.len()
                == 0 && forall|j: int|
                0 <= j < k ==> (#[trigger] args@[j]).key@ != "include_regex"@),
            sources_of(exclude_regex@) == collected(args@, "exclude_regex"@) || (exclude_regex@.len()
                == 0 && forall|j: int|
                0 <= j < k ==> (#[trigger] args@[j]).key@ != "exclude_regex"@),
            texts(include_glob@) == collected(args@, "include_glob"@) || (include_glob@.len() == 0
                && forall|j: int| 0 <= j < k ==> (#[trigger] args@[j]).key@ != "include_glob"@),
            texts(exclude_glob@) == collected(args@, "exclude_glob"@) || (exclude_glob@.len() == 0
                && forall|j: int| 0 <= j < k ==> (#[trigger] args@[j]).key@ != "exclude_glob"@),
        decreases args@.len() - k,
    {
        let key: &str = args[k].key.as_str();
        proof {
            reveal_strlit("include_regex");
            reveal_strlit("exclude_regex");
            reveal_strlit("include_glob");
            reveal_strlit("exclude_glob");
            reveal_strlit("template");
            reveal_strlit("suffix");
            assert("include_regex"@.len() == 13 && "exclude_regex"@.len() == 13
                && "include_glob"@.len() == 12 && "exclude_glob"@.len() == 12 && "template"@.len()
                == 8 && "suffix"@.len() == 6);
            assert("include_regex"@[0] == 'i' && "exclude_regex"@[0] == 'e' && "include_glob"@[0]
                == 'i' && "exclude_glob"@[0] == 'e');
        }
        if same_text(key, "include_regex") {
            match compile_regexes(&g.include_regex, "include") {
                Ok(v) => {
                    include_regex = v;
                },
                Err(message) => {
                    return Err(RuleError { arg: k, message });
                },
            }
        } else if same_text(key, "exclude_regex") {
            match compile_regexes(&g.exclude_regex, "exclude") {
                Ok(v) => {
                    exclude_regex = v;
                },
                Err(message) => {
                    return Err(RuleError { arg: k, message });
                },
            }
        } else if same_text(key, "include_glob") {
            match validate_globs(&g.include_glob, "include") {
                Ok(v) => {
                    include_glob = v;
                },
                Err(message) => {
                    return Err(RuleError { arg: k, message });
                },
            }
        } else if same_text(key, "exclude_glob") {
            match validate_globs(&g.exclude_glob, "exclude") {
                Ok(v) => {
                    exclude_glob = v;
                },
                Err(message) => {
                    return Err(RuleError { arg: k, message });
                },
            }
        }
        k = k + 1;
    }
    proof {
        lemma_settled(args@, sources_of(include_regex@), "include_regex"@);
        lemma_settled(args@, sources_of(exclude_regex@), "exclude_regex"@);
        lemma_settled(args@, texts(include_glob@), "include_glob"@);
        lemma_settled(args@, texts(exclude_glob@), "exclude_glob"@);
    }
    Ok(
        ModuleRules {
            include_regex,
            exclude_regex,
            include_glob,
            exclude_glob,
            template: g.template,
            suffix: g.suffix,
        },
    )
}

/// A list that is what was collected, or is empty while no argument has the
/// key, is what was collected.
proof fn lemma_settled(args: Seq<RuleArg>, list: Seq<Seq<char>>, key: Seq<char>)
    requires
        list == collected(args, key) || (list.len() == 0 && forall|j: int|
            0 <= j < args.len() ==> (#[trigger] args[j]).key@ != key),
    ensures
        list == collected(args, key),
{
    if list != collected(args, key) {
        lemma_nothing_collected(args, key);
        assert(list =~= collected(args, key));
    }
}

} // verus!
