//! Reading symbol names out of what general-purpose symbol dump tools print.

use vstd::prelude::*;
use vstd::string::*;
use crate::text::{
    first_appearances, is_digit, last_word, last_word_bounds, lines_from, lines_of, next_line,
    next_word, push_unique, string_of_range, texts, to_chars, words_from, words_of,
};

verus! {

/// What `pick` takes from each line that has something to take, in line order.
pub open spec fn picked(lines: Seq<Seq<char>>, pick: spec_fn(Seq<char>) -> Option<Seq<char>>) -> Seq<
    Seq<char>,
>
    decreases lines.len(),
{
    if lines.len() == 0 {
        Seq::empty()
    } else {
        let before = picked(lines.drop_last(), pick);
        match pick(lines.last()) {
            Some(w) => before.push(w),
            None => before,
        }
    }
}

/// The symbol names in the output of an `nm`-like tool: the last word of
/// each line that is not blank, without repeats, in order of first appearance.
pub open spec fn nm_symbols(text: Seq<char>) -> Seq<Seq<char>> {
    first_appearances(picked(lines_of(text), |line: Seq<char>| last_word(line)))
}

/// Reads the symbol names that an `nm`-like tool printed.
pub fn parse_nm_symbols(text: &str) -> (symbols: Vec<String>)
    ensures
        texts(symbols@) == nm_symbols(text@),
{
    let chars = to_chars(text);
    let n: usize = chars.len();
    let ghost pick = |line: Seq<char>| last_word(line);
    let ghost mut seen: Seq<Seq<char>> = Seq::empty();
    let mut symbols: Vec<String> = Vec::new();
    let mut i: usize = 0;
    assert(texts(symbols@) =~= Seq::<Seq<char>>::empty());
    assert(seen + lines_from(chars@, 0) =~= lines_of(chars@));
    while i < n
        invariant
            i <= n,
            n == chars@.len(),
            pick == (|line: Seq<char>| last_word(line)),
            seen + lines_from(chars@, i as int) == lines_of(chars@),
            texts(symbols@) == first_appearances(picked(seen, pick)),
        decreases n - i,
    {
        let (end, stop) = next_line(&chars, i);
        let ghost line = chars@.subrange(i as int, end as int);
        match last_word_bounds(&chars, i, end) {
            Some((a, b)) => {
                push_unique(&mut symbols, string_of_range(&chars, a, b));
            },
            None => {},
        }
        proof {
            let next = seen.push(line);
            assert(next.drop_last() =~= seen);
            assert(pick(line) == last_word(line));
            if pick(line) is Some {
                assert(picked(next, pick).drop_last() =~= picked(seen, pick));
            }
            assert(next + lines_from(chars@, stop + 1) =~= seen + (seq![line] + lines_from(
                chars@,
                stop + 1,
            )));
            seen = next;
        }
        if stop >= n {
            i = n;
        } else {
            i = stop + 1;
        }
    }
    assert(seen =~= seen + lines_from(chars@, n as int));
    symbols
}

/// Whether `w` holds nothing but ASCII digits.
pub open spec fn all_digits(w: Seq<char>) -> bool {
    forall|i: int| 0 <= i < w.len() ==> is_digit(#[trigger] w[i])
}

/// The export that a line of an export table names: the line's third word,
/// where its first word is a number and its second word starts with `0x`.
pub open spec fn export_of(line: Seq<char>) -> Option<Seq<char>> {
    let w = words_of(line);
    if w.len() >= 3 && all_digits(w[0]) && w[1].len() >= 2 && w[1][0] == '0' && w[1][1] == 'x' {
        Some(w[2])
    } else {
        None
    }
}

/// The symbol names in an export table as `objdump -p` prints it (columns:
/// index, address, name), without repeats, in order of first appearance.
pub open spec fn objdump_exports(text: Seq<char>) -> Seq<Seq<char>> {
    first_appearances(picked(lines_of(text), |line: Seq<char>| export_of(line)))
}

/// Tests `v[a..b]` for holding nothing but ASCII digits.
fn digits_only(v: &Vec<char>, a: usize, b: usize) -> (r: bool)
    requires
        a <= b <= v@.len(),
    ensures
        r == all_digits(v@.subrange(a as int, b as int)),
{
    let ghost w = v@.subrange(a as int, b as int);
    let mut i: usize = a;
    while i < b
        invariant
            a <= i <= b <= v@.len(),
            w == v@.subrange(a as int, b as int),
            forall|j: int| 0 <= j < i - a ==> is_digit(#[trigger] w[j]),
        decreases b - i,
    {
        let c: char = v[i];
        if !('0' <= c && c <= '9') {
            assert(!is_digit(w[i - a]));
            return false;
        }
        i = i + 1;
    }
    true
}

/// Finds the export that the line `v[lo..hi]` names.
fn export_bounds(v: &Vec<char>, lo: usize, hi: usize) -> (r: Option<String>)
    requires
        lo <= hi <= v@.len(),
    ensures
        r is Some <==> export_of(v@.subrange(lo as int, hi as int)) is Some,
        r matches Some(s) ==> export_of(v@.subrange(lo as int, hi as int)) == Some(s@),
{
    let mut line: Vec<char> = Vec::new();
    let mut k: usize = lo;
    while k < hi
        invariant
            lo <= k <= hi <= v@.len(),
            line@ == v@.subrange(lo as int, k as int),
        decreases hi - k,
    {
        line.push(v[k]);
        assert(line@ =~= v@.subrange(lo as int, k + 1));
        k = k + 1;
    }
    let m: usize = line.len();
    assert(line@.take(m as int) =~= line@);
    let ghost w = words_of(line@);
    let (a0, b0) = match next_word(&line, 0, m) {
        Some(x) => x,
        None => {
            return None;
        },
    };
    let (a1, b1) = match next_word(&line, b0, m) {
        Some(x) => x,
        None => {
            assert(w.len() == 1);
            return None;
        },
    };
    let (a2, b2) = match next_word(&line, b1, m) {
        Some(x) => x,
        None => {
            assert(w.len() == 2);
            return None;
        },
    };
    assert(w[0] == line@.subrange(a0 as int, b0 as int));
    assert(w[1] == line@.subrange(a1 as int, b1 as int));
    assert(w[2] == line@.subrange(a2 as int, b2 as int));
    assert(w.len() >= 3);
    if digits_only(&line, a0, b0) && b1 - a1 >= 2 && line[a1] == '0' && line[a1 + 1] == 'x' {
        Some(string_of_range(&line, a2, b2))
    } else {
        None
    }
}

/// Reads the symbol names out of an export table that `objdump -p` printed.
pub fn parse_objdump_exports(text: &str) -> (symbols: Vec<String>)
    ensures
        texts(symbols@) == objdump_exports(text@),
{
    let chars = to_chars(text);
    let n: usize = chars.len();
    let ghost pick = |line: Seq<char>| export_of(line);
    let ghost mut seen: Seq<Seq<char>> = Seq::empty();
    let mut symbols: Vec<String> = Vec::new();
    let mut i: usize = 0;
    assert(texts(symbols@) =~= Seq::<Seq<char>>::empty());
    assert(seen + lines_from(chars@, 0) =~= lines_of(chars@));
    while i < n
        invariant
            i <= n,
            n == chars@.len(),
            pick == (|line: Seq<char>| export_of(line)),
            seen + lines_from(chars@, i as int) == lines_of(chars@),
            texts(symbols@) == first_appearances(picked(seen, pick)),
        decreases n - i,
    {
        let (end, stop) = next_line(&chars, i);
        let ghost line = chars@.subrange(i as int, end as int);
        match export_bounds(&chars, i, end) {
            Some(sym) => {
                push_unique(&mut symbols, sym);
            },
            None => {},
        }
        proof {
            let next = seen.push(line);
            assert(next.drop_last() =~= seen);
            assert(pick(line) == export_of(line));
            if pick(line) is Some {
                assert(picked(next, pick).drop_last() =~= picked(seen, pick));
            }
            assert(next + lines_from(chars@, stop + 1) =~= seen + (seq![line] + lines_from(
                chars@,
                stop + 1,
            )));
            seen = next;
        }
        if stop >= n {
            i = n;
        } else {
            i = stop + 1;
        }
    }
    assert(seen =~= seen + lines_from(chars@, n as int));
    symbols
}

} // verus!
