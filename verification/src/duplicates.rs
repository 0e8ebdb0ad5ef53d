//! Finds the symbols that more than one artifact exports.

use vstd::prelude::*;
use vstd::string::*;
use crate::text::{
    holds_text, insert_ascending, is_ascending, lemma_text_order_same, text_order, texts,
};

verus! {

/// Whether the artifact at `path` exports `symbol`: some row has this path
/// and lists the symbol.
pub open spec fn owns(rows: Seq<(String, Vec<String>)>, path: Seq<char>, symbol: Seq<char>) -> bool {
    owns_within(rows, rows.len() as int, path, symbol)
}

/// Whether one of the first `n` rows has this path and lists the symbol.
pub open spec fn owns_within(
    rows: Seq<(String, Vec<String>)>,
    n: int,
    path: Seq<char>,
    symbol: Seq<char>,
) -> bool {
    exists|i: int| 0 <= i < n && i < rows.len() && (#[trigger] rows[i]).0@ == path && texts(rows[i].1@).contains(symbol)
}

/// Whether artifacts at two different paths export `symbol`.
pub open spec fn has_two_owners(rows: Seq<(String, Vec<String>)>, symbol: Seq<char>) -> bool {
    exists|p: Seq<char>, q: Seq<char>|
        p != q && #[trigger] owns(rows, p, symbol) && #[trigger] owns(rows, q, symbol)
}

/// Whether one of the first `n` rows lists `symbol`.
pub open spec fn listed_within(rows: Seq<(String, Vec<String>)>, n: int, symbol: Seq<char>) -> bool {
    exists|i: int| 0 <= i < n && i < rows.len() && texts((#[trigger] rows[i]).1@).contains(symbol)
}

/// The symbols of a list of findings.
pub open spec fn symbols_of(found: Seq<(String, Vec<String>)>) -> Seq<Seq<char>> {
    found.map_values(|d: (String, Vec<String>)| d.0@)
}

/// Whether `found` is the report on `rows`: one finding for each symbol
/// that artifacts at two or more different paths export, in ascending order
/// of the symbols, each with the paths of all artifacts that export the
/// symbol, in ascending order and without repeats.
///
/// Paths are text here, and both orders are the order of text by its
/// UTF-8 bytes. For a path this is not the order of the file system's path
/// type, which compares component by component (`a/x` before `a.b/x`); a
/// caller that holds such paths puts each finding's owners into that order.
pub open spec fn is_report(found: Seq<(String, Vec<String>)>, rows: Seq<(String, Vec<String>)>) -> bool {
    &&& is_ascending(symbols_of(found))
    &&& forall|k: int|
        0 <= k < found.len() ==> is_ascending(texts((#[trigger] found[k]).1@)) && found[k].1@.len()
            >= 2
    &&& forall|k: int, p: Seq<char>|
        0 <= k < found.len() ==> (#[trigger] texts(found[k].1@).contains(p) <==> owns(
            rows,
            p,
            found[k].0@,
        ))
    &&& forall|s: Seq<char>| #[trigger] symbols_of(found).contains(s) <==> has_two_owners(rows, s)
}

/// All symbols that the rows list, in ascending order and without repeats.
fn all_symbols(rows: &Vec<(String, Vec<String>)>) -> (syms: Vec<String>)
    ensures
        is_ascending(texts(syms@)),
        forall|x: Seq<char>|
            texts(syms@).contains(x) <==> listed_within(rows@, rows@.len() as int, x),
{
    let mut syms: Vec<String> = Vec::new();
    let mut r: usize = 0;
    while r < rows.len()
        invariant
            r <= rows@.len(),
            is_ascending(texts(syms@)),
            forall|x: Seq<char>| texts(syms@).contains(x) <==> listed_within(rows@, r as int, x),
        decreases rows@.len() - r,
    {
        let row: &Vec<String> = &rows[r].1;
        let ghost names = texts(row@);
        let mut k: usize = 0;
        while k < row.len()
            invariant
                k <= row@.len(),
                r < rows@.len(),
                *row == rows@[r as int].1,
                names == texts(row@),
                is_ascending(texts(syms@)),
                forall|x: Seq<char>|
                    texts(syms@).contains(x) <==> (listed_within(rows@, r as int, x)
                        || names.take(k as int).contains(x)),
            decreases row@.len() - k,
        {
            let ghost before = texts(syms@);
            insert_ascending(&mut syms, row[k].as_str());
            proof {
                let item = row@[k as int]@;
                let t0 = names.take(k as int);
                let t1 = names.take(k + 1);
                assert(names[k as int] == item);
                assert(t1 =~= t0.push(item));
                assert forall|x: Seq<char>| texts(syms@).contains(x) <==> (listed_within(
                    rows@,
                    r as int,
                    x,
                ) || t1.contains(x)) by {
                    if t1.contains(x) {
                        let j = choose|j: int| 0 <= j < t1.len() && t1[j] == x;
                        if j < k {
                            assert(t0[j] == x);
                        }
                    }
                    if t0.contains(x) {
                        let j = choose|j: int| 0 <= j < t0.len() && t0[j] == x;
                        assert(t1[j] == x);
                    }
                    if x == item {
                        assert(t1[k as int] == x);
                    }
                }
            }
            k = k + 1;
        }
        proof {
            assert(names.take(row@.len() as int) =~= names);
            assert forall|x: Seq<char>| texts(syms@).contains(x) <==> listed_within(
                rows@,
                r + 1,
                x,
            ) by {
                if listed_within(rows@, r + 1, x) {
                    let i = choose|i: int|
                        0 <= i < r + 1 && i < rows@.len() && texts((#[trigger] rows@[i]).1@).contains(x);
                    if i < r {
                        assert(listed_within(rows@, r as int, x));
                    }
                }
                if names.contains(x) {
                    assert(texts(rows@[r as int].1@).contains(x));
                }
            }
        }
        r = r + 1;
    }
    syms
}

/// The paths of the artifacts that export `symbol`, in ascending order and
/// without repeats.
fn owners_of(rows: &Vec<(String, Vec<String>)>, symbol: &str) -> (owners: Vec<String>)
    ensures
        is_ascending(texts(owners@)),
        forall|p: Seq<char>| texts(owners@).contains(p) <==> owns(rows@, p, symbol@),
{
    let mut owners: Vec<String> = Vec::new();
    let mut i: usize = 0;
    while i < rows.len()
        invariant
            i <= rows@.len(),
            is_ascending(texts(owners@)),
            forall|p: Seq<char>|
                texts(owners@).contains(p) <==> owns_within(rows@, i as int, p, symbol@),
        decreases rows@.len() - i,
    {
        let ghost before = texts(owners@);
        let listed: bool = holds_text(&rows[i].1, symbol);
        if listed {
            insert_ascending(&mut owners, rows[i].0.as_str());
        }
        proof {
            assert forall|p: Seq<char>| texts(owners@).contains(p) <==> owns_within(
                rows@,
                i + 1,
                p,
                symbol@,
            ) by {
                if owns_within(rows@, i + 1, p, symbol@) {
                    let j = choose|j: int|
                        0 <= j < i + 1 && j < rows@.len() && (#[trigger] rows@[j]).0@ == p && texts(
                            rows@[j].1@,
                        ).contains(symbol@);
                    if j < i {
                        assert(owns_within(rows@, i as int, p, symbol@));
                    }
                }
                if owns_within(rows@, i as int, p, symbol@) {
                    let j = choose|j: int|
                        0 <= j < i && j < rows@.len() && (#[trigger] rows@[j]).0@ == p && texts(
                            rows@[j].1@,
                        ).contains(symbol@);
                    assert(0 <= j < i + 1);
                }
                if listed && p == rows@[i as int].0@ {
                    assert(rows@[i as int].0@ == p && texts(rows@[i as int].1@).contains(symbol@));
                }
            }
        }
        i = i + 1;
    }
    owners
}

/// A symbol has two owners exactly when the ascending list of its owners'
/// paths has two entries or more.
proof fn lemma_two_owners(rows: Seq<(String, Vec<String>)>, symbol: Seq<char>, owners: Seq<Seq<char>>)
    requires
        is_ascending(owners),
        forall|p: Seq<char>| owners.contains(p) <==> owns(rows, p, symbol),
    ensures
        owners.len() >= 2 <==> has_two_owners(rows, symbol),
{
    if owners.len() >= 2 {
        assert(text_order(owners[0], owners[1]) < 0);
        lemma_text_order_same(owners[0], owners[1]);
        assert(owners.contains(owners[0]) && owners.contains(owners[1]));
        assert(owns(rows, owners[0], symbol) && owns(rows, owners[1], symbol));
    }
    if has_two_owners(rows, symbol) {
        let (p, q) = choose|p: Seq<char>, q: Seq<char>|
            p != q && #[trigger] owns(rows, p, symbol) && #[trigger] owns(rows, q, symbol);
        assert(owners.contains(p) && owners.contains(q));
        let a = choose|a: int| 0 <= a < owners.len() && owners[a] == p;
        let b = choose|b: int| 0 <= b < owners.len() && owners[b] == q;
        assert(a != b);
    }
}

/// Reports the symbols that artifacts at two or more different paths
/// export. Each row is an artifact's path and the symbols it exports; a
/// symbol that one artifact lists twice is no duplicate by that alone.
/// Symbols and owning paths come out in the order of their text.
pub fn find_duplicate_symbols(rows: &Vec<(String, Vec<String>)>) -> (found: Vec<(String, Vec<String>)>)
    ensures
        is_report(found@, rows@),
{
    let syms = all_symbols(rows);
    let mut found: Vec<(String, Vec<String>)> = Vec::new();
    let ghost mut at: Seq<int> = Seq::empty();
    let mut s: usize = 0;
    while s < syms.len()
        invariant
            s <= syms@.len(),
            is_ascending(texts(syms@)),
            forall|x: Seq<char>|
                texts(syms@).contains(x) <==> listed_within(rows@, rows@.len() as int, x),
            at.len() == found@.len(),
            forall|k: int| 0 <= k < at.len() ==> 0 <= #[trigger] at[k] < s && found@[k].0@ == texts(syms@)[at[k]],
            forall|k: int, l: int| 0 <= k < l < at.len() ==> #[trigger] at[k] < #[trigger] at[l],
            forall|k: int|
                0 <= k < found@.len() ==> is_ascending(texts((#[trigger] found@[k]).1@))
                    && found@[k].1@.len() >= 2,
            forall|k: int, p: Seq<char>|
                0 <= k < found@.len() ==> (#[trigger] texts(found@[k].1@).contains(p) <==> owns(
                    rows@,
                    p,
                    found@[k].0@,
                )),
            forall|j: int|
                0 <= j < s && has_two_owners(rows@, #[trigger] texts(syms@)[j]) ==> symbols_of(
                    found@,
                ).contains(texts(syms@)[j]),
        decreases syms@.len() - s,
    {
        let symbol: &String = &syms[s];
        let ghost name = texts(syms@)[s as int];
        assert(name == symbol@);
        let owners = owners_of(rows, symbol.as_str());
        proof {
            lemma_two_owners(rows@, name, texts(owners@));
        }
        let ghost before = found@;
        if owners.len() > 1 {
            found.push((symbol.clone(), owners));
            proof {
                at = at.push(s as int);
                assert(found@[before.len() as int].0@ == name);
                assert(symbols_of(found@) =~= symbols_of(before).push(name));
                assert(symbols_of(found@)[before.len() as int] == name);
                assert forall|j: int|
                    0 <= j < s + 1 && has_two_owners(
                        rows@,
                        #[trigger] texts(syms@)[j],
                    ) implies symbols_of(found@).contains(texts(syms@)[j]) by {
                    if j < s {
                        let k = choose|k: int|
                            0 <= k < symbols_of(before).len() && symbols_of(before)[k] == texts(
                                syms@,
                            )[j];
                        assert(symbols_of(found@)[k] == texts(syms@)[j]);
                    }
                }
            }
        }
        s = s + 1;
    }
    proof {
        let syms_t = texts(syms@);
        let out = symbols_of(found@);
        assert forall|i: int, j: int| 0 <= i < j < out.len() implies text_order(
            #[trigger] out[i],
            #[trigger] out[j],
        ) < 0 by {
            assert(at[i] < at[j]);
            assert(out[i] == syms_t[at[i]] && out[j] == syms_t[at[j]]);
        }
        assert forall|x: Seq<char>| #[trigger] out.contains(x) <==> has_two_owners(rows@, x) by {
            if out.contains(x) {
                let k = choose|k: int| 0 <= k < out.len() && out[k] == x;
                assert(found@[k].0@ == x);
                lemma_two_owners(rows@, x, texts(found@[k].1@));
            }
            if has_two_owners(rows@, x) {
                let (p, q) = choose|p: Seq<char>, q: Seq<char>|
                    p != q && #[trigger] owns(rows@, p, x) && #[trigger] owns(rows@, q, x);
                let i = choose|i: int|
                    0 <= i < rows@.len() && i < rows@.len() && (#[trigger] rows@[i]).0@ == p && texts(
                        rows@[i].1@,
                    ).contains(x);
                assert(listed_within(rows@, rows@.len() as int, x));
                assert(syms_t.contains(x));
                let j = choose|j: int| 0 <= j < syms_t.len() && syms_t[j] == x;
                assert(has_two_owners(rows@, syms_t[j]));
            }
        }
    }
    found
}

} // verus!
