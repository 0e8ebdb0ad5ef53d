//! Reading a recorded trace back, and putting the resolution report together
//! from it: for each package its name, the source that was selected, its
//! prefix, its dependencies and its exported symbols.

use vstd::prelude::*;
use vstd::string::*;
use crate::text::{
    contains_text, find_from, first_occurrence, holds_text, insert_ascending, is_ascending, same_text, lemma_lex_order_flip,
    lemma_lex_order_trans, lemma_text_order_same, lines_from, lines_of, next_line, next_word,
    order_strs, string_of_range, text_order, texts, to_chars, words_of, Order,
};
use vstd::utf8::encode_utf8;

verus! {

/// The text between the first `key` in `line` and the first double quote
/// after it; `None` where `line` has no `key`, or no double quote after it.
pub open spec fn quoted_after(line: Seq<char>, key: Seq<char>) -> Option<Seq<char>> {
    match first_occurrence(line, key, 0) {
        None => None,
        Some(i) => match first_occurrence(line, seq!['"'], i + key.len()) {
            None => None,
            Some(e) => Some(line.subrange(i + key.len(), e)),
        },
    }
}

/// Finds the text between the first `key` in `line` and the first double
/// quote after it.
fn quoted_in(line: &Vec<char>, key: &str) -> (r: Option<String>)
    ensures
        r is Some <==> quoted_after(line@, key@) is Some,
        r matches Some(s) ==> quoted_after(line@, key@) == Some(s@),
{
    let k = to_chars(key);
    let n: usize = line.len();
    assert(line@.take(n as int) =~= line@);
    let start: usize = match find_from(line, 0, n, &k) {
        Some(i) => i + k.len(),
        None => {
            return None;
        },
    };
    let mut quote: Vec<char> = Vec::new();
    quote.push('"');
    assert(quote@ =~= seq!['"']);
    match find_from(line, start, n, &quote) {
        Some(e) => Some(string_of_range(line, start, e)),
        None => None,
    }
}

/// Finds the text between the first `key` in `line` and the first double
/// quote after it.
pub fn extract_quoted(line: &str, key: &str) -> (r: Option<String>)
    ensures
        r is Some <==> quoted_after(line@, key@) is Some,
        r matches Some(s) ==> quoted_after(line@, key@) == Some(s@),
{
    let chars = to_chars(line);
    quoted_in(&chars, key)
}

/// Tests `line` for holding `key`.
fn holds_key(line: &Vec<char>, key: &str) -> (r: bool)
    ensures
        r == contains_text(line@, key@),
{
    let k = to_chars(key);
    assert(line@.take(line@.len() as int) =~= line@);
    find_from(line, 0, line.len(), &k).is_some()
}

/// The mark of the line that names the source selected for a package.
pub open spec fn selected_mark() -> Seq<char> {
    "selected source="@
}

/// The label of the selected source in `line`: the first word after the
/// first mark, looked for no further than the next mark.
pub open spec fn selected_word(line: Seq<char>) -> Option<Seq<char>> {
    match first_occurrence(line, selected_mark(), 0) {
        None => None,
        Some(i) => {
            let start = i + selected_mark().len();
            let end = match first_occurrence(line, selected_mark(), start) {
                Some(j) => j,
                None => line.len() as int,
            };
            let w = words_of(line.subrange(start, end));
            if w.len() > 0 {
                Some(w[0])
            } else {
                None
            }
        },
    }
}

/// Finds the label of the selected source in `line`.
fn selected_in(line: &Vec<char>) -> (r: Option<String>)
    ensures
        r is Some <==> selected_word(line@) is Some,
        r matches Some(s) ==> selected_word(line@) == Some(s@),
{
    let k = to_chars("selected source=");
    let n: usize = line.len();
    assert(line@.take(n as int) =~= line@);
    let start: usize = match find_from(line, 0, n, &k) {
        Some(i) => i + k.len(),
        None => {
            return None;
        },
    };
    let end: usize = match find_from(line, start, n, &k) {
        Some(j) => j,
        None => n,
    };
    let mut piece: Vec<char> = Vec::new();
    let mut i: usize = start;
    while i < end
        invariant
            start <= i <= end <= line@.len(),
            piece@ == line@.subrange(start as int, i as int),
        decreases end - i,
    {
        piece.push(line[i]);
        assert(piece@ =~= line@.subrange(start as int, i + 1));
        i = i + 1;
    }
    let m: usize = piece.len();
    assert(piece@.take(m as int) =~= piece@);
    match next_word(&piece, 0, m) {
        Some((a, b)) => Some(string_of_range(&piece, a, b)),
        None => None,
    }
}

/// What a trace says about one package.
#[derive(Debug, PartialEq, Eq)]
pub struct TraceCrate {
    pub name: String,
    pub manifest_dir: Option<String>,
    pub selected_source: Option<String>,
    pub resolved_prefix: Option<String>,
    /// The export names recorded for the package, without repeats, in the
    /// order in which the trace has them.
    pub symbols: Vec<String>,
}

/// What a [`TraceCrate`] holds, with its strings as text.
pub struct TraceRecord {
    pub name: Seq<char>,
    pub manifest_dir: Option<Seq<char>>,
    pub selected_source: Option<Seq<char>>,
    pub resolved_prefix: Option<Seq<char>>,
    pub symbols: Seq<Seq<char>>,
}

/// The text of an optional string.
pub open spec fn text_of(o: Option<String>) -> Option<Seq<char>> {
    match o {
        Some(s) => Some(s@),
        None => None,
    }
}

impl View for TraceCrate {
    type V = TraceRecord;

    open spec fn view(&self) -> TraceRecord {
        TraceRecord {
            name: self.name@,
            manifest_dir: text_of(self.manifest_dir),
            selected_source: text_of(self.selected_source),
            resolved_prefix: text_of(self.resolved_prefix),
            symbols: texts(self.symbols@),
        }
    }
}

/// The record of a package of which nothing is known but its name.
pub open spec fn blank_record(name: Seq<char>) -> TraceRecord {
    TraceRecord {
        name,
        manifest_dir: None,
        selected_source: None,
        resolved_prefix: None,
        symbols: Seq::empty(),
    }
}

/// What has been read of a trace: the records by package name, and the
/// package that the lines being read belong to.
pub struct TraceState {
    pub records: Map<Seq<char>, TraceRecord>,
    pub current: Option<Seq<char>>,
}

/// The record of the package `name`, blank where there is none yet.
pub open spec fn record_of(records: Map<Seq<char>, TraceRecord>, name: Seq<char>) -> TraceRecord {
    if records.dom().contains(name) {
        records[name]
    } else {
        blank_record(name)
    }
}

/// `new` where there is one, else `old`.
pub open spec fn or_kept(new: Option<Seq<char>>, old: Option<Seq<char>>) -> Option<Seq<char>> {
    match new {
        Some(v) => Some(v),
        None => old,
    }
}

/// What has been read after one more line.
///
/// A line that records the environment and names a package makes that
/// package the current one and sets its directory. A line that names the
/// selected source sets the current package's source and prefix, each where
/// the line has it. A line that names an export adds it to the current
/// package's symbols unless it is among them. Any other line changes nothing.
pub open spec fn trace_step(st: TraceState, line: Seq<char>) -> TraceState {
    if contains_text(line, "env CARGO_PKG_NAME=Some(\""@) {
        match quoted_after(line, "CARGO_PKG_NAME=Some(\""@) {
            Some(name) => TraceState {
                current: Some(name),
                records: st.records.insert(
                    name,
                    TraceRecord {
                        manifest_dir: quoted_after(line, "CARGO_MANIFEST_DIR=Some(\""@),
                        ..record_of(st.records, name)
                    },
                ),
            },
            None => st,
        }
    } else if contains_text(line, selected_mark()) {
        match st.current {
            Some(name) => TraceState {
                records: st.records.insert(
                    name,
                    TraceRecord {
                        selected_source: or_kept(
                            selected_word(line),
                            record_of(st.records, name).selected_source,
                        ),
                        resolved_prefix: or_kept(
                            quoted_after(line, "sanitized=\""@),
                            record_of(st.records, name).resolved_prefix,
                        ),
                        ..record_of(st.records, name)
                    },
                ),
                ..st
            },
            None => st,
        }
    } else if contains_text(line, "export_name=\""@) {
        match (st.current, quoted_after(line, "export_name=\""@)) {
            (Some(name), Some(export)) => TraceState {
                records: st.records.insert(
                    name,
                    TraceRecord {
                        symbols: if record_of(st.records, name).symbols.contains(export) {
                            record_of(st.records, name).symbols
                        } else {
                            record_of(st.records, name).symbols.push(export)
                        },
                        ..record_of(st.records, name)
                    },
                ),
                ..st
            },
            _ => st,
        }
    } else {
        st
    }
}

/// What has been read after all of `lines`.
pub open spec fn trace_read(lines: Seq<Seq<char>>) -> TraceState
    decreases lines.len(),
{
    if lines.len() == 0 {
        TraceState { records: Map::empty(), current: None }
    } else {
        trace_step(trace_read(lines.drop_last()), lines.last())
    }
}

/// The names of a list of records.
pub open spec fn record_names(out: Seq<TraceCrate>) -> Seq<Seq<char>> {
    out.map_values(|c: TraceCrate| c.name@)
}

/// Whether `out` lists exactly the records of `records`, each under its
/// name, in ascending order of the names.
pub open spec fn lists_records(out: Seq<TraceCrate>, records: Map<Seq<char>, TraceRecord>) -> bool {
    &&& is_ascending(record_names(out))
    &&& forall|k: int|
        0 <= k < out.len() ==> records.dom().contains((#[trigger] out[k]).name@) && records[out[k].name@]
            == out[k]@
    &&& forall|n: Seq<char>|
        records.dom().contains(n) ==> #[trigger] record_names(out).contains(n)
}

/// Takes the record of the package `name` out of the list; gives a blank one
/// where the list has none.
fn take_record(recs: &mut Vec<TraceCrate>, name: &str, Ghost(m): Ghost<Map<Seq<char>, TraceRecord>>) -> (r:
    TraceCrate)
    requires
        lists_records(old(recs)@, m),
    ensures
        lists_records(final(recs)@, m.remove(name@)),
        r@ == record_of(m, name@),
        r.name@ == name@,
{
    let ghost before = recs@;
    let ghost names = record_names(before);
    let mut p: usize = 0;
    while p < recs.len()
        invariant
            p <= recs@.len(),
            recs@ == before,
            names == record_names(before),
            lists_records(before, m),
            forall|i: int| 0 <= i < p ==> (#[trigger] names[i]) != name@,
        decreases recs@.len() - p,
    {
        assert(names[p as int] == recs@[p as int].name@);
        if order_strs(recs[p].name.as_str(), name) == Order::Same {
            proof {
                lemma_text_order_same(recs@[p as int].name@, name@);
            }
            let r = recs.remove(p);
            proof {
                let after = recs@;
                let left = m.remove(name@);
                assert(record_names(after) =~= names.remove(p as int));
                assert forall|i: int, j: int| 0 <= i < j < record_names(after).len() implies text_order(
                    #[trigger] record_names(after)[i],
                    #[trigger] record_names(after)[j],
                ) < 0 by {
                    let a = if i < p { i } else { i + 1 };
                    let b = if j < p { j } else { j + 1 };
                    assert(record_names(after)[i] == names[a] && record_names(after)[j] == names[b]);
                }
                assert forall|k: int| 0 <= k < after.len() implies left.dom().contains(
                    (#[trigger] after[k]).name@,
                ) && left[after[k].name@] == after[k]@ by {
                    let a = if k < p { k } else { k + 1 };
                    assert(after[k] == before[a]);
                    assert(names[a] == before[a].name@);
                    if a < p {
                        assert(text_order(names[a], names[p as int]) < 0);
                    } else {
                        assert(text_order(names[p as int], names[a]) < 0);
                        lemma_lex_order_flip(encode_utf8(names[p as int]), encode_utf8(names[a]));
                    }
                    lemma_text_order_same(names[a], names[p as int]);
                }
                assert forall|n: Seq<char>| left.dom().contains(n) implies #[trigger] record_names(
                    after,
                ).contains(n) by {
                    assert(record_names(before).contains(n));
                    let a = choose|a: int| 0 <= a < names.len() && names[a] == n;
                    let k = if a < p { a } else { a - 1 };
                    assert(record_names(after)[k] == n);
                }
            }
            return r;
        }
        proof {
            lemma_text_order_same(recs@[p as int].name@, name@);
        }
        p = p + 1;
    }
    proof {
        if m.dom().contains(name@) {
            assert(record_names(before).contains(name@));
        }
        assert(m.remove(name@) =~= m);
    }
    let r = TraceCrate {
        name: name.to_owned(),
        manifest_dir: None,
        selected_source: None,
        resolved_prefix: None,
        symbols: Vec::new(),
    };
    assert(texts(r.symbols@) =~= Seq::<Seq<char>>::empty());
    r
}

/// Puts a record into the list, at the place of its name.
fn put_record(recs: &mut Vec<TraceCrate>, rec: TraceCrate, Ghost(m): Ghost<Map<Seq<char>, TraceRecord>>)
    requires
        lists_records(old(recs)@, m),
        !m.dom().contains(rec.name@),
    ensures
        lists_records(final(recs)@, m.insert(rec.name@, rec@)),
{
    let ghost before = recs@;
    let ghost names = record_names(before);
    let ghost name = rec.name@;
    let mut p: usize = 0;
    let mut stop: bool = false;
    while p < recs.len() && !stop
        invariant
            p <= recs@.len(),
            recs@ == before,
            names == record_names(before),
            name == rec.name@,
            forall|i: int| 0 <= i < p ==> text_order(#[trigger] names[i], name) < 0,
            stop ==> p < recs@.len() && text_order(names[p as int], name) >= 0,
        decreases recs@.len() - p + (if stop { 0int } else { 1int }),
    {
        assert(names[p as int] == recs@[p as int].name@);
        if order_strs(recs[p].name.as_str(), rec.name.as_str()) == Order::Before {
            p = p + 1;
        } else {
            stop = true;
        }
    }
    let ghost view = rec@;
    recs.insert(p, rec);
    proof {
        let after = recs@;
        let an = record_names(after);
        let grown = m.insert(name, view);
        assert(an =~= names.insert(p as int, name));
        if p < names.len() {
            assert(names[p as int] == before[p as int].name@);
            assert(m.dom().contains(names[p as int]));
            lemma_text_order_same(names[p as int], name);
            lemma_lex_order_flip(encode_utf8(names[p as int]), encode_utf8(name));
        }
        assert forall|i: int, j: int| 0 <= i < j < an.len() implies text_order(
            #[trigger] an[i],
            #[trigger] an[j],
        ) < 0 by {
            if j < p {
                assert(an[i] == names[i] && an[j] == names[j]);
            } else if j == p {
                assert(an[i] == names[i]);
            } else if i == p {
                assert(an[j] == names[j - 1]);
                if j - 1 > p {
                    assert(text_order(names[p as int], names[j - 1]) < 0);
                    lemma_lex_order_trans(
                        encode_utf8(name),
                        encode_utf8(names[p as int]),
                        encode_utf8(names[j - 1]),
                    );
                }
            } else if i < p {
                assert(an[i] == names[i] && an[j] == names[j - 1]);
            } else {
                assert(an[i] == names[i - 1] && an[j] == names[j - 1]);
            }
        }
        assert forall|k: int| 0 <= k < after.len() implies grown.dom().contains(
            (#[trigger] after[k]).name@,
        ) && grown[after[k].name@] == after[k]@ by {
            if k < p {
                assert(after[k] == before[k]);
            } else if k > p {
                assert(after[k] == before[k - 1]);
            }
        }
        assert forall|n: Seq<char>| grown.dom().contains(n) implies #[trigger] an.contains(n) by {
            if n == name {
                assert(an[p as int] == n);
            } else {
                assert(record_names(before).contains(n));
                let a = choose|a: int| 0 <= a < names.len() && names[a] == n;
                let k = if a < p { a } else { a + 1 };
                assert(an[k] == n);
            }
        }
    }
}

/// Reads one line of a trace.
fn read_line(
    recs: &mut Vec<TraceCrate>,
    current: &mut Option<String>,
    line: &Vec<char>,
    Ghost(st): Ghost<TraceState>,
)
    requires
        lists_records(old(recs)@, st.records),
        text_of(*old(current)) == st.current,
    ensures
        lists_records(final(recs)@, trace_step(st, line@).records),
        text_of(*final(current)) == trace_step(st, line@).current,
{
    let ghost m = st.records;
    if holds_key(line, "env CARGO_PKG_NAME=Some(\"") {
        let name: String = match quoted_in(line, "CARGO_PKG_NAME=Some(\"") {
            Some(n) => n,
            None => {
                return ;
            },
        };
        let manifest: Option<String> = quoted_in(line, "CARGO_MANIFEST_DIR=Some(\"");
        let mut e = take_record(recs, name.as_str(), Ghost(m));
        e.manifest_dir = manifest;
        proof {
            assert(m.remove(name@).insert(name@, e@) =~= m.insert(name@, e@));
        }
        put_record(recs, e, Ghost(m.remove(name@)));
        *current = Some(name);
    } else if holds_key(line, "selected source=") {
        let name: &String = match current {
            Some(n) => n,
            None => {
                return ;
            },
        };
        let source: Option<String> = selected_in(line);
        let prefix: Option<String> = quoted_in(line, "sanitized=\"");
        let mut e = take_record(recs, name.as_str(), Ghost(m));
        match source {
            Some(s) => {
                e.selected_source = Some(s);
            },
            None => {},
        }
        match prefix {
            Some(p) => {
                e.resolved_prefix = Some(p);
            },
            None => {},
        }
        proof {
            assert(m.remove(name@).insert(name@, e@) =~= m.insert(name@, e@));
        }
        put_record(recs, e, Ghost(m.remove(name@)));
    } else if holds_key(line, "export_name=\"") {
        let name: &String = match current {
            Some(n) => n,
            None => {
                return ;
            },
        };
        let export: String = match quoted_in(line, "export_name=\"") {
            Some(x) => x,
            None => {
                return ;
            },
        };
        let mut e = take_record(recs, name.as_str(), Ghost(m));
        if !holds_text(&e.symbols, export.as_str()) {
            let ghost before = e.symbols@;
            e.symbols.push(export);
            assert(texts(e.symbols@) =~= texts(before).push(export@));
        }
        proof {
            assert(m.remove(name@).insert(name@, e@) =~= m.insert(name@, e@));
        }
        put_record(recs, e, Ghost(m.remove(name@)));
    }
}

/// Reads a recorded trace back: what it says about each package, in
/// ascending order of the package names.
pub fn parse_trace(body: &str) -> (out: Vec<TraceCrate>)
    ensures
        lists_records(out@, trace_read(lines_of(body@)).records),
{
    let chars = to_chars(body);
    let n: usize = chars.len();
    let mut recs: Vec<TraceCrate> = Vec::new();
    let mut current: Option<String> = None;
    let ghost mut seen: Seq<Seq<char>> = Seq::empty();
    let mut i: usize = 0;
    assert(seen + lines_from(chars@, 0) =~= lines_of(chars@));
    assert(record_names(recs@) =~= Seq::<Seq<char>>::empty());
    while i < n
        invariant
            i <= n,
            n == chars@.len(),
            seen + lines_from(chars@, i as int) == lines_of(chars@),
            lists_records(recs@, trace_read(seen).records),
            text_of(current) == trace_read(seen).current,
        decreases n - i,
    {
        let (end, stop) = next_line(&chars, i);
        let mut line: Vec<char> = Vec::new();
        let mut k: usize = i;
        while k < end
            invariant
                i <= k <= end <= chars@.len(),
                line@ == chars@.subrange(i as int, k as int),
            decreases end - k,
        {
            line.push(chars[k]);
            assert(line@ =~= chars@.subrange(i as int, k + 1));
            k = k + 1;
        }
        read_line(&mut recs, &mut current, &line, Ghost(trace_read(seen)));
        proof {
            let next = seen.push(line@);
            assert(next.drop_last() =~= seen);
            assert(next + lines_from(chars@, stop + 1) =~= seen + (seq![line@] + lines_from(
                chars@,
                stop + 1,
            )));
            seen = next;
        }
        if stop >= n {
            i = n;
        } else {
            i = stop + 1;
        }
    }
    assert(seen =~= seen + lines_from(chars@, n as int));
    recs
}

/// The name of the first row of `packages` (identifier, name) with the
/// identifier `id`.
pub open spec fn first_with_id(packages: Seq<(String, String)>, id: Seq<char>) -> Option<Seq<char>>
    decreases packages.len(),
{
    if packages.len() == 0 {
        None
    } else if packages[0].0@ == id {
        Some(packages[0].1@)
    } else {
        first_with_id(packages.drop_first(), id)
    }
}

/// The identifier of the build's top package: the root that the package
/// manager reports, else the first of the workspace's default members.
pub open spec fn top_id(root: Option<String>, default_members: Seq<String>) -> Option<Seq<char>> {
    match root {
        Some(r) => Some(r@),
        None => if default_members.len() > 0 {
            Some(default_members[0]@)
        } else {
            None
        },
    }
}

/// The name of the build's top package.
pub open spec fn top_package(
    root: Option<String>,
    default_members: Seq<String>,
    packages: Seq<(String, String)>,
) -> Option<Seq<char>> {
    match top_id(root, default_members) {
        Some(id) => first_with_id(packages, id),
        None => None,
    }
}

/// Finds the name of the build's top package in what the package manager
/// reports: the name of the first package whose identifier is the root, or
/// else the first default member.
pub fn top_package_of(
    root: &Option<String>,
    default_members: &Vec<String>,
    packages: &Vec<(String, String)>,
) -> (r: Option<String>)
    ensures
        text_of(r) == top_package(*root, default_members@, packages@),
{
    let id: &String = match root {
        Some(r) => r,
        None => {
            if default_members.len() > 0 {
                &default_members[0]
            } else {
                return None;
            }
        },
    };
    let mut i: usize = 0;
    assert(packages@.skip(0) =~= packages@);
    while i < packages.len()
        invariant
            i <= packages@.len(),
            top_id(*root, default_members@) == Some(id@),
            first_with_id(packages@, id@) == first_with_id(packages@.skip(i as int), id@),
        decreases packages@.len() - i,
    {
        assert(packages@.skip(i as int)[0] == packages@[i as int]);
        assert(packages@.skip(i as int).drop_first() =~= packages@.skip(i + 1));
        if same_text(packages[i].0.as_str(), id.as_str()) {
            return Some(packages[i].1.clone());
        }
        i = i + 1;
    }
    None
}

/// The name of the package with the identifier `id`: that of the last row
/// of `packages` (identifier, name) with this identifier. Rows with an empty
/// identifier or an empty name do not count.
pub open spec fn name_of_id(packages: Seq<(String, String)>, id: Seq<char>) -> Option<Seq<char>>
    decreases packages.len(),
{
    if packages.len() == 0 {
        None
    } else if packages.last().0@ == id && id.len() > 0 && packages.last().1@.len() > 0 {
        Some(packages.last().1@)
    } else {
        name_of_id(packages.drop_last(), id)
    }
}

/// Finds the name of the package with the identifier `id`.
fn find_name<'a>(packages: &'a Vec<(String, String)>, id: &str) -> (r: Option<&'a String>)
    ensures
        r is Some <==> name_of_id(packages@, id@) is Some,
        r matches Some(n) ==> name_of_id(packages@, id@) == Some(n@),
{
    if id.unicode_len() == 0 {
        proof {
            lemma_no_name_for_empty(packages@, id@);
        }
        return None;
    }
    let mut i: usize = packages.len();
    assert(packages@.take(i as int) =~= packages@);
    while i > 0
        invariant
            i <= packages@.len(),
            id@.len() > 0,
            name_of_id(packages@, id@) == name_of_id(packages@.take(i as int), id@),
        decreases i,
    {
        let row: &(String, String) = &packages[i - 1];
        assert(packages@.take(i as int).last() == *row);
        assert(packages@.take(i as int).drop_last() =~= packages@.take(i - 1));
        if same_text(row.0.as_str(), id) && row.1.as_str().unicode_len() > 0 {
            return Some(&row.1);
        }
        i = i - 1;
    }
    None
}

/// An empty identifier names no package.
proof fn lemma_no_name_for_empty(packages: Seq<(String, String)>, id: Seq<char>)
    requires
        id.len() == 0,
    ensures
        name_of_id(packages, id) is None,
    decreases packages.len(),
{
    if packages.len() > 0 {
        lemma_no_name_for_empty(packages.drop_last(), id);
    }
}

/// Whether the package `name` is among the dependencies with the
/// identifiers `dep_ids`.
pub open spec fn depends_on(packages: Seq<(String, String)>, dep_ids: Seq<String>, name: Seq<char>) -> bool {
    depends_within(packages, dep_ids, dep_ids.len() as int, name)
}

/// Whether the package `name` is among the first `n` of the dependencies
/// with the identifiers `dep_ids`.
pub open spec fn depends_within(
    packages: Seq<(String, String)>,
    dep_ids: Seq<String>,
    n: int,
    name: Seq<char>,
) -> bool {
    exists|j: int|
        0 <= j < n && j < dep_ids.len() && name_of_id(packages, (#[trigger] dep_ids[j])@) == Some(name)
}

/// Whether `names` are the dependencies with the identifiers `dep_ids`: the
/// names of those that have one, in ascending order and without repeats.
pub open spec fn names_dependencies(
    names: Seq<Seq<char>>,
    packages: Seq<(String, String)>,
    dep_ids: Seq<String>,
) -> bool {
    is_ascending(names) && forall|x: Seq<char>|
        names.contains(x) <==> depends_on(packages, dep_ids, x)
}

/// Whether `tree` is the dependency tree of `nodes` (identifier of a
/// package, identifiers of its dependencies): one row for each node whose
/// package has a name, in the order of the nodes, with the package's name
/// and the names of its dependencies.
pub open spec fn is_tree(
    tree: Seq<(String, Vec<String>)>,
    packages: Seq<(String, String)>,
    nodes: Seq<(String, Vec<String>)>,
) -> bool
    decreases nodes.len(),
{
    if nodes.len() == 0 {
        tree.len() == 0
    } else {
        match name_of_id(packages, nodes.last().0@) {
            None => is_tree(tree, packages, nodes.drop_last()),
            Some(name) => tree.len() > 0 && tree.last().0@ == name && names_dependencies(
                texts(tree.last().1@),
                packages,
                nodes.last().1@,
            ) && is_tree(tree.drop_last(), packages, nodes.drop_last()),
        }
    }
}

/// The names of the dependencies with the identifiers `dep_ids`.
fn dependency_names(packages: &Vec<(String, String)>, dep_ids: &Vec<String>) -> (names: Vec<String>)
    ensures
        names_dependencies(texts(names@), packages@, dep_ids@),
{
    let mut names: Vec<String> = Vec::new();
    let mut j: usize = 0;
    while j < dep_ids.len()
        invariant
            j <= dep_ids@.len(),
            is_ascending(texts(names@)),
            forall|x: Seq<char>|
                texts(names@).contains(x) <==> depends_within(packages@, dep_ids@, j as int, x),
        decreases dep_ids@.len() - j,
    {
        let ghost before = texts(names@);
        let found: Option<&String> = find_name(packages, dep_ids[j].as_str());
        match found {
            Some(n) => {
                insert_ascending(&mut names, n.as_str());
            },
            None => {},
        }
        proof {
            assert forall|x: Seq<char>| texts(names@).contains(x) <==> depends_within(
                packages@,
                dep_ids@,
                j + 1,
                x,
            ) by {
                if depends_within(packages@, dep_ids@, j + 1, x) {
                    let w = choose|w: int|
                        0 <= w < j + 1 && w < dep_ids@.len() && name_of_id(
                            packages@,
                            (#[trigger] dep_ids@[w])@,
                        ) == Some(x);
                    if w < j {
                        assert(depends_within(packages@, dep_ids@, j as int, x));
                    }
                }
                if depends_within(packages@, dep_ids@, j as int, x) {
                    let w = choose|w: int|
                        0 <= w < j && w < dep_ids@.len() && name_of_id(
                            packages@,
                            (#[trigger] dep_ids@[w])@,
                        ) == Some(x);
                    assert(0 <= w < j + 1);
                }
                if found is Some && x == found->0@ {
                    assert(name_of_id(packages@, dep_ids@[j as int]@) == Some(x));
                }
            }
        }
        j = j + 1;
    }
    names
}

/// Makes the dependency tree from what the package manager reports:
/// `packages` holds identifier and name of each package, `nodes` holds for
/// each package its identifier and the identifiers of its dependencies.
pub fn dependency_tree(packages: &Vec<(String, String)>, nodes: &Vec<(String, Vec<String>)>) -> (tree:
    Vec<(String, Vec<String>)>)
    ensures
        is_tree(tree@, packages@, nodes@),
{
    let mut tree: Vec<(String, Vec<String>)> = Vec::new();
    let mut i: usize = 0;
    assert(nodes@.take(0) =~= Seq::<(String, Vec<String>)>::empty());
    while i < nodes.len()
        invariant
            i <= nodes@.len(),
            is_tree(tree@, packages@, nodes@.take(i as int)),
        decreases nodes@.len() - i,
    {
        let ghost before = tree@;
        assert(nodes@.take(i + 1).drop_last() =~= nodes@.take(i as int));
        assert(nodes@.take(i + 1).last() == nodes@[i as int]);
        match find_name(packages, nodes[i].0.as_str()) {
            Some(name) => {
                let deps = dependency_names(packages, &nodes[i].1);
                tree.push((name.clone(), deps));
                assert(tree@.drop_last() =~= before);
            },
            None => {},
        }
        i = i + 1;
    }
    assert(nodes@.take(nodes@.len() as int) =~= nodes@);
    tree
}

/// The dependencies that a tree gives for the package `name`: those of the
/// last row with this name, or none.
pub open spec fn dependencies_in(tree: Seq<(String, Vec<String>)>, name: Seq<char>) -> Seq<Seq<char>>
    decreases tree.len(),
{
    if tree.len() == 0 {
        Seq::empty()
    } else if tree.last().0@ == name {
        texts(tree.last().1@)
    } else {
        dependencies_in(tree.drop_last(), name)
    }
}

/// A copy of a list of strings.
fn copy_list(list: &Vec<String>) -> (out: Vec<String>)
    ensures
        texts(out@) == texts(list@),
{
    let mut out: Vec<String> = Vec::new();
    let mut i: usize = 0;
    assert(texts(out@) =~= texts(list@).take(0));
    while i < list.len()
        invariant
            i <= list@.len(),
            texts(out@) == texts(list@).take(i as int),
        decreases list@.len() - i,
    {
        let ghost before = out@;
        out.push(list[i].clone());
        assert(texts(out@) =~= texts(before).push(list@[i as int]@));
        assert(texts(out@) =~= texts(list@).take(i + 1));
        i = i + 1;
    }
    assert(texts(list@).take(list@.len() as int) =~= texts(list@));
    out
}

/// A copy of an optional string.
fn copy_opt(o: &Option<String>) -> (r: Option<String>)
    ensures
        text_of(r) == text_of(*o),
{
    match o {
        Some(s) => Some(s.clone()),
        None => None,
    }
}

/// Looks up the dependencies of the package `name`.
pub fn dependencies_of(tree: &Vec<(String, Vec<String>)>, name: &str) -> (deps: Vec<String>)
    ensures
        texts(deps@) == dependencies_in(tree@, name@),
{
    let mut i: usize = tree.len();
    assert(tree@.take(i as int) =~= tree@);
    while i > 0
        invariant
            i <= tree@.len(),
            dependencies_in(tree@, name@) == dependencies_in(tree@.take(i as int), name@),
        decreases i,
    {
        let row: &(String, Vec<String>) = &tree[i - 1];
        assert(tree@.take(i as int).last() == *row);
        assert(tree@.take(i as int).drop_last() =~= tree@.take(i - 1));
        if same_text(row.0.as_str(), name) {
            return copy_list(&row.1);
        }
        i = i - 1;
    }
    let deps: Vec<String> = Vec::new();
    assert(texts(deps@) =~= Seq::<Seq<char>>::empty());
    deps
}

/// What the resolution report says about one package.
#[derive(Debug, PartialEq, Eq)]
pub struct ResolutionCrate {
    pub name: String,
    pub manifest_dir: Option<String>,
    pub selected_source: Option<String>,
    pub resolved_prefix: Option<String>,
    /// The names of the package's dependencies.
    pub dependencies: Vec<String>,
    /// The package's exported symbols, in ascending order.
    pub symbols: Vec<String>,
}

/// Whether `entry` is what the report says about the package of `trace`:
/// the trace's findings, the package's dependencies from `tree`, and its
/// symbols in ascending order.
pub open spec fn reports(entry: ResolutionCrate, trace: TraceCrate, tree: Seq<(String, Vec<String>)>) -> bool {
    &&& entry.name@ == trace.name@
    &&& text_of(entry.manifest_dir) == text_of(trace.manifest_dir)
    &&& text_of(entry.selected_source) == text_of(trace.selected_source)
    &&& text_of(entry.resolved_prefix) == text_of(trace.resolved_prefix)
    &&& texts(entry.dependencies@) == dependencies_in(tree, trace.name@)
    &&& is_ascending(texts(entry.symbols@))
    &&& forall|x: Seq<char>| texts(entry.symbols@).contains(x) <==> texts(trace.symbols@).contains(x)
}

/// The override table that would pin every package to the prefix it
/// resolved to: name and prefix of each package that has a prefix, in the
/// order of `traces`.
pub open spec fn pinned(traces: Seq<TraceCrate>) -> Seq<(Seq<char>, Seq<char>)>
    decreases traces.len(),
{
    if traces.len() == 0 {
        Seq::empty()
    } else {
        match traces.last().resolved_prefix {
            Some(p) => pinned(traces.drop_last()).push((traces.last().name@, p@)),
            None => pinned(traces.drop_last()),
        }
    }
}

/// The names and prefixes of a list of rows.
pub open spec fn pair_texts(rows: Seq<(String, String)>) -> Seq<(Seq<char>, Seq<char>)> {
    rows.map_values(|r: (String, String)| (r.0@, r.1@))
}

/// The symbols of a package, in ascending order.
fn sorted_symbols(symbols: &Vec<String>) -> (out: Vec<String>)
    ensures
        is_ascending(texts(out@)),
        forall|x: Seq<char>| texts(out@).contains(x) <==> texts(symbols@).contains(x),
{
    let mut out: Vec<String> = Vec::new();
    let ghost all = texts(symbols@);
    let mut i: usize = 0;
    while i < symbols.len()
        invariant
            i <= symbols@.len(),
            all == texts(symbols@),
            is_ascending(texts(out@)),
            forall|x: Seq<char>| texts(out@).contains(x) <==> all.take(i as int).contains(x),
        decreases symbols@.len() - i,
    {
        insert_ascending(&mut out, symbols[i].as_str());
        proof {
            let item = symbols@[i as int]@;
            let t0 = all.take(i as int);
            let t1 = all.take(i + 1);
            assert(t1 =~= t0.push(item));
            assert forall|x: Seq<char>| texts(out@).contains(x) <==> t1.contains(x) by {
                if t1.contains(x) {
                    let j = choose|j: int| 0 <= j < t1.len() && t1[j] == x;
                    if j < i {
                        assert(t0[j] == x);
                    }
                }
                if t0.contains(x) {
                    let j = choose|j: int| 0 <= j < t0.len() && t0[j] == x;
                    assert(t1[j] == x);
                }
                if x == item {
                    assert(t1[i as int] == x);
                }
            }
        }
        i = i + 1;
    }
    assert(all.take(symbols@.len() as int) =~= all);
    out
}

/// Puts the report together: one entry per package of the trace, in the
/// order of `traces`, and the override table that pins the resolved prefixes.
pub fn resolution_crates(traces: &Vec<TraceCrate>, tree: &Vec<(String, Vec<String>)>) -> (r: (
    Vec<ResolutionCrate>,
    Vec<(String, String)>,
))
    ensures
        r.0@.len() == traces@.len(),
        forall|k: int| 0 <= k < traces@.len() ==> reports(#[trigger] r.0@[k], traces@[k], tree@),
        pair_texts(r.1@) == pinned(traces@),
{
    let mut crates: Vec<ResolutionCrate> = Vec::new();
    let mut overrides: Vec<(String, String)> = Vec::new();
    let mut i: usize = 0;
    assert(traces@.take(0) =~= Seq::<TraceCrate>::empty());
    assert(pair_texts(overrides@) =~= pinned(traces@.take(0)));
    while i < traces.len()
        invariant
            i <= traces@.len(),
            crates@.len() == i,
            forall|k: int| 0 <= k < i ==> reports(#[trigger] crates@[k], traces@[k], tree@),
            pair_texts(overrides@) == pinned(traces@.take(i as int)),
        decreases traces@.len() - i,
    {
        let t: &TraceCrate = &traces[i];
        assert(traces@.take(i + 1).drop_last() =~= traces@.take(i as int));
        assert(traces@.take(i + 1).last() == *t);
        match &t.resolved_prefix {
            Some(p) => {
                let ghost before = overrides@;
                overrides.push((t.name.clone(), p.clone()));
                assert(pair_texts(overrides@) =~= pair_texts(before).push((t.name@, p@)));
            },
            None => {},
        }
        let entry = ResolutionCrate {
            name: t.name.clone(),
            manifest_dir: copy_opt(&t.manifest_dir),
            selected_source: copy_opt(&t.selected_source),
            resolved_prefix: copy_opt(&t.resolved_prefix),
            dependencies: dependencies_of(tree, t.name.as_str()),
            symbols: sorted_symbols(&t.symbols),
        };
        crates.push(entry);
        i = i + 1;
    }
    assert(traces@.take(traces@.len() as int) =~= traces@);
    (crates, overrides)
}

} // verus!
