//! The decision trace: an append-only list of lines that records what the
//! resolution looked at and what it chose, with the flags that make one-time
//! messages appear once. The caller owns the context and writes the lines out.

use vstd::prelude::*;
use vstd::string::*;
use crate::text::texts;

verus! {

/// The text that `std` prints for a string in debug form (`{:?}`): the string
/// in double quotes, with its special characters escaped.
pub uninterp spec fn debug_quoted(s: Seq<char>) -> Seq<char>;

/// Formats a string in debug form. The result is what `std`'s `Debug` for
/// `str` writes, which depends on the string alone.
#[verifier::external_body]
fn quote(s: &str) -> (r: String)
    ensures
        r@ == debug_quoted(s@),
{
    format!("{:?}", s)
}

/// The text of an optional string.
pub open spec fn opt_text(o: Option<String>) -> Option<Seq<char>> {
    match o {
        Some(s) => Some(s@),
        None => None,
    }
}

/// Debug form of an optional string: `None`, or `Some(..)` round the quoted text.
pub open spec fn debug_opt(o: Option<Seq<char>>) -> Seq<char> {
    match o {
        Some(s) => "Some("@ + debug_quoted(s) + ")"@,
        None => "None"@,
    }
}

/// The quoted items of a list, separated by a comma and a space.
pub open spec fn debug_items(v: Seq<Seq<char>>) -> Seq<char>
    decreases v.len(),
{
    if v.len() == 0 {
        Seq::empty()
    } else if v.len() == 1 {
        debug_quoted(v[0])
    } else {
        debug_items(v.drop_last()) + ", "@ + debug_quoted(v.last())
    }
}

/// Debug form of a list of strings: the quoted items in square brackets.
pub open spec fn debug_list(v: Seq<Seq<char>>) -> Seq<char> {
    "["@ + debug_items(v) + "]"@
}

/// Debug form of an optional list of strings.
pub open spec fn debug_opt_list(o: Option<Seq<Seq<char>>>) -> Seq<char> {
    match o {
        Some(v) => "Some("@ + debug_list(v) + ")"@,
        None => "None"@,
    }
}

/// Appends the debug form of a string.
pub fn push_quoted(out: &mut String, s: &str)
    ensures
        final(out)@ == old(out)@ + debug_quoted(s@),
{
    let q = quote(s);
    out.append(q.as_str());
}

/// Appends the debug form of an optional string.
pub fn push_debug_opt(out: &mut String, o: &Option<String>)
    ensures
        final(out)@ == old(out)@ + debug_opt(opt_text(*o)),
{
    let ghost before = out@;
    match o {
        Some(s) => {
            out.append("Some(");
            push_quoted(out, s.as_str());
            out.append(")");
            assert(out@ =~= before + ("Some("@ + debug_quoted(s@) + ")"@));
        },
        None => {
            out.append("None");
        },
    }
}

/// Appends the debug form of a list of strings.
pub fn push_debug_list(out: &mut String, v: &Vec<String>)
    ensures
        final(out)@ == old(out)@ + debug_list(texts(v@)),
{
    let ghost before = out@;
    out.append("[");
    let mut i: usize = 0;
    assert(texts(v@).take(0) =~= Seq::<Seq<char>>::empty());
    assert(out@ =~= before + "["@ + debug_items(texts(v@).take(0)));
    while i < v.len()
        invariant
            i <= v@.len(),
            out@ == before + "["@ + debug_items(texts(v@).take(i as int)),
        decreases v@.len() - i,
    {
        let ghost so_far = out@;
        let ghost items = texts(v@).take(i + 1);
        assert(items.drop_last() =~= texts(v@).take(i as int));
        assert(items.last() == v@[i as int]@);
        if i > 0 {
            out.append(", ");
        }
        push_quoted(out, v[i].as_str());
        proof {
            if i == 0 {
                assert(items.len() == 1);
                assert(debug_items(texts(v@).take(0)) =~= Seq::<char>::empty());
                assert(out@ =~= before + "["@ + debug_items(items));
            } else {
                assert(out@ =~= before + "["@ + (debug_items(items.drop_last()) + ", "@
                    + debug_quoted(items.last())));
            }
        }
        i = i + 1;
    }
    assert(texts(v@).take(v@.len() as int) =~= texts(v@));
    out.append("]");
    assert(out@ =~= before + ("["@ + debug_items(texts(v@)) + "]"@));
}

/// What a trace context holds, with its lines as text.
pub struct TraceView {
    pub enabled: bool,
    pub bootstrapped: bool,
    pub warned_uninitialized: bool,
    pub warned_fallback: bool,
    pub lines: Seq<Seq<char>>,
}

/// The trace of one process. `lines` only grows; the three flags only go
/// from `false` to `true`.
pub struct TraceContext {
    /// Whether tracing is switched on. With it off no line is recorded.
    pub enabled: bool,
    /// Whether the environment has been recorded.
    pub bootstrapped: bool,
    /// Whether the warning about a missing setup has been given.
    pub warned_uninitialized: bool,
    /// Whether the warning about a dependency's own prefix has been given.
    pub warned_fallback: bool,
    /// The lines recorded so far, oldest first.
    pub lines: Vec<String>,
}

impl View for TraceContext {
    type V = TraceView;

    open spec fn view(&self) -> TraceView {
        TraceView {
            enabled: self.enabled,
            bootstrapped: self.bootstrapped,
            warned_uninitialized: self.warned_uninitialized,
            warned_fallback: self.warned_fallback,
            lines: texts(self.lines@),
        }
    }
}

/// The tag that every recorded line starts with.
pub open spec fn line_tag() -> Seq<char> {
    "[symbaker] "@
}

/// The trace after `line` was handed to it.
pub open spec fn with_line(t: TraceView, line: Seq<char>) -> TraceView {
    if t.enabled {
        TraceView { lines: t.lines.push(line_tag() + line), ..t }
    } else {
        t
    }
}

/// The trace after `lines` were handed to it, first to last.
pub open spec fn with_lines(t: TraceView, lines: Seq<Seq<char>>) -> TraceView
    decreases lines.len(),
{
    if lines.len() == 0 {
        t
    } else {
        with_line(with_lines(t, lines.drop_last()), lines.last())
    }
}

/// Handing over one more line extends the trace by that line.
pub proof fn lemma_with_lines_push(t: TraceView, lines: Seq<Seq<char>>, line: Seq<char>)
    ensures
        with_lines(t, lines.push(line)) == with_line(with_lines(t, lines), line),
{
    assert(lines.push(line).drop_last() =~= lines);
}

/// Handing over two runs of lines is handing over their concatenation.
pub proof fn lemma_with_lines_concat(t: TraceView, a: Seq<Seq<char>>, b: Seq<Seq<char>>)
    ensures
        with_lines(t, a + b) == with_lines(with_lines(t, a), b),
    decreases b.len(),
{
    if b.len() == 0 {
        assert(a + b =~= a);
    } else {
        lemma_with_lines_concat(t, a, b.drop_last());
        assert((a + b).drop_last() =~= a + b.drop_last());
        assert((a + b).last() == b.last());
    }
}

/// What a process's environment says of the variables that steer resolution,
/// each as it was read (`None` where the variable is not set).
pub struct EnvSnapshot {
    pub pkg_name: Option<String>,
    pub manifest_dir: Option<String>,
    pub primary_package: Option<String>,
    pub top_package: Option<String>,
    pub prefix: Option<String>,
    pub config: Option<String>,
    pub priority: Option<String>,
}

/// The line that records the environment.
pub open spec fn env_line(env: EnvSnapshot) -> Seq<char> {
    "env CARGO_PKG_NAME="@ + debug_opt(opt_text(env.pkg_name)) + " CARGO_MANIFEST_DIR="@
        + debug_opt(opt_text(env.manifest_dir)) + " CARGO_PRIMARY_PACKAGE="@ + debug_opt(
        opt_text(env.primary_package),
    ) + " SYMBAKER_TOP_PACKAGE="@ + debug_opt(opt_text(env.top_package)) + " SYMBAKER_PREFIX="@
        + debug_opt(opt_text(env.prefix)) + " SYMBAKER_CONFIG="@ + debug_opt(opt_text(env.config))
        + " SYMBAKER_PRIORITY="@ + debug_opt(opt_text(env.priority))
}

/// The trace after a request to record the environment: recorded once, and
/// only while tracing is on.
pub open spec fn bootstrapped(t: TraceView, env: EnvSnapshot) -> TraceView {
    if t.bootstrapped || !t.enabled {
        t
    } else {
        with_line(TraceView { bootstrapped: true, ..t }, env_line(env))
    }
}

impl TraceContext {
    /// A fresh trace without lines.
    pub fn new(enabled: bool) -> (t: TraceContext)
        ensures
            t@ == (TraceView {
                enabled,
                bootstrapped: false,
                warned_uninitialized: false,
                warned_fallback: false,
                lines: Seq::empty(),
            }),
    {
        let t = TraceContext {
            enabled,
            bootstrapped: false,
            warned_uninitialized: false,
            warned_fallback: false,
            lines: Vec::new(),
        };
        assert(texts(t.lines@) =~= Seq::<Seq<char>>::empty());
        t
    }

    /// Records `line`, tagged, if tracing is on.
    pub fn emit(&mut self, line: &str)
        ensures
            final(self)@ == with_line(old(self)@, line@),
    {
        if self.enabled {
            let mut msg: String = "[symbaker] ".to_owned();
            msg.append(line);
            let ghost before = self.lines@;
            self.lines.push(msg);
            assert(texts(self.lines@) =~= texts(before).push(line_tag() + line@));
        }
    }

    /// Records the environment, the first time it is asked to while tracing is on.
    pub fn bootstrap(&mut self, env: &EnvSnapshot)
        ensures
            final(self)@ == bootstrapped(old(self)@, *env),
    {
        if self.bootstrapped || !self.enabled {
            return ;
        }
        self.bootstrapped = true;
        let mut line: String = "env CARGO_PKG_NAME=".to_owned();
        push_debug_opt(&mut line, &env.pkg_name);
        line.append(" CARGO_MANIFEST_DIR=");
        push_debug_opt(&mut line, &env.manifest_dir);
        line.append(" CARGO_PRIMARY_PACKAGE=");
        push_debug_opt(&mut line, &env.primary_package);
        line.append(" SYMBAKER_TOP_PACKAGE=");
        push_debug_opt(&mut line, &env.top_package);
        line.append(" SYMBAKER_PREFIX=");
        push_debug_opt(&mut line, &env.prefix);
        line.append(" SYMBAKER_CONFIG=");
        push_debug_opt(&mut line, &env.config);
        line.append(" SYMBAKER_PRIORITY=");
        push_debug_opt(&mut line, &env.priority);
        self.emit(line.as_str());
    }
}

} // verus!
