//! Small readers of command-line arguments that the rest of the tool
//! builds on: the value of a flag, the build profile, and the repository
//! argument of the self-update.

use vstd::prelude::*;
use vstd::string::*;
use crate::text::{matches_at, occurs_at, same_text, string_of_range, texts, to_chars};

verus! {

/// The repository that the tool is installed from by default.
pub open spec fn default_repo() -> Seq<char> {
    "https://github.com/BlankMauser/symbaker"@
}

/// Whether `c` is a hexadecimal digit, in either letter case.
pub open spec fn is_hex_char(c: char) -> bool {
    ('0' <= c <= '9') || ('a' <= c <= 'f') || ('A' <= c <= 'F')
}

/// Whether `s` looks like a commit identifier: seven to forty hexadecimal digits.
pub open spec fn is_commit_id(s: Seq<char>) -> bool {
    7 <= s.len() <= 40 && forall|i: int| 0 <= i < s.len() ==> is_hex_char(#[trigger] s[i])
}

/// Index of the last `#` in `s` before `hi`, or -1.
pub open spec fn last_hash(s: Seq<char>, hi: int) -> int
    decreases hi,
{
    if hi <= 0 {
        -1
    } else if s[hi - 1] == '#' {
        hi - 1
    } else {
        last_hash(s, hi - 1)
    }
}

/// The repository and the revision that a repository argument names.
///
/// `repo#rev` names both, where neither is empty (the last `#` divides). A
/// bare commit identifier names that revision of the default repository.
/// Anything else names a repository and no revision.
pub open spec fn repo_and_rev(raw: Seq<char>) -> (Seq<char>, Option<Seq<char>>) {
    let h = last_hash(raw, raw.len() as int);
    if 0 < h < raw.len() - 1 {
        (raw.subrange(0, h), Some(raw.subrange(h + 1, raw.len() as int)))
    } else if is_commit_id(raw) {
        (default_repo(), Some(raw))
    } else {
        (raw, None)
    }
}

/// Reads a repository argument.
pub fn resolve_repo_arg(raw: &str) -> (r: (String, Option<String>))
    ensures
        r.0@ == repo_and_rev(raw@).0,
        (match r.1 {
            Some(rev) => Some(rev@),
            None => None,
        }) == repo_and_rev(raw@).1,
{
    let chars = to_chars(raw);
    let n: usize = chars.len();
    let mut h: usize = n;
    while h > 0 && chars[h - 1] != '#'
        invariant
            h <= n,
            n == chars@.len(),
            last_hash(chars@, n as int) == last_hash(chars@, h as int),
        decreases h,
    {
        h = h - 1;
    }
    if h > 1 && h < n {
        // The `#` stands at `h - 1`, with text on both sides.
        return (string_of_range(&chars, 0, h - 1), Some(string_of_range(&chars, h, n)));
    }
    let mut hex: bool = 7 <= n && n <= 40;
    let mut i: usize = 0;
    while hex && i < n
        invariant
            i <= n,
            n == chars@.len(),
            hex ==> 7 <= n <= 40 && forall|j: int| 0 <= j < i ==> is_hex_char(#[trigger] chars@[j]),
            !hex ==> !is_commit_id(chars@),
        decreases n - i + (if hex { 1int } else { 0int }),
    {
        let c: char = chars[i];
        if ('0' <= c && c <= '9') || ('a' <= c && c <= 'f') || ('A' <= c && c <= 'F') {
            i = i + 1;
        } else {
            assert(!is_hex_char(chars@[i as int]));
            hex = false;
        }
    }
    if hex {
        ("https://github.com/BlankMauser/symbaker".to_owned(), Some(raw.to_owned()))
    } else {
        (raw.to_owned(), None)
    }
}

/// Whether `s` starts with `p`.
pub open spec fn starts_with(s: Seq<char>, p: Seq<char>) -> bool {
    occurs_at(s, p, 0)
}

/// The value that the arguments from index `i` on give for `flag`: the
/// argument after the first `flag` that has one after it, or what follows
/// `flag=` in the first argument that starts so, whichever comes first.
pub open spec fn flag_value_from(args: Seq<Seq<char>>, flag: Seq<char>, i: int) -> Option<Seq<char>>
    decreases args.len() - i,
{
    if i < 0 || i >= args.len() {
        None
    } else if args[i] == flag && i + 1 < args.len() {
        Some(args[i + 1])
    } else if starts_with(args[i], flag + "="@) {
        Some(args[i].skip(flag.len() as int + 1))
    } else {
        flag_value_from(args, flag, i + 1)
    }
}

/// The value that the arguments give for `flag`.
pub open spec fn flag_value(args: Seq<Seq<char>>, flag: Seq<char>) -> Option<Seq<char>> {
    flag_value_from(args, flag, 0)
}

/// Finds the value that the arguments give for `flag`.
pub fn find_flag_value(args: &Vec<String>, flag: &str) -> (r: Option<String>)
    ensures
        (match r {
            Some(v) => Some(v@),
            None => None,
        }) == flag_value(texts(args@), flag@),
{
    let mut prefix: String = flag.to_owned();
    prefix.append("=");
    let pre = to_chars(prefix.as_str());
    proof {
        reveal_strlit("=");
    }
    assert(pre@.len() == flag@.len() + 1);
    let ghost all = texts(args@);
    let mut i: usize = 0;
    while i < args.len()
        invariant
            i <= args@.len(),
            all == texts(args@),
            pre@ == flag@ + "="@,
            pre@.len() == flag@.len() + 1,
            flag_value(all, flag@) == flag_value_from(all, flag@, i as int),
        decreases args@.len() - i,
    {
        let cur: &str = args[i].as_str();
        assert(all[i as int] == cur@);
        if same_text(cur, flag) && i + 1 < args.len() {
            assert(all[i + 1] == args@[i + 1]@);
            return Some(args[i + 1].clone());
        }
        let chars = to_chars(cur);
        assert(chars@.take(chars@.len() as int) =~= chars@);
        if matches_at(&chars, chars.len(), &pre, 0) {
            let v = string_of_range(&chars, pre.len(), chars.len());
            assert(chars@.subrange(pre@.len() as int, chars@.len() as int) =~= chars@.skip(
                flag@.len() as int + 1,
            ));
            return Some(v);
        }
        i = i + 1;
    }
    None
}

/// Finds the path of the manifest that the arguments name.
pub fn manifest_path_from_args(args: &Vec<String>) -> (r: Option<String>)
    ensures
        (match r {
            Some(v) => Some(v@),
            None => None,
        }) == flag_value(texts(args@), "--manifest-path"@),
{
    find_flag_value(args, "--manifest-path")
}

/// Tests the arguments for holding `flag`.
pub fn has_flag(args: &Vec<String>, flag: &str) -> (r: bool)
    ensures
        r == texts(args@).contains(flag@),
{
    crate::text::holds_text(args, flag)
}

/// The build profile that the arguments name: `release` where `--release`
/// is among them, else the value of `--profile`.
pub open spec fn profile_of(args: Seq<Seq<char>>) -> Option<Seq<char>> {
    if args.contains("--release"@) {
        Some("release"@)
    } else {
        flag_value(args, "--profile"@)
    }
}

/// Finds the build profile that the arguments name.
pub fn profile_from_args(args: &Vec<String>) -> (r: Option<String>)
    ensures
        (match r {
            Some(v) => Some(v@),
            None => None,
        }) == profile_of(texts(args@)),
{
    if has_flag(args, "--release") {
        return Some("release".to_owned());
    }
    find_flag_value(args, "--profile")
}

} // verus!
