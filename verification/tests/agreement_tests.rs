//! The library's text functions against the same operations written with
//! the standard library.

use symbaker::dump::{parse_nm_symbols, parse_objdump_exports};
use symbaker::filter::{parse_csv, wildcard_match};
use symbaker::report::extract_quoted;
use symbaker::sanitize::sanitize;
use symbaker::setup::{has_text, truthy};
use symbaker::text::{is_whitespace, order_strs, same_text, to_ascii_lower, to_chars, from_chars, Order};

const SAMPLES: &[&str] = &[
    "",
    " ",
    "\n",
    "\r\n",
    "a",
    "alpha beta",
    "  lead and trail \t",
    "one\ntwo\r\nthree\rfour\n\nfive",
    "tab\tsep\u{a0}nbsp\u{2003}em\u{3000}ideographic",
    "\u{85}next line\u{2028}line sep\u{2029}",
    " 1 0x10 name\n2 0x20 other extra\n 3 0y30 no\nx 0x1 no\n4 0x\n",
    "0000 T sym\n     U undef\n0000 T sym\nlast",
    "héllo wörld ünïcode ✓",
    "a,b , c,,d ,",
    "key=\"value\" other=\"x\"",
    "TRUE", " yes ", "On", "1", "0", "tRuE\n",
    "9start", "_ok", "with-dash.and.dot", "ünï",
];

fn std_nm(text: &str) -> Vec<String> {
    let mut symbols = Vec::<String>::new();
    for line in text.lines() {
        let line = line.trim();
        if line.is_empty() {
            continue;
        }
        if let Some(sym) = line.split_whitespace().last() {
            if !symbols.iter().any(|s| s == sym) {
                symbols.push(sym.to_string());
            }
        }
    }
    symbols
}

fn std_objdump(text: &str) -> Vec<String> {
    let mut symbols = Vec::<String>::new();
    for line in text.lines() {
        let line = line.trim();
        if line.is_empty() {
            continue;
        }
        let parts: Vec<&str> = line.split_whitespace().collect();
        if parts.len() >= 3 && parts[0].chars().all(|c| c.is_ascii_digit()) && parts[1].starts_with("0x") {
            let sym = parts[2];
            if !symbols.iter().any(|s| s == sym) {
                symbols.push(sym.to_string());
            }
        }
    }
    symbols
}

fn std_csv(value: &str) -> Vec<String> {
    value.split(',').map(|s| s.trim()).filter(|s| !s.is_empty()).map(|s| s.to_string()).collect()
}

fn std_sanitize(s: &str) -> String {
    let mut out: String = s.chars().map(|c| if c.is_ascii_alphanumeric() || c == '_' { c } else { '_' }).collect();
    if out.is_empty() {
        out.push('_');
    }
    if out.chars().next().unwrap().is_ascii_digit() {
        out.insert(0, '_');
    }
    out
}

fn std_truthy(v: &str) -> bool {
    matches!(v.trim().to_ascii_lowercase().as_str(), "1" | "true" | "yes" | "on")
}

fn std_quoted(line: &str, key: &str) -> Option<String> {
    let start = line.find(key)? + key.len();
    let tail = &line[start..];
    let end = tail.find('"')?;
    Some(tail[..end].to_string())
}

fn std_wildcard(pattern: &str, text: &str) -> bool {
    let p = pattern.as_bytes();
    let t = text.as_bytes();
    let (mut pi, mut ti) = (0usize, 0usize);
    let (mut star, mut match_i) = (None::<usize>, 0usize);
    while ti < t.len() {
        if pi < p.len() && (p[pi] == b'?' || p[pi] == t[ti]) {
            pi += 1;
            ti += 1;
        } else if pi < p.len() && p[pi] == b'*' {
            star = Some(pi);
            pi += 1;
            match_i = ti;
        } else if let Some(star_pos) = star {
            pi = star_pos + 1;
            match_i += 1;
            ti = match_i;
        } else {
            return false;
        }
    }
    while pi < p.len() && p[pi] == b'*' {
        pi += 1;
    }
    pi == p.len()
}

#[test]
fn white_space_is_what_std_calls_white_space() {
    for n in 0..=0x10FFFFu32 {
        if let Some(c) = char::from_u32(n) {
            assert_eq!(is_whitespace(c), c.is_whitespace(), "U+{n:04X}");
        }
    }
}

#[test]
fn lower_case_is_what_std_gives() {
    for n in 0..=0x2FFu32 {
        if let Some(c) = char::from_u32(n) {
            assert_eq!(to_ascii_lower(c), c.to_ascii_lowercase(), "U+{n:04X}");
        }
    }
}

#[test]
fn characters_round_trip() {
    for s in SAMPLES {
        let chars = to_chars(s);
        assert_eq!(chars, s.chars().collect::<Vec<char>>());
        assert_eq!(from_chars(&chars), *s);
    }
}

#[test]
fn dump_readers_agree_with_std() {
    for s in SAMPLES {
        assert_eq!(parse_nm_symbols(s), std_nm(s), "{s:?}");
        assert_eq!(parse_objdump_exports(s), std_objdump(s), "{s:?}");
    }
}

#[test]
fn csv_sanitize_truthy_agree_with_std() {
    for s in SAMPLES {
        assert_eq!(parse_csv(s), std_csv(s), "{s:?}");
        assert_eq!(sanitize(s), std_sanitize(s), "{s:?}");
        assert_eq!(truthy(s), std_truthy(s), "{s:?}");
        assert_eq!(has_text(s), !s.trim().is_empty(), "{s:?}");
    }
}

#[test]
fn quoted_text_agrees_with_std() {
    for s in SAMPLES {
        for key in ["key=\"", "other=\"", "=", "\"", "a"] {
            assert_eq!(extract_quoted(s, key), std_quoted(s, key), "{s:?} {key:?}");
        }
    }
}

#[test]
fn order_of_strings_is_that_of_std() {
    for a in SAMPLES {
        for b in SAMPLES {
            let expected = match a.cmp(b) {
                std::cmp::Ordering::Less => Order::Before,
                std::cmp::Ordering::Equal => Order::Same,
                std::cmp::Ordering::Greater => Order::After,
            };
            assert_eq!(order_strs(a, b), expected, "{a:?} {b:?}");
            assert_eq!(same_text(a, b), a == b);
        }
    }
}

#[test]
fn wildcards_agree_with_the_plain_reading() {
    let patterns = ["", "*", "?", "a", "a*", "*a", "a?c", "*a*b*", "**", "?*?", "ab*ba", "*::keep_*", "a*b?c*"];
    let texts = ["", "a", "b", "ab", "abc", "aXc", "abba", "ababa", "xaybz", "m::keep_one", "abbc", "a*b", "*"];
    for p in patterns {
        for t in texts {
            assert_eq!(wildcard_match(p, t), std_wildcard(p, t), "{p:?} {t:?}");
        }
    }
}
