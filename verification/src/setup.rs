//! Tests whether a workspace has been initialised: the environment markers
//! that the one-time setup installs must be present and switched on.

use vstd::prelude::*;
use vstd::string::*;
use crate::text::{ascii_lower, is_blank, same_text, to_ascii_lower, to_chars, trim_bounds, trimmed};

verus! {

/// `s` with its ASCII upper-case letters lowered.
pub open spec fn lower_text(s: Seq<char>) -> Seq<char> {
    s.map_values(|c: char| ascii_lower(c))
}

/// Whether `s` switches a flag on: trimmed and lower-cased it reads `1`,
/// `true`, `yes` or `on`.
pub open spec fn is_truthy(s: Seq<char>) -> bool {
    let n = lower_text(trimmed(s));
    n == "1"@ || n == "true"@ || n == "yes"@ || n == "on"@
}

/// Whether a value switches a flag on.
pub fn truthy(v: &str) -> (r: bool)
    ensures
        r == is_truthy(v@),
{
    let chars = to_chars(v);
    assert(chars@.subrange(0, chars@.len() as int) =~= chars@);
    let (lo, hi) = trim_bounds(&chars, 0, chars.len());
    let ghost t = trimmed(v@);
    let mut lowered = String::new();
    let mut i: usize = lo;
    while i < hi
        invariant
            lo <= i <= hi <= chars@.len(),
            t == chars@.subrange(lo as int, hi as int),
            lowered@ == lower_text(t).take(i - lo),
        decreases hi - i,
    {
        lowered.push(to_ascii_lower(chars[i]));
        assert(lowered@ =~= lower_text(t).take(i + 1 - lo));
        i = i + 1;
    }
    assert(lowered@ =~= lower_text(t));
    let n: &str = lowered.as_str();
    same_text(n, "1") || same_text(n, "true") || same_text(n, "yes") || same_text(n, "on")
}

/// Whether `v` holds something other than white space.
pub fn has_text(v: &str) -> (r: bool)
    ensures
        r == !is_blank(v@),
{
    let chars = to_chars(v);
    assert(chars@.subrange(0, chars@.len() as int) =~= chars@);
    let (lo, hi) = trim_bounds(&chars, 0, chars.len());
    lo != hi
}

/// What the environment says about the setup: the values of the four marker
/// variables as they were read (`None` for a variable that is not set), and
/// whether the file that the configuration variable names exists.
pub struct SetupEnv {
    pub initialized: Option<String>,
    pub config: Option<String>,
    pub config_exists: bool,
    pub require_config: Option<String>,
    pub enforce_inherit: Option<String>,
}

/// Whether a variable is set to something other than white space.
pub open spec fn is_set(v: Option<String>) -> bool {
    v is Some && !is_blank(v->0@)
}

/// Whether a variable is set and switches its flag on.
pub open spec fn is_on(v: Option<String>) -> bool {
    v is Some && is_truthy(v->0@)
}

/// What to do about a workspace that is not set up.
pub open spec fn hint_text() -> Seq<char> {
    "Run `cargo install --git https://github.com/BlankMauser/symbaker --bin cargo-symdump --force` then `cargo symdump init --prefix <your_prefix>` from workspace root."@
}

/// The first thing that is wrong with the setup, as the message that reports
/// it; `None` when the workspace is set up.
pub open spec fn setup_problem(env: SetupEnv) -> Option<Seq<char>> {
    if !(is_set(env.initialized) && is_on(env.initialized)) {
        Some("symbaker-build: missing SYMBAKER_INITIALIZED=1. "@ + hint_text())
    } else if !is_set(env.config) {
        Some("symbaker-build: missing SYMBAKER_CONFIG. "@ + hint_text())
    } else if !env.config_exists {
        Some(
            "symbaker-build: SYMBAKER_CONFIG points to missing file: "@ + env.config->0@ + ". "@
                + hint_text(),
        )
    } else if !(is_set(env.require_config) && is_on(env.require_config)) {
        Some(
            "symbaker-build: expected SYMBAKER_REQUIRE_CONFIG=1 for deterministic builds. "@
                + hint_text(),
        )
    } else if !(is_set(env.enforce_inherit) && is_on(env.enforce_inherit)) {
        Some(
            "symbaker-build: expected SYMBAKER_ENFORCE_INHERIT=1 to prevent dependency prefix leaks. "@
                + hint_text(),
        )
    } else {
        None
    }
}

/// The advice that every setup message ends with.
pub fn setup_hint() -> (r: &'static str)
    ensures
        r@ == hint_text(),
{
    "Run `cargo install --git https://github.com/BlankMauser/symbaker --bin cargo-symdump --force` then `cargo symdump init --prefix <your_prefix>` from workspace root."
}

/// Whether a variable is set to something other than white space and switches its flag on.
fn flag_on(v: &Option<String>) -> (r: bool)
    ensures
        r == (is_set(*v) && is_on(*v)),
{
    match v {
        Some(s) => has_text(s.as_str()) && truthy(s.as_str()),
        None => false,
    }
}

/// `head` followed by the setup advice.
fn with_hint(head: &str) -> (r: String)
    ensures
        r@ == head@ + hint_text(),
{
    let mut msg: String = head.to_owned();
    msg.append(setup_hint());
    msg
}

/// Checks that the workspace is set up. `Ok` when all markers are present and
/// valid; otherwise the message for the first marker that is not.
pub fn check_initialized(env: &SetupEnv) -> (r: Result<(), String>)
    ensures
        r is Ok <==> setup_problem(*env) is None,
        r matches Err(msg) ==> setup_problem(*env) == Some(msg@),
{
    if !flag_on(&env.initialized) {
        return Err(with_hint("symbaker-build: missing SYMBAKER_INITIALIZED=1. "));
    }
    let cfg: &String = match &env.config {
        Some(c) => c,
        None => {
            return Err(with_hint("symbaker-build: missing SYMBAKER_CONFIG. "));
        },
    };
    if !has_text(cfg.as_str()) {
        return Err(with_hint("symbaker-build: missing SYMBAKER_CONFIG. "));
    }
    if !env.config_exists {
        let mut msg: String = "symbaker-build: SYMBAKER_CONFIG points to missing file: ".to_owned();
        msg.append(cfg.as_str());
        msg.append(". ");
        msg.append(setup_hint());
        return Err(msg);
    }
    if !flag_on(&env.require_config) {
        return Err(
            with_hint(
                "symbaker-build: expected SYMBAKER_REQUIRE_CONFIG=1 for deterministic builds. ",
            ),
        );
    }
    if !flag_on(&env.enforce_inherit) {
        return Err(
            with_hint(
                "symbaker-build: expected SYMBAKER_ENFORCE_INHERIT=1 to prevent dependency prefix leaks. ",
            ),
        );
    }
    Ok(())
}

} // verus!
