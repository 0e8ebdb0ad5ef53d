//! The inheritance rule. A dependency that resolves to a prefix of its own
//! making would carry that prefix into the final output; under enforcement
//! this is an error, without enforcement a warning that is given once.

use vstd::prelude::*;
use vstd::string::*;
use crate::resolve::{is_local_source, PrefixSource};
use crate::setup::{has_text, is_on, is_set, truthy};
use crate::trace::{debug_opt, debug_quoted, opt_text, push_debug_opt, push_quoted, TraceContext, TraceView};

verus! {

/// A dependency resolved to a prefix of its own while enforcement was on.
#[derive(Debug, PartialEq, Eq)]
pub struct Violation {
    /// The source that the dependency resolved to.
    pub source: PrefixSource,
    /// The dependency's name, where it is known.
    pub crate_name: Option<String>,
}

/// The message that reports a violation.
pub open spec fn violation_text(source: PrefixSource, crate_name: Option<Seq<char>>) -> Seq<char> {
    "symbaker: dependency resolved to local "@ + debug_opt(crate_name) + " source ("@
        + source.name_text()
        + ") while SYMBAKER_ENFORCE_INHERIT=1. This would leak dependency prefixes. Run `cargo symdump init` in the top-level workspace, or set SYMBAKER_CONFIG/SYMBAKER_TOP_PACKAGE for this build, or add [overrides] entry."@
}

impl Violation {
    /// The message for the user: which package, which source, and what to do.
    pub fn message(&self) -> (r: String)
        ensures
            r@ == violation_text(self.source, opt_text(self.crate_name)),
    {
        let mut msg: String = "symbaker: dependency resolved to local ".to_owned();
        push_debug_opt(&mut msg, &self.crate_name);
        msg.append(" source (");
        msg.append(self.source.name());
        msg.append(
            ") while SYMBAKER_ENFORCE_INHERIT=1. This would leak dependency prefixes. Run `cargo symdump init` in the top-level workspace, or set SYMBAKER_CONFIG/SYMBAKER_TOP_PACKAGE for this build, or add [overrides] entry.",
        );
        msg
    }
}

/// Whether the prefix is rejected: enforcement is on, the package is not the
/// top-level build target, and its prefix is of its own making.
pub open spec fn is_rejected(source: PrefixSource, enforce: bool, top_level: bool) -> bool {
    enforce && !top_level && is_local_source(source)
}

/// Whether a warning is due: as for a rejection, but with enforcement off.
pub open spec fn is_warned(source: PrefixSource, enforce: bool, top_level: bool) -> bool {
    !enforce && !top_level && is_local_source(source)
}

/// Tests a source for being the package's own.
pub fn local_source(source: PrefixSource) -> (r: bool)
    ensures
        r == is_local_source(source),
{
    match source {
        PrefixSource::Package | PrefixSource::Crate | PrefixSource::CrateFallbackAfterPriority => true,
        _ => false,
    }
}

/// Enforces inheritance: passes every source for the top-level build target and with
/// enforcement off, and every inherited source always.
pub fn enforce_inherited_prefix(
    source: PrefixSource,
    enforce: bool,
    top_level: bool,
    crate_name: Option<String>,
) -> (r: Result<(), Violation>)
    ensures
        r is Err <==> is_rejected(source, enforce, top_level),
        r matches Err(v) ==> v.source == source && v.crate_name == crate_name,
{
    if !enforce {
        return Ok(());
    }
    if top_level {
        return Ok(());
    }
    if local_source(source) {
        Err(Violation { source, crate_name })
    } else {
        Ok(())
    }
}

/// The name under which a package without a known name is reported.
pub open spec fn name_or_unknown(crate_name: Option<Seq<char>>) -> Seq<char> {
    match crate_name {
        Some(n) => n,
        None => "unknown"@,
    }
}

/// The warning about a dependency that resolved to a prefix of its own.
pub open spec fn fallback_warning(source: PrefixSource, crate_name: Option<Seq<char>>) -> Seq<char> {
    "warning: symbaker fallback detected in dependency crate "@ + debug_quoted(
        name_or_unknown(crate_name),
    ) + ": resolved local "@ + source.name_text()
        + " source. This can leak dependency prefixes into final exports. run `cargo symdump init` in workspace root (enables SYMBAKER_REQUIRE_CONFIG=1 and SYMBAKER_ENFORCE_INHERIT=1), or set SYMBAKER_CONFIG/SYMBAKER_TOP_PACKAGE explicitly."@
}

/// Gives the warning about a dependency's own prefix where one is due and
/// none was given before in this process. Never fails.
pub fn warn_on_dependency_fallback(
    source: PrefixSource,
    enforce: bool,
    top_level: bool,
    crate_name: &Option<String>,
    trace: &mut TraceContext,
) -> (r: Option<String>)
    ensures
        r is Some <==> is_warned(source, enforce, top_level) && !old(trace).warned_fallback,
        r matches Some(msg) ==> msg@ == fallback_warning(source, opt_text(*crate_name)),
        final(trace)@ == (TraceView {
            warned_fallback: old(trace).warned_fallback || is_warned(source, enforce, top_level),
            ..old(trace)@
        }),
{
    if enforce || top_level || !local_source(source) {
        return None;
    }
    if trace.warned_fallback {
        return None;
    }
    trace.warned_fallback = true;
    let mut msg: String = "warning: symbaker fallback detected in dependency crate ".to_owned();
    match crate_name {
        Some(n) => push_quoted(&mut msg, n.as_str()),
        None => push_quoted(&mut msg, "unknown"),
    }
    msg.append(": resolved local ");
    msg.append(source.name());
    msg.append(
        " source. This can leak dependency prefixes into final exports. run `cargo symdump init` in workspace root (enables SYMBAKER_REQUIRE_CONFIG=1 and SYMBAKER_ENFORCE_INHERIT=1), or set SYMBAKER_CONFIG/SYMBAKER_TOP_PACKAGE explicitly.",
    );
    Some(msg)
}

/// A dependency with a prefix of its own making is rejected when enforcement
/// is on; with enforcement off the same dependency passes and is warned of.
/// The top-level build target and every inherited source always pass.
pub proof fn lemma_enforcement(source: PrefixSource, top_level: bool)
    ensures
        is_local_source(source) && !top_level ==> is_rejected(source, true, top_level)
            && !is_rejected(source, false, top_level) && is_warned(source, false, top_level),
        !is_local_source(source) || top_level ==> !is_rejected(source, true, top_level)
            && !is_warned(source, false, top_level),
        forall|enforce: bool| !(is_rejected(source, enforce, top_level) && is_warned(source, enforce, top_level)),
{
}

/// Whether a variable switches its flag on.
pub fn truthy_env(v: &Option<String>) -> (r: bool)
    ensures
        r == is_on(*v),
{
    match v {
        Some(s) => truthy(s.as_str()),
        None => false,
    }
}

/// The warning about a workspace that was never set up.
pub open spec fn uninitialized_warning() -> Seq<char> {
    "warning: symbaker appears uninitialized (SYMBAKER_INITIALIZED not set). Run `cargo symdump init` at workspace root to install deterministic config/inheritance checks."@
}

/// Gives the warning about a missing setup, once, unless the setup marker is on.
pub fn warn_if_not_initialized(initialized: &Option<String>, trace: &mut TraceContext) -> (r: Option<
    &'static str,
>)
    ensures
        r is Some <==> !is_on(*initialized) && !old(trace).warned_uninitialized,
        r matches Some(msg) ==> msg@ == uninitialized_warning(),
        final(trace)@ == (TraceView {
            warned_uninitialized: old(trace).warned_uninitialized || !is_on(*initialized),
            ..old(trace)@
        }),
{
    if truthy_env(initialized) {
        return None;
    }
    if trace.warned_uninitialized {
        return None;
    }
    trace.warned_uninitialized = true;
    Some(
        "warning: symbaker appears uninitialized (SYMBAKER_INITIALIZED not set). Run `cargo symdump init` at workspace root to install deterministic config/inheritance checks.",
    )
}

/// What is wrong with the configuration when one is required: nothing when
/// none is required; else the variable must be set, and the file must exist.
pub open spec fn config_problem(
    require: Option<String>,
    config: Option<String>,
    config_exists: bool,
) -> Option<Seq<char>> {
    if !is_on(require) {
        None
    } else if !is_set(config) {
        Some(
            "symbaker: SYMBAKER_REQUIRE_CONFIG=1 but SYMBAKER_CONFIG is missing. Run `cargo symdump init` in the workspace root."@,
        )
    } else if !config_exists {
        Some(
            "symbaker: SYMBAKER_CONFIG points to a missing file: "@ + config->0@
                + ". Run `cargo symdump init` again."@,
        )
    } else {
        None
    }
}

/// Checks that a required configuration is there. `config_exists` says
/// whether the file that `config` names exists.
pub fn validate_required_config(
    require: &Option<String>,
    config: &Option<String>,
    config_exists: bool,
) -> (r: Result<(), String>)
    ensures
        r is Ok <==> config_problem(*require, *config, config_exists) is None,
        r matches Err(msg) ==> config_problem(*require, *config, config_exists) == Some(msg@),
{
    if !truthy_env(require) {
        return Ok(());
    }
    let path: &String = match config {
        Some(p) => p,
        None => {
            return Err(
                "symbaker: SYMBAKER_REQUIRE_CONFIG=1 but SYMBAKER_CONFIG is missing. Run `cargo symdump init` in the workspace root.".to_owned(),
            );
        },
    };
    if !has_text(path.as_str()) {
        return Err(
            "symbaker: SYMBAKER_REQUIRE_CONFIG=1 but SYMBAKER_CONFIG is missing. Run `cargo symdump init` in the workspace root.".to_owned(),
        );
    }
    if !config_exists {
        let mut msg: String = "symbaker: SYMBAKER_CONFIG points to a missing file: ".to_owned();
        msg.append(path.as_str());
        msg.append(". Run `cargo symdump init` again.");
        return Err(msg);
    }
    Ok(())
}

/// The top-level package of the build: the explicit override variable where
/// it is set to more than white space; else the package's own name where the
/// build marks the package as its primary one and the name is more than
/// white space.
pub open spec fn top_level_package(
    top_package: Option<String>,
    primary: bool,
    pkg_name: Option<String>,
) -> Option<Seq<char>> {
    if is_set(top_package) {
        Some(top_package->0@)
    } else if primary && is_set(pkg_name) {
        Some(pkg_name->0@)
    } else {
        None
    }
}

/// Finds the name of the top-level package of the build.
pub fn detect_top_level_package_name(
    top_package: &Option<String>,
    primary: bool,
    pkg_name: &Option<String>,
) -> (r: Option<String>)
    ensures
        opt_text(r) == top_level_package(*top_package, primary, *pkg_name),
{
    match top_package {
        Some(v) => {
            if has_text(v.as_str()) {
                return Some(v.clone());
            }
        },
        None => {},
    }
    if primary {
        match pkg_name {
            Some(v) => {
                if has_text(v.as_str()) {
                    return Some(v.clone());
                }
            },
            None => {},
        }
    }
    None
}

/// The name of the top-level package of the build.
pub fn top_level_package_name(
    top_package: &Option<String>,
    primary: bool,
    pkg_name: &Option<String>,
) -> (r: Option<String>)
    ensures
        opt_text(r) == top_level_package(*top_package, primary, *pkg_name),
{
    detect_top_level_package_name(top_package, primary, pkg_name)
}

} // verus!
