use symbaker::enforce::{
    detect_top_level_package_name, enforce_inherited_prefix, top_level_package_name, truthy_env,
    validate_required_config, warn_if_not_initialized, warn_on_dependency_fallback,
};
use symbaker::resolve::{default_priority, resolve_prefix, Config, PrefixInputs, PrefixSource};
use symbaker::trace::{EnvSnapshot, TraceContext};

fn s(v: &str) -> Option<String> {
    Some(v.to_string())
}

fn inputs(crate_name: &str) -> PrefixInputs {
    PrefixInputs {
        attr_prefix: None,
        env_prefix: None,
        top_package: None,
        workspace_prefix: None,
        package_prefix: None,
        prefers_package_prefix: false,
        crate_name: crate_name.to_string(),
        config: Config::default(),
    }
}

fn resolve(inp: &PrefixInputs) -> (String, String, PrefixSource) {
    let mut trace = TraceContext::new(false);
    let r = resolve_prefix(inp, &mut trace);
    assert!(trace.lines.is_empty());
    (r.prefix, r.sep, r.source)
}

#[test]
fn default_priority_order() {
    assert_eq!(
        default_priority(),
        vec!["attr", "env_prefix", "config", "top_package", "workspace", "package", "crate"]
    );
}

#[test]
fn attribute_wins_over_environment_and_config() {
    let mut inp = inputs("dep");
    inp.attr_prefix = s("x");
    inp.env_prefix = s("y");
    inp.config.prefix = s("z");
    assert_eq!(resolve(&inp), ("x".to_string(), "__".to_string(), PrefixSource::Attr));
}

#[test]
fn each_source_wins_when_those_before_it_are_absent() {
    let mut inp = inputs("my-dep");
    inp.package_prefix = s("pkg");
    assert_eq!(resolve(&inp).2, PrefixSource::Package);
    inp.workspace_prefix = s("ws");
    assert_eq!(resolve(&inp), ("ws".to_string(), "__".to_string(), PrefixSource::Workspace));
    inp.top_package = s("top");
    assert_eq!(resolve(&inp).2, PrefixSource::TopPackage);
    inp.config.prefix = s("cfg");
    assert_eq!(resolve(&inp).2, PrefixSource::Config);
    inp.env_prefix = s("env");
    assert_eq!(resolve(&inp), ("env".to_string(), "__".to_string(), PrefixSource::EnvPrefix));
    inp.attr_prefix = s("attr");
    assert_eq!(resolve(&inp).2, PrefixSource::Attr);
}

#[test]
fn crate_name_is_the_last_entry_of_the_default_list() {
    let inp = inputs("my-dep");
    assert_eq!(resolve(&inp), ("my_dep".to_string(), "__".to_string(), PrefixSource::Crate));
}

#[test]
fn override_wins_over_opt_out_and_attribute() {
    let mut inp = inputs("p");
    inp.attr_prefix = s("x");
    inp.prefers_package_prefix = true;
    inp.package_prefix = s("own");
    inp.config.overrides = Some(vec![
        ("other".to_string(), "no".to_string()),
        ("p".to_string(), "forced-1".to_string()),
    ]);
    assert_eq!(resolve(&inp), ("forced_1".to_string(), "__".to_string(), PrefixSource::Override));
}

#[test]
fn override_is_looked_up_by_exact_name() {
    let mut inp = inputs("p");
    inp.config.overrides = Some(vec![("P".to_string(), "no".to_string()), ("pp".to_string(), "no".to_string())]);
    assert_eq!(resolve(&inp).2, PrefixSource::Crate);
}

#[test]
fn opt_out_uses_package_prefix_then_crate_name() {
    let mut inp = inputs("9dep");
    inp.attr_prefix = s("x");
    inp.prefers_package_prefix = true;
    assert_eq!(
        resolve(&inp),
        ("_9dep".to_string(), "__".to_string(), PrefixSource::PreferPackagePrefixCrateFallback)
    );
    inp.package_prefix = s("own");
    assert_eq!(
        resolve(&inp),
        ("own".to_string(), "__".to_string(), PrefixSource::PreferPackagePrefixPackage)
    );
}

#[test]
fn configured_priority_and_separator() {
    let mut inp = inputs("dep");
    inp.attr_prefix = s("x");
    inp.config.prefix = s("z");
    inp.config.sep = s("_");
    inp.config.priority = Some(vec!["bogus".to_string(), "config".to_string(), "attr".to_string()]);
    assert_eq!(resolve(&inp), ("z".to_string(), "_".to_string(), PrefixSource::Config));
}

#[test]
fn exhausted_priority_list_falls_back_to_crate_name() {
    let mut inp = inputs("dep");
    inp.config.priority = Some(vec!["attr".to_string(), "nonsense".to_string()]);
    assert_eq!(
        resolve(&inp),
        ("dep".to_string(), "__".to_string(), PrefixSource::CrateFallbackAfterPriority)
    );
    inp.config.priority = Some(vec![]);
    assert_eq!(resolve(&inp).2, PrefixSource::CrateFallbackAfterPriority);
}

#[test]
fn empty_candidate_is_passed_by() {
    let mut inp = inputs("dep");
    inp.env_prefix = s("");
    assert_eq!(resolve(&inp), ("dep".to_string(), "__".to_string(), PrefixSource::Crate));
    inp.attr_prefix = s("");
    inp.env_prefix = s("y");
    assert_eq!(resolve(&inp), ("y".to_string(), "__".to_string(), PrefixSource::EnvPrefix));
    inp.env_prefix = s("");
    inp.config.prefix = s("");
    inp.top_package = s("");
    inp.workspace_prefix = s("");
    inp.package_prefix = s("");
    assert_eq!(resolve(&inp), ("dep".to_string(), "__".to_string(), PrefixSource::Crate));
    inp.package_prefix = s("own");
    assert_eq!(resolve(&inp), ("own".to_string(), "__".to_string(), PrefixSource::Package));
    inp.config.priority = Some(vec!["attr".to_string(), "env_prefix".to_string()]);
    assert_eq!(resolve(&inp), ("dep".to_string(), "__".to_string(), PrefixSource::CrateFallbackAfterPriority));
}

#[test]
fn trace_records_inputs_candidates_and_choice() {
    let mut inp = inputs("dep");
    inp.attr_prefix = s("x");
    inp.env_prefix = s("y");
    inp.config.prefix = s("z");
    let mut trace = TraceContext::new(true);
    let r = resolve_prefix(&inp, &mut trace);
    assert_eq!(r.source, PrefixSource::Attr);
    assert_eq!(
        trace.lines,
        vec![
            "[symbaker] resolve_prefix input attr_prefix=Some(\"x\") config.prefix=Some(\"z\") config.sep=None config.priority=None config.overrides_keys=None",
            "[symbaker] resolved candidates env_prefix=Some(\"y\") top_package=None workspace_prefix=None package_prefix=None override_prefix=None crate=\"dep\" sep=\"__\"",
            "[symbaker] candidate source=attr raw=\"x\" sanitized=\"x\"",
            "[symbaker] candidate source=env_prefix raw=\"y\" sanitized=\"y\"",
            "[symbaker] candidate source=config raw=\"z\" sanitized=\"z\"",
            "[symbaker] candidate source=crate raw=\"dep\" sanitized=\"dep\"",
            "[symbaker] selected source=attr raw=\"x\" sanitized=\"x\"",
        ]
    );
}

#[test]
fn trace_notes_unknown_keys_and_quotes_raw_values() {
    let mut inp = inputs("de\"p");
    inp.config.priority = Some(vec!["what".to_string(), "crate".to_string()]);
    inp.config.overrides = Some(vec![("a".to_string(), "b".to_string()), ("c".to_string(), "d".to_string())]);
    let mut trace = TraceContext::new(true);
    let r = resolve_prefix(&inp, &mut trace);
    assert_eq!(r.prefix, "de_p");
    assert_eq!(
        trace.lines,
        vec![
            "[symbaker] resolve_prefix input attr_prefix=None config.prefix=None config.sep=None config.priority=Some([\"what\", \"crate\"]) config.overrides_keys=Some([\"a\", \"c\"])",
            "[symbaker] resolved candidates env_prefix=None top_package=None workspace_prefix=None package_prefix=None override_prefix=None crate=\"de\\\"p\" sep=\"__\"",
            "[symbaker] candidate source=crate raw=\"de\\\"p\" sanitized=\"de_p\"",
            "[symbaker] priority key \"what\" is unknown and ignored",
            "[symbaker] selected source=crate raw=\"de\\\"p\" sanitized=\"de_p\"",
        ]
    );
}

#[test]
fn trace_labels_an_override_with_the_package() {
    let mut inp = inputs("p");
    inp.config.overrides = Some(vec![("p".to_string(), "hdr".to_string())]);
    let mut trace = TraceContext::new(true);
    resolve_prefix(&inp, &mut trace);
    assert_eq!(trace.lines.len(), 5);
    assert_eq!(trace.lines[2], "[symbaker] candidate source=override(crate=\"p\") raw=\"hdr\" sanitized=\"hdr\"");
    assert_eq!(trace.lines[3], "[symbaker] candidate source=crate raw=\"p\" sanitized=\"p\"");
    assert_eq!(
        trace.lines[1],
        "[symbaker] resolved candidates env_prefix=None top_package=None workspace_prefix=None package_prefix=None override_prefix=Some(\"hdr\") crate=\"p\" sep=\"__\""
    );
    assert_eq!(trace.lines[4], "[symbaker] selected source=override(crate=\"p\") raw=\"hdr\" sanitized=\"hdr\"");
}

#[test]
fn bootstrap_records_the_environment_once() {
    let env = EnvSnapshot {
        pkg_name: s("dep"),
        manifest_dir: s("/w/dep"),
        primary_package: None,
        top_package: s("host"),
        prefix: None,
        config: s("/w/symbaker.toml"),
        priority: None,
    };
    let mut trace = TraceContext::new(true);
    trace.bootstrap(&env);
    trace.bootstrap(&env);
    assert_eq!(
        trace.lines,
        vec![
            "[symbaker] env CARGO_PKG_NAME=Some(\"dep\") CARGO_MANIFEST_DIR=Some(\"/w/dep\") CARGO_PRIMARY_PACKAGE=None SYMBAKER_TOP_PACKAGE=Some(\"host\") SYMBAKER_PREFIX=None SYMBAKER_CONFIG=Some(\"/w/symbaker.toml\") SYMBAKER_PRIORITY=None"
        ]
    );
    let mut off = TraceContext::new(false);
    off.bootstrap(&env);
    off.emit("x");
    assert!(off.lines.is_empty());
    assert!(!off.bootstrapped);
}

#[test]
fn enforcement_rejects_local_sources_of_dependencies() {
    for source in [PrefixSource::Package, PrefixSource::Crate, PrefixSource::CrateFallbackAfterPriority] {
        let err = enforce_inherited_prefix(source, true, false, s("dep")).unwrap_err();
        assert_eq!(err.source, source);
        assert_eq!(err.crate_name, s("dep"));
        assert_eq!(enforce_inherited_prefix(source, true, true, s("dep")), Ok(()));
        assert_eq!(enforce_inherited_prefix(source, false, false, s("dep")), Ok(()));
    }
    for source in [
        PrefixSource::Override,
        PrefixSource::PreferPackagePrefixPackage,
        PrefixSource::PreferPackagePrefixCrateFallback,
        PrefixSource::Attr,
        PrefixSource::EnvPrefix,
        PrefixSource::Config,
        PrefixSource::TopPackage,
        PrefixSource::Workspace,
    ] {
        assert_eq!(enforce_inherited_prefix(source, true, false, None), Ok(()));
    }
}

#[test]
fn violation_message_names_package_and_source() {
    let err = enforce_inherited_prefix(PrefixSource::Package, true, false, s("dep")).unwrap_err();
    assert_eq!(
        err.message(),
        "symbaker: dependency resolved to local Some(\"dep\") source (Package) while SYMBAKER_ENFORCE_INHERIT=1. This would leak dependency prefixes. Run `cargo symdump init` in the top-level workspace, or set SYMBAKER_CONFIG/SYMBAKER_TOP_PACKAGE for this build, or add [overrides] entry."
    );
    let err = enforce_inherited_prefix(PrefixSource::CrateFallbackAfterPriority, true, false, None).unwrap_err();
    assert!(err.message().starts_with(
        "symbaker: dependency resolved to local None source (CrateFallbackAfterPriority) while"
    ));
}

#[test]
fn without_enforcement_the_dependency_is_warned_of_once() {
    let mut trace = TraceContext::new(false);
    let first = warn_on_dependency_fallback(PrefixSource::Crate, false, false, &s("dep"), &mut trace);
    assert_eq!(
        first,
        s("warning: symbaker fallback detected in dependency crate \"dep\": resolved local Crate source. This can leak dependency prefixes into final exports. run `cargo symdump init` in workspace root (enables SYMBAKER_REQUIRE_CONFIG=1 and SYMBAKER_ENFORCE_INHERIT=1), or set SYMBAKER_CONFIG/SYMBAKER_TOP_PACKAGE explicitly.")
    );
    assert!(trace.warned_fallback);
    assert_eq!(warn_on_dependency_fallback(PrefixSource::Crate, false, false, &s("dep"), &mut trace), None);

    let mut trace = TraceContext::new(false);
    assert_eq!(warn_on_dependency_fallback(PrefixSource::Package, true, false, &None, &mut trace), None);
    assert_eq!(warn_on_dependency_fallback(PrefixSource::Package, false, true, &None, &mut trace), None);
    assert_eq!(warn_on_dependency_fallback(PrefixSource::Workspace, false, false, &None, &mut trace), None);
    assert!(!trace.warned_fallback);
    let unnamed = warn_on_dependency_fallback(PrefixSource::Package, false, false, &None, &mut trace).unwrap();
    assert!(unnamed.starts_with("warning: symbaker fallback detected in dependency crate \"unknown\": resolved local Package source."));
}

#[test]
fn setup_warning_is_given_once_unless_initialized() {
    let mut trace = TraceContext::new(false);
    assert_eq!(warn_if_not_initialized(&s("1"), &mut trace), None);
    assert!(!trace.warned_uninitialized);
    let w = warn_if_not_initialized(&None, &mut trace).unwrap();
    assert!(w.starts_with("warning: symbaker appears uninitialized"));
    assert_eq!(warn_if_not_initialized(&s("0"), &mut trace), None);
}

#[test]
fn required_config_must_be_named_and_exist() {
    assert_eq!(validate_required_config(&None, &None, false), Ok(()));
    assert_eq!(validate_required_config(&s("off"), &None, false), Ok(()));
    assert_eq!(
        validate_required_config(&s("1"), &None, false),
        Err("symbaker: SYMBAKER_REQUIRE_CONFIG=1 but SYMBAKER_CONFIG is missing. Run `cargo symdump init` in the workspace root.".to_string())
    );
    assert_eq!(
        validate_required_config(&s("yes"), &s(" "), true),
        Err("symbaker: SYMBAKER_REQUIRE_CONFIG=1 but SYMBAKER_CONFIG is missing. Run `cargo symdump init` in the workspace root.".to_string())
    );
    assert_eq!(
        validate_required_config(&s("1"), &s("/w/s.toml"), false),
        Err("symbaker: SYMBAKER_CONFIG points to a missing file: /w/s.toml. Run `cargo symdump init` again.".to_string())
    );
    assert_eq!(validate_required_config(&s("1"), &s("/w/s.toml"), true), Ok(()));
}

#[test]
fn top_level_package_detection() {
    assert_eq!(detect_top_level_package_name(&s("host"), false, &s("dep")), s("host"));
    assert_eq!(detect_top_level_package_name(&s("  "), true, &s("dep")), s("dep"));
    assert_eq!(detect_top_level_package_name(&None, true, &s("dep")), s("dep"));
    assert_eq!(detect_top_level_package_name(&None, false, &s("dep")), None);
    assert_eq!(detect_top_level_package_name(&None, true, &s("")), None);
    assert_eq!(top_level_package_name(&None, true, &None), None);
    assert!(truthy_env(&s(" On ")));
    assert!(!truthy_env(&None));
}

#[test]
fn trace_records_only_candidates_that_hold_text() {
    let mut inp = inputs("dep");
    inp.attr_prefix = s("");
    inp.env_prefix = s("y");
    let mut trace = TraceContext::new(true);
    let r = resolve_prefix(&inp, &mut trace);
    assert_eq!(r.source, PrefixSource::EnvPrefix);
    assert_eq!(
        trace.lines,
        vec![
            "[symbaker] resolve_prefix input attr_prefix=Some(\"\") config.prefix=None config.sep=None config.priority=None config.overrides_keys=None",
            "[symbaker] resolved candidates env_prefix=Some(\"y\") top_package=None workspace_prefix=None package_prefix=None override_prefix=None crate=\"dep\" sep=\"__\"",
            "[symbaker] candidate source=env_prefix raw=\"y\" sanitized=\"y\"",
            "[symbaker] candidate source=crate raw=\"dep\" sanitized=\"dep\"",
            "[symbaker] selected source=env_prefix raw=\"y\" sanitized=\"y\"",
        ]
    );
}
