use symbaker::sanitize::sanitize;
use symbaker::setup::{check_initialized, setup_hint, truthy, SetupEnv};

#[test]
fn sanitize_examples() {
    assert_eq!(sanitize("hdr"), "hdr");
    assert_eq!(sanitize(""), "_");
    assert_eq!(sanitize("9lives"), "_9lives");
    assert_eq!(sanitize("my-crate.name"), "my_crate_name");
    assert_eq!(sanitize("a b"), "a_b");
    assert_eq!(sanitize("é"), "_");
    assert_eq!(sanitize("_x9"), "_x9");
    assert_eq!(sanitize("-1"), "_1");
}

#[test]
fn sanitize_is_idempotent_on_examples() {
    for s in ["", "9", "a-b", "héllo wörld", "__", "0-0", "Z"] {
        let once = sanitize(s);
        assert_eq!(sanitize(&once), once);
        assert!(!once.is_empty());
        assert!(!once.chars().next().unwrap().is_ascii_digit());
        assert!(once.chars().all(|c| c.is_ascii_alphanumeric() || c == '_'));
    }
}

#[test]
fn truthy_values() {
    for v in ["1", "true", "TRUE", " yes ", "On", "\ttrue\n"] {
        assert!(truthy(v), "{v:?}");
    }
    for v in ["", "0", "false", "no", "off", "2", "tru e", "yess"] {
        assert!(!truthy(v), "{v:?}");
    }
}

fn env(init: Option<&str>, cfg: Option<&str>, exists: bool, req: Option<&str>, enf: Option<&str>) -> SetupEnv {
    SetupEnv {
        initialized: init.map(|s| s.to_string()),
        config: cfg.map(|s| s.to_string()),
        config_exists: exists,
        require_config: req.map(|s| s.to_string()),
        enforce_inherit: enf.map(|s| s.to_string()),
    }
}

#[test]
fn setup_check_passes_when_all_markers_are_on() {
    assert_eq!(check_initialized(&env(Some("1"), Some("/w/symbaker.toml"), true, Some("true"), Some("on"))), Ok(()));
}

#[test]
fn setup_check_reports_the_first_problem() {
    let hint = setup_hint();
    assert_eq!(
        check_initialized(&env(None, None, false, None, None)),
        Err(format!("symbaker-build: missing SYMBAKER_INITIALIZED=1. {hint}"))
    );
    assert_eq!(
        check_initialized(&env(Some("0"), Some("x"), true, Some("1"), Some("1"))),
        Err(format!("symbaker-build: missing SYMBAKER_INITIALIZED=1. {hint}"))
    );
    assert_eq!(
        check_initialized(&env(Some("1"), Some("  "), true, Some("1"), Some("1"))),
        Err(format!("symbaker-build: missing SYMBAKER_CONFIG. {hint}"))
    );
    assert_eq!(
        check_initialized(&env(Some("1"), Some("/w/s.toml"), false, Some("1"), Some("1"))),
        Err(format!("symbaker-build: SYMBAKER_CONFIG points to missing file: /w/s.toml. {hint}"))
    );
    assert_eq!(
        check_initialized(&env(Some("1"), Some("/w/s.toml"), true, None, Some("1"))),
        Err(format!("symbaker-build: expected SYMBAKER_REQUIRE_CONFIG=1 for deterministic builds. {hint}"))
    );
    assert_eq!(
        check_initialized(&env(Some("1"), Some("/w/s.toml"), true, Some("1"), Some("no"))),
        Err(format!(
            "symbaker-build: expected SYMBAKER_ENFORCE_INHERIT=1 to prevent dependency prefix leaks. {hint}"
        ))
    );
}
