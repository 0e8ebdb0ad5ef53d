use symbaker::args::{find_flag_value, has_flag, manifest_path_from_args, profile_from_args, resolve_repo_arg};
use symbaker::report::{
    dependencies_of, dependency_tree, extract_quoted, parse_trace, resolution_crates, top_package_of,
    ResolutionCrate, TraceCrate,
};

fn s(v: &str) -> Option<String> {
    Some(v.to_string())
}

fn strings(v: &[&str]) -> Vec<String> {
    v.iter().map(|s| s.to_string()).collect()
}

#[test]
fn quoted_text_after_a_key() {
    assert_eq!(extract_quoted("a key=\"val\" b", "key=\""), s("val"));
    assert_eq!(extract_quoted("key=\"\"", "key=\""), s(""));
    assert_eq!(extract_quoted("key=\"open", "key=\""), None);
    assert_eq!(extract_quoted("nothing here", "key=\""), None);
    assert_eq!(extract_quoted("k=\"1\" k=\"2\"", "k=\""), s("1"));
}

const TRACE: &str = "[symbaker] env CARGO_PKG_NAME=Some(\"zeta\") CARGO_MANIFEST_DIR=Some(\"/w/zeta\") CARGO_PRIMARY_PACKAGE=None\n\
[symbaker] resolve_prefix input attr_prefix=None\n\
[symbaker] selected source=top_package raw=\"host-app\" sanitized=\"host_app\"\n\
[symbaker] macro=symbaker function=\"run\" resolved_prefix=\"host_app\" export_name=\"host_app__run\"\n\
[symbaker] macro=symbaker function=\"stop\" resolved_prefix=\"host_app\" export_name=\"host_app__stop\"\n\
[symbaker] macro=symbaker function=\"run\" resolved_prefix=\"host_app\" export_name=\"host_app__run\"\n\
[symbaker] env CARGO_PKG_NAME=Some(\"alpha\") CARGO_MANIFEST_DIR=None\r\n\
[symbaker] selected source=override(crate=\"alpha\") raw=\"hdr\" sanitized=\"hdr\"\n\
[symbaker] macro=symbaker function=\"a\" export_name=\"hdr__a\"\n\
[symbaker] env CARGO_PKG_NAME=None\n\
[symbaker] macro=symbaker function=\"b\" export_name=\"hdr__b\"\n";

#[test]
fn trace_is_read_back_by_package() {
    assert_eq!(
        parse_trace(TRACE),
        vec![
            TraceCrate {
                name: "alpha".to_string(),
                manifest_dir: None,
                selected_source: s("override(crate=\"alpha\")"),
                resolved_prefix: s("hdr"),
                symbols: strings(&["hdr__a", "hdr__b"]),
            },
            TraceCrate {
                name: "zeta".to_string(),
                manifest_dir: s("/w/zeta"),
                selected_source: s("top_package"),
                resolved_prefix: s("host_app"),
                symbols: strings(&["host_app__run", "host_app__stop"]),
            },
        ]
    );
    assert!(parse_trace("").is_empty());
    assert!(parse_trace("selected source=attr sanitized=\"x\"\nexport_name=\"y\"\n").is_empty());
}

#[test]
fn a_package_seen_again_keeps_what_was_found() {
    let body = "env CARGO_PKG_NAME=Some(\"p\") CARGO_MANIFEST_DIR=Some(\"/1\")\nselected source=attr raw=\"x\" sanitized=\"x\"\nexport_name=\"x__f\"\nenv CARGO_PKG_NAME=Some(\"p\")\nselected source= sanitized=\"\nselected source=config\nexport_name=\"x__g\"\n";
    assert_eq!(
        parse_trace(body),
        vec![TraceCrate {
            name: "p".to_string(),
            manifest_dir: None,
            selected_source: s("config"),
            resolved_prefix: s("x"),
            symbols: strings(&["x__f", "x__g"]),
        }]
    );
}

#[test]
fn dependency_tree_names_sorted_unique_dependencies() {
    let packages = vec![
        ("id-a".to_string(), "a".to_string()),
        ("id-b".to_string(), "b".to_string()),
        ("id-c".to_string(), "c".to_string()),
        ("".to_string(), "anonymous".to_string()),
        ("id-n".to_string(), "".to_string()),
    ];
    let nodes = vec![
        ("id-a".to_string(), strings(&["id-c", "id-b", "id-c", "id-x", "", "id-n"])),
        ("id-x".to_string(), strings(&["id-a"])),
        ("id-b".to_string(), Vec::new()),
        ("".to_string(), strings(&["id-a"])),
    ];
    let tree = dependency_tree(&packages, &nodes);
    assert_eq!(tree, vec![("a".to_string(), strings(&["b", "c"])), ("b".to_string(), Vec::new())]);
    assert_eq!(dependencies_of(&tree, "a"), strings(&["b", "c"]));
    assert!(dependencies_of(&tree, "b").is_empty());
    assert!(dependencies_of(&tree, "zzz").is_empty());
}

#[test]
fn report_entries_and_pinned_overrides() {
    let traces = parse_trace(TRACE);
    let tree = vec![("zeta".to_string(), strings(&["alpha"])), ("zeta".to_string(), strings(&["alpha", "beta"]))];
    let (crates, overrides) = resolution_crates(&traces, &tree);
    assert_eq!(
        crates,
        vec![
            ResolutionCrate {
                name: "alpha".to_string(),
                manifest_dir: None,
                selected_source: s("override(crate=\"alpha\")"),
                resolved_prefix: s("hdr"),
                dependencies: Vec::new(),
                symbols: strings(&["hdr__a", "hdr__b"]),
            },
            ResolutionCrate {
                name: "zeta".to_string(),
                manifest_dir: s("/w/zeta"),
                selected_source: s("top_package"),
                resolved_prefix: s("host_app"),
                dependencies: strings(&["alpha", "beta"]),
                symbols: strings(&["host_app__run", "host_app__stop"]),
            },
        ]
    );
    assert_eq!(overrides, vec![("alpha".to_string(), "hdr".to_string()), ("zeta".to_string(), "host_app".to_string())]);
}

#[test]
fn report_sorts_symbols() {
    let traces = vec![TraceCrate {
        name: "p".to_string(),
        manifest_dir: None,
        selected_source: None,
        resolved_prefix: None,
        symbols: strings(&["p__z", "p__a", "p__m"]),
    }];
    let (crates, overrides) = resolution_crates(&traces, &Vec::new());
    assert_eq!(crates[0].symbols, strings(&["p__a", "p__m", "p__z"]));
    assert!(overrides.is_empty());
}

#[test]
fn repository_arguments() {
    let default = "https://github.com/BlankMauser/symbaker".to_string();
    assert_eq!(resolve_repo_arg("https://x/y#abc"), ("https://x/y".to_string(), s("abc")));
    assert_eq!(resolve_repo_arg("a#b#c"), ("a#b".to_string(), s("c")));
    assert_eq!(resolve_repo_arg("0123abc"), (default.clone(), s("0123abc")));
    assert_eq!(resolve_repo_arg("0123ABCdef0123ABCdef0123ABCdef0123ABCdef"), (default.clone(), s("0123ABCdef0123ABCdef0123ABCdef0123ABCdef")));
    assert_eq!(resolve_repo_arg("0123ab"), ("0123ab".to_string(), None));
    assert_eq!(resolve_repo_arg("0123ABCdef0123ABCdef0123ABCdef0123ABCdef0"), ("0123ABCdef0123ABCdef0123ABCdef0123ABCdef0".to_string(), None));
    assert_eq!(resolve_repo_arg("0123abg"), ("0123abg".to_string(), None));
    assert_eq!(resolve_repo_arg("#abcdef0"), ("#abcdef0".to_string(), None));
    assert_eq!(resolve_repo_arg("abcdef0#"), ("abcdef0#".to_string(), None));
    assert_eq!(resolve_repo_arg(""), ("".to_string(), None));
}

#[test]
fn flag_values() {
    let args = strings(&["build", "--manifest-path", "a/Cargo.toml", "--profile=dev", "--target-dir"]);
    assert_eq!(manifest_path_from_args(&args), s("a/Cargo.toml"));
    assert_eq!(find_flag_value(&args, "--profile"), s("dev"));
    assert_eq!(find_flag_value(&args, "--target-dir"), None);
    assert_eq!(find_flag_value(&args, "--other"), None);
    assert_eq!(find_flag_value(&strings(&["--x=", "--x", "v"]), "--x"), s(""));
    assert_eq!(profile_from_args(&args), s("dev"));
    assert_eq!(profile_from_args(&strings(&["--profile", "dev", "--release"])), s("release"));
    assert_eq!(profile_from_args(&strings(&["build"])), None);
    assert!(has_flag(&args, "build"));
    assert!(!has_flag(&args, "--profile"));
}

#[test]
fn top_package_is_the_root_or_the_first_default_member() {
    let packages = vec![
        ("id-a".to_string(), "a".to_string()),
        ("id-b".to_string(), "b".to_string()),
        ("id-b".to_string(), "shadow".to_string()),
    ];
    assert_eq!(top_package_of(&s("id-b"), &strings(&["id-a"]), &packages), s("b"));
    assert_eq!(top_package_of(&None, &strings(&["id-a", "id-b"]), &packages), s("a"));
    assert_eq!(top_package_of(&None, &Vec::new(), &packages), None);
    assert_eq!(top_package_of(&s("id-x"), &strings(&["id-a"]), &packages), None);
    assert_eq!(top_package_of(&s("id-a"), &Vec::new(), &Vec::new()), None);
}
