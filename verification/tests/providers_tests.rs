use symbaker::providers::{
    crate_name_or_default, read_package_prefers_own_prefix, read_prefix_from_package_metadata,
    read_prefix_from_workspace_metadata, ManifestProbe, Probe,
};
use symbaker::trace::TraceContext;

fn s(v: &str) -> Option<String> {
    Some(v.to_string())
}

fn probe(path: &str, found: Probe) -> ManifestProbe {
    ManifestProbe { path: path.to_string(), found }
}

const PACKAGE: &str = "[package]\nname = \"dep\"\n\n[package.metadata.symbaker]\nprefix = \"ssbusync\"\nprefer_package_prefix = true\n";
const WORKSPACE: &str = "[workspace]\nmembers = [\"a\"]\n\n[workspace.metadata.symbaker]\nprefix = \"hdr\"\n";
const PLAIN: &str = "[package]\nname = \"dep\"\n";

#[test]
fn package_metadata() {
    assert_eq!(read_prefix_from_package_metadata(&s(PACKAGE)), s("ssbusync"));
    assert_eq!(read_prefix_from_package_metadata(&s(PLAIN)), None);
    assert_eq!(read_prefix_from_package_metadata(&s(WORKSPACE)), None);
    assert_eq!(read_prefix_from_package_metadata(&s("not [ toml")), None);
    assert_eq!(read_prefix_from_package_metadata(&s("[package.metadata.symbaker]\nprefix = 7\n")), None);
    assert_eq!(read_prefix_from_package_metadata(&None), None);
}

#[test]
fn package_preference() {
    assert!(read_package_prefers_own_prefix(&s(PACKAGE)));
    assert!(!read_package_prefers_own_prefix(&s(PLAIN)));
    assert!(!read_package_prefers_own_prefix(&s("[package.metadata.symbaker]\nprefer_package_prefix = false\n")));
    assert!(!read_package_prefers_own_prefix(&s("[package.metadata.symbaker]\nprefer_package_prefix = \"true\"\n")));
    assert!(!read_package_prefers_own_prefix(&s("= broken")));
    assert!(!read_package_prefers_own_prefix(&None));
}

#[test]
fn workspace_prefix_is_the_nearest_one_above() {
    let chain = vec![
        probe("/w/a/dep/Cargo.toml", Probe::Manifest(PLAIN.to_string())),
        probe("/w/a/Cargo.toml", Probe::Missing),
        probe("/w/Cargo.toml", Probe::Manifest(WORKSPACE.to_string())),
        probe("/Cargo.toml", Probe::Manifest("[workspace.metadata.symbaker]\nprefix = \"far\"\n".to_string())),
    ];
    let mut trace = TraceContext::new(true);
    assert_eq!(read_prefix_from_workspace_metadata(&chain, &mut trace), s("hdr"));
    assert_eq!(trace.lines, vec!["[symbaker] workspace metadata prefix found in /w/Cargo.toml: \"hdr\""]);
}

#[test]
fn workspace_walk_gives_up_on_a_manifest_it_cannot_use() {
    let chain = vec![
        probe("/w/dep/Cargo.toml", Probe::Unreadable),
        probe("/w/Cargo.toml", Probe::Manifest(WORKSPACE.to_string())),
    ];
    let mut trace = TraceContext::new(true);
    assert_eq!(read_prefix_from_workspace_metadata(&chain, &mut trace), None);
    assert!(trace.lines.is_empty());
    let chain = vec![
        probe("/w/dep/Cargo.toml", Probe::Manifest("[[[".to_string())),
        probe("/w/Cargo.toml", Probe::Manifest(WORKSPACE.to_string())),
    ];
    assert_eq!(read_prefix_from_workspace_metadata(&chain, &mut trace), None);
    assert!(trace.lines.is_empty());
}

#[test]
fn workspace_walk_that_finds_nothing_says_so() {
    let chain = vec![probe("/w/dep/Cargo.toml", Probe::Manifest(PLAIN.to_string())), probe("/w/Cargo.toml", Probe::Missing)];
    let mut trace = TraceContext::new(true);
    assert_eq!(read_prefix_from_workspace_metadata(&chain, &mut trace), None);
    assert_eq!(trace.lines, vec!["[symbaker] workspace metadata prefix not found while walking parent Cargo.toml files"]);
    let mut trace = TraceContext::new(true);
    assert_eq!(read_prefix_from_workspace_metadata(&Vec::new(), &mut trace), None);
    assert_eq!(trace.lines.len(), 1);
}

#[test]
fn crate_name_default() {
    assert_eq!(crate_name_or_default(&s("dep")), "dep");
    assert_eq!(crate_name_or_default(&None), "crate");
}
