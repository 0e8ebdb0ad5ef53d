//! The prefix sources that are read out of package manifests: the prefix in
//! a package's own metadata, its preference for that prefix, and the prefix
//! in the metadata of the workspace above it. The caller reads the files;
//! the functions here take their text.

use vstd::prelude::*;
use vstd::string::*;
use crate::trace::{debug_quoted, push_quoted, with_line, TraceContext};

verus! {

/// What a TOML document holds as a string under the keys `path`, one table
/// level per key: `None` where the text is no TOML document, `Some(None)`
/// where the document has no string there.
pub uninterp spec fn toml_text_at(doc: Seq<char>, path: Seq<Seq<char>>) -> Option<
    Option<Seq<char>>,
>;

/// What a TOML document holds as a boolean under the keys `path`: `None`
/// where the text is no TOML document, `Some(None)` where the document has no
/// boolean there.
pub uninterp spec fn toml_flag_at(doc: Seq<char>, path: Seq<Seq<char>>) -> Option<Option<bool>>;

/// The text of a looked-up string.
pub open spec fn found_text(r: Option<Option<String>>) -> Option<Option<Seq<char>>> {
    match r {
        None => None,
        Some(None) => Some(None),
        Some(Some(s)) => Some(Some(s@)),
    }
}

/// Parses `doc` with `toml::from_str`, steps down four table levels with
/// `Value::get` and reads a string there with `Value::as_str`. The outcome
/// depends on the document and the keys alone.
#[verifier::external_body]
fn string_at(doc: &str, k1: &str, k2: &str, k3: &str, k4: &str) -> (r: Option<Option<String>>)
    ensures
        (found_text(r) == toml_text_at(doc@, seq![k1@, k2@, k3@, k4@])),
{
    let parsed: Result<toml::Value, toml::de::Error> = toml::from_str(doc);
    match parsed {
        Err(_) => None,
        Ok(v) => Some(
            v.get(k1).and_then(|t| t.get(k2)).and_then(|t| t.get(k3)).and_then(|t| t.get(k4)).and_then(
                |t| t.as_str(),
            ).map(|s| s.to_string()),
        ),
    }
}

/// Parses `doc` with `toml::from_str`, steps down four table levels with
/// `Value::get` and reads a boolean there with `Value::as_bool`. The outcome
/// depends on the document and the keys alone.
#[verifier::external_body]
fn flag_at(doc: &str, k1: &str, k2: &str, k3: &str, k4: &str) -> (r: Option<Option<bool>>)
    ensures
        (r == toml_flag_at(doc@, seq![k1@, k2@, k3@, k4@])),
{
    let parsed: Result<toml::Value, toml::de::Error> = toml::from_str(doc);
    match parsed {
        Err(_) => None,
        Ok(v) => Some(
            v.get(k1).and_then(|t| t.get(k2)).and_then(|t| t.get(k3)).and_then(|t| t.get(k4)).and_then(
                |t| t.as_bool(),
            ),
        ),
    }
}

/// The keys under which a package's manifest gives the package's prefix.
pub open spec fn package_prefix_path() -> Seq<Seq<char>> {
    seq!["package"@, "metadata"@, "symbaker"@, "prefix"@]
}

/// The keys under which a package's manifest says that the package prefers
/// its own prefix.
pub open spec fn package_preference_path() -> Seq<Seq<char>> {
    seq!["package"@, "metadata"@, "symbaker"@, "prefer_package_prefix"@]
}

/// The keys under which a workspace's manifest gives the workspace's prefix.
pub open spec fn workspace_prefix_path() -> Seq<Seq<char>> {
    seq!["workspace"@, "metadata"@, "symbaker"@, "prefix"@]
}

/// The prefix that a package's manifest gives. `manifest` is the manifest's
/// text, `None` where it could not be read.
pub open spec fn package_prefix_of(manifest: Option<String>) -> Option<Seq<char>> {
    match manifest {
        None => None,
        Some(doc) => match toml_text_at(doc@, package_prefix_path()) {
            Some(Some(p)) => Some(p),
            _ => None,
        },
    }
}

/// Whether a package's manifest says that the package prefers its own prefix.
pub open spec fn package_prefers_own(manifest: Option<String>) -> bool {
    match manifest {
        None => false,
        Some(doc) => toml_flag_at(doc@, package_preference_path()) == Some(Some(true)),
    }
}

/// Reads the prefix out of a package's manifest. A manifest that could not be
/// read, is no TOML, or has no such string gives none.
pub fn read_prefix_from_package_metadata(manifest: &Option<String>) -> (r: Option<String>)
    ensures
        r is Some <==> package_prefix_of(*manifest) is Some,
        r matches Some(p) ==> package_prefix_of(*manifest) == Some(p@),
{
    match manifest {
        None => None,
        Some(doc) => match string_at(doc.as_str(), "package", "metadata", "symbaker", "prefix") {
            Some(Some(p)) => Some(p),
            _ => None,
        },
    }
}

/// Reads a package's preference for its own prefix out of its manifest. A
/// manifest that could not be read, is no TOML, or has no such boolean says no.
pub fn read_package_prefers_own_prefix(manifest: &Option<String>) -> (r: bool)
    ensures
        r == package_prefers_own(*manifest),
{
    match manifest {
        None => false,
        Some(doc) => match flag_at(
            doc.as_str(),
            "package",
            "metadata",
            "symbaker",
            "prefer_package_prefix",
        ) {
            Some(Some(b)) => b,
            _ => false,
        },
    }
}

/// What was found where a directory's manifest would be.
pub enum Probe {
    /// The directory has no manifest.
    Missing,
    /// The directory has a manifest that could not be read.
    Unreadable,
    /// The manifest's text.
    Manifest(String),
}

/// One directory on the way up from a package's directory.
pub struct ManifestProbe {
    /// The path of the directory's manifest, as it is shown to the user.
    pub path: String,
    /// What was found there.
    pub found: Probe,
}

/// How the walk up the directories ends.
pub enum WalkEnd {
    /// The manifest at this place in the chain gives this prefix.
    Found(int, Seq<char>),
    /// A manifest could not be read or is no TOML: the walk gives up.
    GaveUp,
    /// No manifest on the way gives a prefix.
    Exhausted,
}

/// How the walk ends that starts at place `i` of the chain: directories
/// without a manifest, and manifests without a workspace prefix, are passed;
/// the first manifest with a workspace prefix ends the walk with it; a
/// manifest that cannot be read or parsed ends it without.
pub open spec fn workspace_walk(chain: Seq<ManifestProbe>, i: int) -> WalkEnd
    decreases chain.len() - i,
{
    if i < 0 || i >= chain.len() {
        WalkEnd::Exhausted
    } else {
        match chain[i].found {
            Probe::Missing => workspace_walk(chain, i + 1),
            Probe::Unreadable => WalkEnd::GaveUp,
            Probe::Manifest(doc) => match toml_text_at(doc@, workspace_prefix_path()) {
                None => WalkEnd::GaveUp,
                Some(Some(p)) => WalkEnd::Found(i, p),
                Some(None) => workspace_walk(chain, i + 1),
            },
        }
    }
}

/// The trace line of a walk, where it has one.
pub open spec fn walk_line(chain: Seq<ManifestProbe>) -> Option<Seq<char>> {
    match workspace_walk(chain, 0) {
        WalkEnd::Found(i, p) => Some(
            "workspace metadata prefix found in "@ + chain[i].path@ + ": "@ + debug_quoted(p),
        ),
        WalkEnd::GaveUp => None,
        WalkEnd::Exhausted => Some(
            "workspace metadata prefix not found while walking parent Cargo.toml files"@,
        ),
    }
}

/// Finds the workspace's prefix. `chain` holds what was found where the
/// manifests of the package's directory and of each directory above it would
/// be, nearest first. The finding, or the lack of one, is recorded in the trace.
pub fn read_prefix_from_workspace_metadata(chain: &Vec<ManifestProbe>, trace: &mut TraceContext) -> (r:
    Option<String>)
    ensures
        r is Some <==> workspace_walk(chain@, 0) is Found,
        r matches Some(p) ==> workspace_walk(chain@, 0)->Found_1 == p@,
        final(trace)@ == (match walk_line(chain@) {
            Some(line) => with_line(old(trace)@, line),
            None => old(trace)@,
        }),
{
    let mut i: usize = 0;
    while i < chain.len()
        invariant
            i <= chain@.len(),
            workspace_walk(chain@, 0) == workspace_walk(chain@, i as int),
            trace@ == old(trace)@,
        decreases chain@.len() - i,
    {
        match &chain[i].found {
            Probe::Missing => {},
            Probe::Unreadable => {
                return None;
            },
            Probe::Manifest(doc) => {
                match string_at(doc.as_str(), "workspace", "metadata", "symbaker", "prefix") {
                    None => {
                        return None;
                    },
                    Some(Some(p)) => {
                        if trace.enabled {
                            let mut line: String = "workspace metadata prefix found in ".to_owned();
                            line.append(chain[i].path.as_str());
                            line.append(": ");
                            push_quoted(&mut line, p.as_str());
                            trace.emit(line.as_str());
                        }
                        return Some(p);
                    },
                    Some(None) => {},
                }
            },
        }
        i = i + 1;
    }
    trace.emit("workspace metadata prefix not found while walking parent Cargo.toml files");
    None
}

/// The package's name, or `crate` where the build does not give one.
pub fn crate_name_or_default(pkg_name: &Option<String>) -> (r: String)
    ensures
        r@ == (match *pkg_name {
            Some(n) => n@,
            None => "crate"@,
        }),
{
    match pkg_name {
        Some(n) => n.clone(),
        None => "crate".to_owned(),
    }
}

} // verus!
