//! The prefix resolution policy: which prefix a package's exported symbols
//! get, and from which source it comes.
//!
//! An entry for the package in the override table wins over everything. Then
//! a package that prefers its own prefix gets it. Otherwise the configured
//! priority list is walked and the first source whose value is not empty
//! wins; when none has one, the package's own name is used.

use vstd::prelude::*;
use vstd::string::*;
use crate::sanitize::{sanitize, sanitized, is_identifier};
use crate::text::{same_text, texts};
use crate::trace::{
    debug_opt, debug_opt_list, debug_quoted, lemma_with_lines_concat, lemma_with_lines_push,
    opt_text, push_debug_list,
    push_debug_opt, push_quoted, with_line, with_lines, TraceContext,
};

verus! {

/// Where a resolved prefix came from.
#[derive(Clone, Copy, Debug, PartialEq, Eq, Structural)]
pub enum PrefixSource {
    /// The override table has an entry for the package.
    Override,
    /// The package prefers its own prefix and its metadata gives one.
    PreferPackagePrefixPackage,
    /// The package prefers its own prefix and has none: its name is used.
    PreferPackagePrefixCrateFallback,
    /// The value given at the place of use.
    Attr,
    /// The environment override.
    EnvPrefix,
    /// The configuration file.
    Config,
    /// The name of the top-level package of the build.
    TopPackage,
    /// The workspace's metadata.
    Workspace,
    /// The package's own metadata.
    Package,
    /// The package's own name, as an entry of the priority list.
    Crate,
    /// The package's own name, because the priority list gave nothing.
    CrateFallbackAfterPriority,
}

impl PrefixSource {
    /// The name of the source as it stands in messages.
    pub open spec fn name_text(self) -> Seq<char> {
        match self {
            PrefixSource::Override => "Override"@,
            PrefixSource::PreferPackagePrefixPackage => "PreferPackagePrefixPackage"@,
            PrefixSource::PreferPackagePrefixCrateFallback => "PreferPackagePrefixCrateFallback"@,
            PrefixSource::Attr => "Attr"@,
            PrefixSource::EnvPrefix => "EnvPrefix"@,
            PrefixSource::Config => "Config"@,
            PrefixSource::TopPackage => "TopPackage"@,
            PrefixSource::Workspace => "Workspace"@,
            PrefixSource::Package => "Package"@,
            PrefixSource::Crate => "Crate"@,
            PrefixSource::CrateFallbackAfterPriority => "CrateFallbackAfterPriority"@,
        }
    }

    /// The name of the source as it stands in messages.
    pub fn name(self) -> (r: &'static str)
        ensures
            r@ == self.name_text(),
    {
        match self {
            PrefixSource::Override => "Override",
            PrefixSource::PreferPackagePrefixPackage => "PreferPackagePrefixPackage",
            PrefixSource::PreferPackagePrefixCrateFallback => "PreferPackagePrefixCrateFallback",
            PrefixSource::Attr => "Attr",
            PrefixSource::EnvPrefix => "EnvPrefix",
            PrefixSource::Config => "Config",
            PrefixSource::TopPackage => "TopPackage",
            PrefixSource::Workspace => "Workspace",
            PrefixSource::Package => "Package",
            PrefixSource::Crate => "Crate",
            PrefixSource::CrateFallbackAfterPriority => "CrateFallbackAfterPriority",
        }
    }

    /// The label of the source in the trace line that records the choice.
    /// The label of an override names the package.
    pub open spec fn label_text(self, crate_name: Seq<char>) -> Seq<char> {
        match self {
            PrefixSource::Override => "override(crate="@ + debug_quoted(crate_name) + ")"@,
            PrefixSource::PreferPackagePrefixPackage => "prefer_package_prefix(package)"@,
            PrefixSource::PreferPackagePrefixCrateFallback => "prefer_package_prefix(crate_fallback)"@,
            PrefixSource::Attr => "attr"@,
            PrefixSource::EnvPrefix => "env_prefix"@,
            PrefixSource::Config => "config"@,
            PrefixSource::TopPackage => "top_package"@,
            PrefixSource::Workspace => "workspace"@,
            PrefixSource::Package => "package"@,
            PrefixSource::Crate => "crate"@,
            PrefixSource::CrateFallbackAfterPriority => "crate_fallback_after_priority"@,
        }
    }

    /// The label of the source in the trace.
    pub fn label(self, crate_name: &str) -> (r: String)
        ensures
            r@ == self.label_text(crate_name@),
    {
        match self {
            PrefixSource::Override => {
                let mut s: String = "override(crate=".to_owned();
                push_quoted(&mut s, crate_name);
                s.append(")");
                s
            },
            PrefixSource::PreferPackagePrefixPackage => "prefer_package_prefix(package)".to_owned(),
            PrefixSource::PreferPackagePrefixCrateFallback => "prefer_package_prefix(crate_fallback)".to_owned(),
            PrefixSource::Attr => "attr".to_owned(),
            PrefixSource::EnvPrefix => "env_prefix".to_owned(),
            PrefixSource::Config => "config".to_owned(),
            PrefixSource::TopPackage => "top_package".to_owned(),
            PrefixSource::Workspace => "workspace".to_owned(),
            PrefixSource::Package => "package".to_owned(),
            PrefixSource::Crate => "crate".to_owned(),
            PrefixSource::CrateFallbackAfterPriority => "crate_fallback_after_priority".to_owned(),
        }
    }
}

/// The loaded configuration. Every part is optional; a part that is missing
/// takes its default.
pub struct Config {
    /// The prefix that the configuration gives.
    pub prefix: Option<String>,
    /// The separator between prefix and name; `__` when missing.
    pub sep: Option<String>,
    /// The priority list; the default order when missing.
    pub priority: Option<Vec<String>>,
    /// The override table: package name and prefix. A package is looked up
    /// by its exact name, and the first entry with that name counts.
    pub overrides: Option<Vec<(String, String)>>,
}

impl Default for Config {
    /// The configuration with every part missing.
    fn default() -> (c: Config)
        ensures
            c.prefix is None,
            c.sep is None,
            c.priority is None,
            c.overrides is None,
    {
        Config { prefix: None, sep: None, priority: None, overrides: None }
    }
}

/// Everything that one resolution looks at.
pub struct PrefixInputs {
    /// The value given at the place of use.
    pub attr_prefix: Option<String>,
    /// The environment override.
    pub env_prefix: Option<String>,
    /// The name of the top-level package of the build, where it is known.
    pub top_package: Option<String>,
    /// The prefix from the workspace's metadata.
    pub workspace_prefix: Option<String>,
    /// The prefix from the package's own metadata.
    pub package_prefix: Option<String>,
    /// Whether the package prefers its own prefix to an inherited one.
    pub prefers_package_prefix: bool,
    /// The name of the package being resolved.
    pub crate_name: String,
    /// The loaded configuration.
    pub config: Config,
}

/// The outcome of a resolution.
#[derive(Debug, PartialEq, Eq)]
pub struct ResolvedPrefix {
    /// The prefix, sanitized.
    pub prefix: String,
    /// The separator between prefix and name.
    pub sep: String,
    /// Where the prefix came from.
    pub source: PrefixSource,
}

/// A candidate that was chosen: its text as found, and its source.
pub struct Choice {
    pub raw: Seq<char>,
    pub source: PrefixSource,
}

/// The keys of the default priority list, highest priority first.
pub open spec fn default_priority_keys() -> Seq<Seq<char>> {
    seq![
        "attr"@,
        "env_prefix"@,
        "config"@,
        "top_package"@,
        "workspace"@,
        "package"@,
        "crate"@,
    ]
}

/// The default priority list.
pub fn default_priority() -> (r: Vec<String>)
    ensures
        texts(r@) == default_priority_keys(),
{
    let mut r: Vec<String> = Vec::new();
    r.push("attr".to_owned());
    r.push("env_prefix".to_owned());
    r.push("config".to_owned());
    r.push("top_package".to_owned());
    r.push("workspace".to_owned());
    r.push("package".to_owned());
    r.push("crate".to_owned());
    assert(texts(r@) =~= default_priority_keys());
    r
}

/// The separator in force: the configured one, or `__`.
pub open spec fn separator_of(cfg: Config) -> Seq<char> {
    match cfg.sep {
        Some(s) => s@,
        None => "__"@,
    }
}

/// The priority list in force: the configured one, or the default.
pub open spec fn priority_of(cfg: Config) -> Seq<Seq<char>> {
    match cfg.priority {
        Some(p) => texts(p@),
        None => default_priority_keys(),
    }
}

/// The prefix of the first entry for `name` in an override table.
pub open spec fn entry_for(entries: Seq<(String, String)>, name: Seq<char>) -> Option<Seq<char>>
    decreases entries.len(),
{
    if entries.len() == 0 {
        None
    } else if entries[0].0@ == name {
        Some(entries[0].1@)
    } else {
        entry_for(entries.drop_first(), name)
    }
}

/// The override for the package `name`, if the configuration has one.
pub open spec fn override_of(cfg: Config, name: Seq<char>) -> Option<Seq<char>> {
    match cfg.overrides {
        Some(entries) => entry_for(entries@, name),
        None => None,
    }
}

/// The names of the packages that the override table lists, in table order.
pub open spec fn override_keys(cfg: Config) -> Option<Seq<Seq<char>>> {
    match cfg.overrides {
        Some(entries) => Some(entries@.map_values(|e: (String, String)| e.0@)),
        None => None,
    }
}

/// Whether `key` names a source of the priority list.
pub open spec fn is_known_key(key: Seq<char>) -> bool {
    key == "attr"@ || key == "env_prefix"@ || key == "config"@ || key == "top_package"@ || key
        == "workspace"@ || key == "package"@ || key == "crate"@
}

/// Whether a value is there and holds text.
pub open spec fn has_value(o: Option<String>) -> bool {
    o is Some && o->0@.len() > 0
}

/// The offer of a source: its text, where it has a value that is not empty.
pub open spec fn offered(o: Option<String>, source: PrefixSource) -> Option<Choice> {
    if has_value(o) {
        Some(Choice { raw: o->0@, source })
    } else {
        None
    }
}

/// What the source that `key` names offers: a source offers its text where
/// it has a value that is not empty; the package's name is always on offer;
/// a key that names no source offers nothing.
pub open spec fn candidate_for(key: Seq<char>, inp: PrefixInputs) -> Option<Choice> {
    if key == "attr"@ {
        offered(inp.attr_prefix, PrefixSource::Attr)
    } else if key == "env_prefix"@ {
        offered(inp.env_prefix, PrefixSource::EnvPrefix)
    } else if key == "config"@ {
        offered(inp.config.prefix, PrefixSource::Config)
    } else if key == "top_package"@ {
        offered(inp.top_package, PrefixSource::TopPackage)
    } else if key == "workspace"@ {
        offered(inp.workspace_prefix, PrefixSource::Workspace)
    } else if key == "package"@ {
        offered(inp.package_prefix, PrefixSource::Package)
    } else if key == "crate"@ {
        Some(Choice { raw: inp.crate_name@, source: PrefixSource::Crate })
    } else {
        None
    }
}

/// The choice that walking the priority list `prio` makes: the offer of the
/// first key that has one, or the package's name when no key has. A source
/// without a value, or with an empty one, is passed by.
pub open spec fn walk_choice(prio: Seq<Seq<char>>, inp: PrefixInputs) -> Choice
    decreases prio.len(),
{
    if prio.len() == 0 {
        Choice { raw: inp.crate_name@, source: PrefixSource::CrateFallbackAfterPriority }
    } else {
        match candidate_for(prio[0], inp) {
            Some(c) => c,
            None => walk_choice(prio.drop_first(), inp),
        }
    }
}

/// The choice that resolution makes.
pub open spec fn choice(inp: PrefixInputs) -> Choice {
    match override_of(inp.config, inp.crate_name@) {
        Some(p) => Choice { raw: p, source: PrefixSource::Override },
        None => if inp.prefers_package_prefix {
            match inp.package_prefix {
                Some(p) => Choice { raw: p@, source: PrefixSource::PreferPackagePrefixPackage },
                None => Choice {
                    raw: inp.crate_name@,
                    source: PrefixSource::PreferPackagePrefixCrateFallback,
                },
            }
        } else {
            walk_choice(priority_of(inp.config), inp)
        },
    }
}

/// The trace line that records what resolution was given.
pub open spec fn input_line(inp: PrefixInputs) -> Seq<char> {
    "resolve_prefix input attr_prefix="@ + debug_opt(opt_text(inp.attr_prefix))
        + " config.prefix="@ + debug_opt(opt_text(inp.config.prefix)) + " config.sep="@
        + debug_opt(opt_text(inp.config.sep)) + " config.priority="@ + debug_opt_list(
        match inp.config.priority {
            Some(p) => Some(texts(p@)),
            None => None,
        },
    ) + " config.overrides_keys="@ + debug_opt_list(override_keys(inp.config))
}

/// The trace line that records every candidate as it was found.
pub open spec fn candidates_line(inp: PrefixInputs) -> Seq<char> {
    "resolved candidates env_prefix="@ + debug_opt(opt_text(inp.env_prefix)) + " top_package="@
        + debug_opt(opt_text(inp.top_package)) + " workspace_prefix="@ + debug_opt(
        opt_text(inp.workspace_prefix),
    ) + " package_prefix="@ + debug_opt(opt_text(inp.package_prefix)) + " override_prefix="@
        + debug_opt(override_of(inp.config, inp.crate_name@)) + " crate="@ + debug_quoted(
        inp.crate_name@,
    ) + " sep="@ + debug_quoted(separator_of(inp.config))
}

/// The trace line that records one candidate: its source's label, its text
/// as found in debug form, and the prefix it would give in double quotes.
pub open spec fn candidate_line(c: Choice, crate_name: Seq<char>) -> Seq<char> {
    "candidate source="@ + c.source.label_text(crate_name) + " raw="@ + debug_quoted(c.raw)
        + " sanitized=\""@ + sanitized(c.raw) + "\""@
}

/// The trace line of a candidate that is present; nothing for one that is not.
pub open spec fn noted(raw: Option<Seq<char>>, source: PrefixSource, crate_name: Seq<char>) -> Seq<
    Seq<char>,
> {
    match raw {
        Some(r) => seq![candidate_line(Choice { raw: r, source }, crate_name)],
        None => Seq::empty(),
    }
}

/// The text of a value that is there and not empty.
pub open spec fn value_text(o: Option<String>) -> Option<Seq<char>> {
    if has_value(o) {
        Some(o->0@)
    } else {
        None
    }
}

/// The trace lines that record every candidate there is, whichever wins:
/// the override, then the sources in the default order of priority, each
/// where it has a value that is not empty, then the package's name.
pub open spec fn candidate_lines(inp: PrefixInputs) -> Seq<Seq<char>> {
    let name = inp.crate_name@;
    noted(override_of(inp.config, name), PrefixSource::Override, name) + noted(
        value_text(inp.attr_prefix),
        PrefixSource::Attr,
        name,
    ) + noted(value_text(inp.env_prefix), PrefixSource::EnvPrefix, name) + noted(
        value_text(inp.config.prefix),
        PrefixSource::Config,
        name,
    ) + noted(value_text(inp.top_package), PrefixSource::TopPackage, name) + noted(
        value_text(inp.workspace_prefix),
        PrefixSource::Workspace,
        name,
    ) + noted(value_text(inp.package_prefix), PrefixSource::Package, name) + noted(
        Some(name),
        PrefixSource::Crate,
        name,
    )
}

/// The trace line that records the choice: the source's label, the text as
/// found in debug form, and the prefix in double quotes.
pub open spec fn selected_line(c: Choice, crate_name: Seq<char>) -> Seq<char> {
    "selected source="@ + c.source.label_text(crate_name) + " raw="@ + debug_quoted(c.raw)
        + " sanitized=\""@ + sanitized(c.raw) + "\""@
}

/// The trace line for a key of the priority list that names no source.
pub open spec fn unknown_key_line(key: Seq<char>) -> Seq<char> {
    "priority key "@ + debug_quoted(key) + " is unknown and ignored"@
}

/// The trace lines of walking the priority list `prio`: one for each unknown
/// key that is passed, up to the key that has an offer.
pub open spec fn walk_lines(prio: Seq<Seq<char>>, inp: PrefixInputs) -> Seq<Seq<char>>
    decreases prio.len(),
{
    if prio.len() == 0 || candidate_for(prio[0], inp) is Some {
        Seq::empty()
    } else if is_known_key(prio[0]) {
        walk_lines(prio.drop_first(), inp)
    } else {
        seq![unknown_key_line(prio[0])] + walk_lines(prio.drop_first(), inp)
    }
}

/// Whether resolution walks the priority list.
pub open spec fn walks_priority(inp: PrefixInputs) -> bool {
    override_of(inp.config, inp.crate_name@) is None && !inp.prefers_package_prefix
}

/// The first trace lines of a resolution: what it was given, and every
/// candidate, as found and as the prefix it would give.
pub open spec fn opening(inp: PrefixInputs) -> Seq<Seq<char>> {
    seq![input_line(inp), candidates_line(inp)] + candidate_lines(inp)
}

/// The trace lines of one resolution, in order.
pub open spec fn resolution_lines(inp: PrefixInputs) -> Seq<Seq<char>> {
    opening(inp) + (if walks_priority(inp) {
        walk_lines(priority_of(inp.config), inp)
    } else {
        Seq::empty()
    }) + seq![selected_line(choice(inp), inp.crate_name@)]
}

/// Looks a package up in the override table.
fn find_override<'a>(cfg: &'a Config, name: &str) -> (r: Option<&'a String>)
    ensures
        r is Some <==> override_of(*cfg, name@) is Some,
        r matches Some(s) ==> override_of(*cfg, name@) == Some(s@),
{
    let entries: &Vec<(String, String)> = match &cfg.overrides {
        Some(e) => e,
        None => {
            return None;
        },
    };
    let mut i: usize = 0;
    assert(entries@.skip(0) =~= entries@);
    while i < entries.len()
        invariant
            i <= entries@.len(),
            override_of(*cfg, name@) == entry_for(entries@, name@),
            entry_for(entries@, name@) == entry_for(entries@.skip(i as int), name@),
        decreases entries@.len() - i,
    {
        assert(entries@.skip(i as int)[0] == entries@[i as int]);
        if same_text(entries[i].0.as_str(), name) {
            return Some(&entries[i].1);
        }
        assert(entries@.skip(i as int).drop_first() =~= entries@.skip(i + 1));
        i = i + 1;
    }
    None
}

/// The offer of a source.
fn offer<'a>(o: &'a Option<String>, source: PrefixSource) -> (r: Option<(&'a String, PrefixSource)>)
    ensures
        r is Some <==> offered(*o, source) is Some,
        r matches Some(c) ==> offered(*o, source) == Some(Choice { raw: c.0@, source: c.1 }),
{
    match o {
        Some(p) => {
            if p.as_str().is_empty() {
                None
            } else {
                Some((p, source))
            }
        },
        None => None,
    }
}

/// What the source that `key` names offers.
fn candidate<'a>(key: &str, inp: &'a PrefixInputs) -> (r: Option<(&'a String, PrefixSource)>)
    ensures
        r is Some <==> candidate_for(key@, *inp) is Some,
        r matches Some(c) ==> candidate_for(key@, *inp) == Some(
            Choice { raw: c.0@, source: c.1 },
        ),
{
    if same_text(key, "attr") {
        offer(&inp.attr_prefix, PrefixSource::Attr)
    } else if same_text(key, "env_prefix") {
        offer(&inp.env_prefix, PrefixSource::EnvPrefix)
    } else if same_text(key, "config") {
        offer(&inp.config.prefix, PrefixSource::Config)
    } else if same_text(key, "top_package") {
        offer(&inp.top_package, PrefixSource::TopPackage)
    } else if same_text(key, "workspace") {
        offer(&inp.workspace_prefix, PrefixSource::Workspace)
    } else if same_text(key, "package") {
        offer(&inp.package_prefix, PrefixSource::Package)
    } else if same_text(key, "crate") {
        Some((&inp.crate_name, PrefixSource::Crate))
    } else {
        None
    }
}

/// Whether `key` names a source of the priority list.
fn known_key(key: &str) -> (r: bool)
    ensures
        r == is_known_key(key@),
{
    same_text(key, "attr") || same_text(key, "env_prefix") || same_text(key, "config")
        || same_text(key, "top_package") || same_text(key, "workspace") || same_text(
        key,
        "package",
    ) || same_text(key, "crate")
}

/// The names of the packages that the override table lists.
fn keys_of(cfg: &Config) -> (r: Option<Vec<String>>)
    ensures
        (match r {
            Some(v) => Some(texts(v@)),
            None => None,
        }) == override_keys(*cfg),
{
    let entries: &Vec<(String, String)> = match &cfg.overrides {
        Some(e) => e,
        None => {
            return None;
        },
    };
    let ghost all = entries@.map_values(|e: (String, String)| e.0@);
    let mut keys: Vec<String> = Vec::new();
    let mut i: usize = 0;
    assert(texts(keys@) =~= all.take(0));
    while i < entries.len()
        invariant
            i <= entries@.len(),
            all == entries@.map_values(|e: (String, String)| e.0@),
            texts(keys@) == all.take(i as int),
        decreases entries@.len() - i,
    {
        let ghost before = keys@;
        keys.push(entries[i].0.clone());
        assert(texts(keys@) =~= texts(before).push(entries@[i as int].0@));
        assert(texts(keys@) =~= all.take(i + 1));
        i = i + 1;
    }
    assert(all.take(entries@.len() as int) =~= all);
    Some(keys)
}

/// Appends the debug form of an optional list of strings.
fn push_debug_opt_list(out: &mut String, o: &Option<Vec<String>>)
    ensures
        final(out)@ == old(out)@ + debug_opt_list(
            match *o {
                Some(v) => Some(texts(v@)),
                None => None,
            },
        ),
{
    let ghost before = out@;
    match o {
        Some(v) => {
            out.append("Some(");
            push_debug_list(out, v);
            out.append(")");
            assert(out@ =~= before + ("Some("@ + crate::trace::debug_list(texts(v@)) + ")"@));
        },
        None => {
            out.append("None");
        },
    }
}

/// The first two trace lines of a resolution.
fn opening_lines(inp: &PrefixInputs, found: &Option<&String>, sep: &str) -> (r: (String, String))
    requires
        *found is Some <==> override_of(inp.config, inp.crate_name@) is Some,
        *found matches Some(s) ==> override_of(inp.config, inp.crate_name@) == Some(s@),
        sep@ == separator_of(inp.config),
    ensures
        r.0@ == input_line(*inp),
        r.1@ == candidates_line(*inp),
{
    let mut a: String = "resolve_prefix input attr_prefix=".to_owned();
    push_debug_opt(&mut a, &inp.attr_prefix);
    a.append(" config.prefix=");
    push_debug_opt(&mut a, &inp.config.prefix);
    a.append(" config.sep=");
    push_debug_opt(&mut a, &inp.config.sep);
    a.append(" config.priority=");
    push_debug_opt_list(&mut a, &inp.config.priority);
    a.append(" config.overrides_keys=");
    let keys = keys_of(&inp.config);
    push_debug_opt_list(&mut a, &keys);

    let mut b: String = "resolved candidates env_prefix=".to_owned();
    push_debug_opt(&mut b, &inp.env_prefix);
    b.append(" top_package=");
    push_debug_opt(&mut b, &inp.top_package);
    b.append(" workspace_prefix=");
    push_debug_opt(&mut b, &inp.workspace_prefix);
    b.append(" package_prefix=");
    push_debug_opt(&mut b, &inp.package_prefix);
    b.append(" override_prefix=");
    let ghost so_far = b@;
    match found {
        Some(s) => {
            b.append("Some(");
            push_quoted(&mut b, s.as_str());
            b.append(")");
            assert(b@ =~= so_far + ("Some("@ + debug_quoted(s@) + ")"@));
        },
        None => {
            b.append("None");
        },
    }
    b.append(" crate=");
    push_quoted(&mut b, inp.crate_name.as_str());
    b.append(" sep=");
    push_quoted(&mut b, sep);
    (a, b)
}

/// The value of a source, where it is there and not empty.
fn value_of<'a>(o: &'a Option<String>) -> (r: Option<&'a String>)
    ensures
        (match r {
            Some(v) => Some(v@),
            None => None,
        }) == value_text(*o),
{
    match o {
        Some(p) => {
            if p.as_str().is_empty() {
                None
            } else {
                Some(p)
            }
        },
        None => None,
    }
}

/// Records one candidate, if it is present.
fn note(trace: &mut TraceContext, raw: Option<&String>, source: PrefixSource, crate_name: &str)
    ensures
        final(trace)@ == with_lines(
            old(trace)@,
            noted(
                match raw {
                    Some(r) => Some(r@),
                    None => None,
                },
                source,
                crate_name@,
            ),
        ),
{
    match raw {
        Some(r) => {
            if trace.enabled {
                let mut line: String = "candidate source=".to_owned();
                let label = source.label(crate_name);
                line.append(label.as_str());
                line.append(" raw=");
                push_quoted(&mut line, r.as_str());
                line.append(" sanitized=\"");
                let would_be = sanitize(r.as_str());
                line.append(would_be.as_str());
                line.append("\"");
                trace.emit(line.as_str());
            }
            proof {
                let line = candidate_line(Choice { raw: r@, source }, crate_name@);
                lemma_with_lines_push(old(trace)@, Seq::empty(), line);
                assert(Seq::<Seq<char>>::empty().push(line) =~= seq![line]);
            }
        },
        None => {},
    }
}

/// Records every candidate there is.
fn note_candidates(inp: &PrefixInputs, found: &Option<&String>, trace: &mut TraceContext)
    requires
        *found is Some <==> override_of(inp.config, inp.crate_name@) is Some,
        *found matches Some(s) ==> override_of(inp.config, inp.crate_name@) == Some(s@),
    ensures
        final(trace)@ == with_lines(old(trace)@, candidate_lines(*inp)),
{
    let ghost start = trace@;
    let ghost name = inp.crate_name@;
    let crate_name: &str = inp.crate_name.as_str();
    note(trace, *found, PrefixSource::Override, crate_name);
    let ghost d1 = noted(override_of(inp.config, name), PrefixSource::Override, name);
    assert(trace@ == with_lines(start, d1));
    note(trace, value_of(&inp.attr_prefix), PrefixSource::Attr, crate_name);
    let ghost d2 = d1 + noted(value_text(inp.attr_prefix), PrefixSource::Attr, name);
    assert(trace@ == with_lines(start, d2)) by {
        lemma_with_lines_concat(start, d1, noted(value_text(inp.attr_prefix), PrefixSource::Attr, name));
    }
    note(trace, value_of(&inp.env_prefix), PrefixSource::EnvPrefix, crate_name);
    let ghost d3 = d2 + noted(value_text(inp.env_prefix), PrefixSource::EnvPrefix, name);
    assert(trace@ == with_lines(start, d3)) by {
        lemma_with_lines_concat(
            start,
            d2,
            noted(value_text(inp.env_prefix), PrefixSource::EnvPrefix, name),
        );
    }
    note(trace, value_of(&inp.config.prefix), PrefixSource::Config, crate_name);
    let ghost d4 = d3 + noted(value_text(inp.config.prefix), PrefixSource::Config, name);
    assert(trace@ == with_lines(start, d4)) by {
        lemma_with_lines_concat(
            start,
            d3,
            noted(value_text(inp.config.prefix), PrefixSource::Config, name),
        );
    }
    note(trace, value_of(&inp.top_package), PrefixSource::TopPackage, crate_name);
    let ghost d5 = d4 + noted(value_text(inp.top_package), PrefixSource::TopPackage, name);
    assert(trace@ == with_lines(start, d5)) by {
        lemma_with_lines_concat(
            start,
            d4,
            noted(value_text(inp.top_package), PrefixSource::TopPackage, name),
        );
    }
    note(trace, value_of(&inp.workspace_prefix), PrefixSource::Workspace, crate_name);
    let ghost d6 = d5 + noted(value_text(inp.workspace_prefix), PrefixSource::Workspace, name);
    assert(trace@ == with_lines(start, d6)) by {
        lemma_with_lines_concat(
            start,
            d5,
            noted(value_text(inp.workspace_prefix), PrefixSource::Workspace, name),
        );
    }
    note(trace, value_of(&inp.package_prefix), PrefixSource::Package, crate_name);
    let ghost d7 = d6 + noted(value_text(inp.package_prefix), PrefixSource::Package, name);
    assert(trace@ == with_lines(start, d7)) by {
        lemma_with_lines_concat(
            start,
            d6,
            noted(value_text(inp.package_prefix), PrefixSource::Package, name),
        );
    }
    note(trace, Some(&inp.crate_name), PrefixSource::Crate, crate_name);
    let ghost d8 = d7 + noted(Some(name), PrefixSource::Crate, name);
    assert(trace@ == with_lines(start, d8)) by {
        lemma_with_lines_concat(start, d7, noted(Some(name), PrefixSource::Crate, name));
    }
    assert(d8 == candidate_lines(*inp));
}

/// Records what the resolution was given and every candidate there is.
fn open_trace(inp: &PrefixInputs, found: &Option<&String>, sep: &str, trace: &mut TraceContext)
    requires
        *found is Some <==> override_of(inp.config, inp.crate_name@) is Some,
        *found matches Some(s) ==> override_of(inp.config, inp.crate_name@) == Some(s@),
        sep@ == separator_of(inp.config),
    ensures
        final(trace)@ == with_lines(old(trace)@, opening(*inp)),
{
    let ghost start = trace@;
    if trace.enabled {
        let (a, b) = opening_lines(inp, found, sep);
        trace.emit(a.as_str());
        trace.emit(b.as_str());
    }
    let ghost two: Seq<Seq<char>> = seq![input_line(*inp), candidates_line(*inp)];
    proof {
        lemma_with_lines_push(start, Seq::empty(), input_line(*inp));
        lemma_with_lines_push(start, seq![input_line(*inp)], candidates_line(*inp));
        assert(seq![input_line(*inp)].push(candidates_line(*inp)) =~= two);
        assert(Seq::<Seq<char>>::empty().push(input_line(*inp)) =~= seq![input_line(*inp)]);
    }
    assert(trace@ == with_lines(start, two));
    note_candidates(inp, found, trace);
    proof {
        lemma_with_lines_concat(start, two, candidate_lines(*inp));
    }
}

/// Makes the prefix from the chosen text and records the choice.
fn select(raw: &str, source: PrefixSource, sep: String, crate_name: &str, trace: &mut TraceContext) -> (r:
    ResolvedPrefix)
    ensures
        r.prefix@ == sanitized(raw@),
        r.sep == sep,
        r.source == source,
        final(trace)@ == with_line(
            old(trace)@,
            selected_line(Choice { raw: raw@, source }, crate_name@),
        ),
{
    let chosen: String = sanitize(raw);
    if trace.enabled {
        let mut line: String = "selected source=".to_owned();
        let label = source.label(crate_name);
        line.append(label.as_str());
        line.append(" raw=");
        push_quoted(&mut line, raw);
        line.append(" sanitized=\"");
        line.append(chosen.as_str());
        line.append("\"");
        trace.emit(line.as_str());
    }
    ResolvedPrefix { prefix: chosen, sep, source }
}

/// Resolves the prefix of a package and records the decision in the trace.
pub fn resolve_prefix(inp: &PrefixInputs, trace: &mut TraceContext) -> (r: ResolvedPrefix)
    ensures
        r.prefix@ == sanitized(choice(*inp).raw),
        is_identifier(r.prefix@),
        r.sep@ == separator_of(inp.config),
        r.source == choice(*inp).source,
        final(trace)@ == with_lines(old(trace)@, resolution_lines(*inp)),
{
    let sep: String = match &inp.config.sep {
        Some(s) => s.clone(),
        None => "__".to_owned(),
    };
    let found: Option<&String> = find_override(&inp.config, inp.crate_name.as_str());
    let ghost start = trace@;
    open_trace(inp, &found, sep.as_str(), trace);
    let ghost head = opening(*inp);
    let ghost mut done: Seq<Seq<char>> = head;
    proof {
        crate::sanitize::lemma_sanitized_is_identifier(choice(*inp).raw);
    }
    match found {
        Some(p) => {
            let r = select(p.as_str(), PrefixSource::Override, sep, inp.crate_name.as_str(), trace);
            proof {
                lemma_with_lines_push(start, done, selected_line(choice(*inp), inp.crate_name@));
                assert(done.push(selected_line(choice(*inp), inp.crate_name@)) =~= resolution_lines(
                    *inp,
                ));
            }
            return r;
        },
        None => {},
    }
    if inp.prefers_package_prefix {
        let r = match &inp.package_prefix {
            Some(p) => select(
                p.as_str(),
                PrefixSource::PreferPackagePrefixPackage,
                sep,
                inp.crate_name.as_str(),
                trace,
            ),
            None => select(
                inp.crate_name.as_str(),
                PrefixSource::PreferPackagePrefixCrateFallback,
                sep,
                inp.crate_name.as_str(),
                trace,
            ),
        };
        proof {
            lemma_with_lines_push(start, done, selected_line(choice(*inp), inp.crate_name@));
            assert(done.push(selected_line(choice(*inp), inp.crate_name@)) =~= resolution_lines(
                *inp,
            ));
        }
        return r;
    }
    let fallback: Vec<String> = default_priority();
    let prio: &Vec<String> = match &inp.config.priority {
        Some(p) => p,
        None => &fallback,
    };
    let ghost keys = priority_of(inp.config);
    assert(texts(prio@) == keys);
    let mut i: usize = 0;
    assert(keys.skip(0) =~= keys);
    while i < prio.len()
        invariant
            i <= prio@.len(),
            texts(prio@) == keys,
            keys == priority_of(inp.config),
            head == opening(*inp),
            walks_priority(*inp),
            sep@ == separator_of(inp.config),
            start == old(trace)@,
            trace@ == with_lines(start, done),
            walk_choice(keys.skip(i as int), *inp) == choice(*inp),
            done + walk_lines(keys.skip(i as int), *inp) == head + walk_lines(keys, *inp),
        decreases prio@.len() - i,
    {
        let key: &str = prio[i].as_str();
        assert(keys.skip(i as int)[0] == key@);
        assert(keys.skip(i as int).drop_first() =~= keys.skip(i + 1));
        match candidate(key, inp) {
            Some(c) => {
                let r = select(c.0.as_str(), c.1, sep, inp.crate_name.as_str(), trace);
                proof {
                    lemma_with_lines_push(start, done, selected_line(choice(*inp), inp.crate_name@));
                    assert(walk_lines(keys.skip(i as int), *inp) =~= Seq::<Seq<char>>::empty());
                    assert(done =~= done + walk_lines(keys.skip(i as int), *inp));
                    assert(done.push(selected_line(choice(*inp), inp.crate_name@))
                        =~= resolution_lines(*inp));
                }
                return r;
            },
            None => {
                if !known_key(key) {
                    if trace.enabled {
                        let mut line: String = "priority key ".to_owned();
                        push_quoted(&mut line, key);
                        line.append(" is unknown and ignored");
                        trace.emit(line.as_str());
                    }
                    proof {
                        lemma_with_lines_push(start, done, unknown_key_line(key@));
                        let ghost next = done.push(unknown_key_line(key@));
                        assert(next + walk_lines(keys.skip(i + 1), *inp) =~= done + walk_lines(
                            keys.skip(i as int),
                            *inp,
                        ));
                        done = next;
                    }
                }
            },
        }
        i = i + 1;
    }
    let r = select(
        inp.crate_name.as_str(),
        PrefixSource::CrateFallbackAfterPriority,
        sep,
        inp.crate_name.as_str(),
        trace,
    );
    proof {
        lemma_with_lines_push(start, done, selected_line(choice(*inp), inp.crate_name@));
        assert(walk_lines(keys.skip(i as int), *inp) =~= Seq::<Seq<char>>::empty());
        assert(done =~= done + walk_lines(keys.skip(i as int), *inp));
        assert(done.push(selected_line(choice(*inp), inp.crate_name@)) =~= resolution_lines(*inp));
    }
    r
}

/// An entry of the override table for the package wins over everything
/// else: over a preference for the package's own prefix, over a value given
/// at the place of use, and over every entry of the priority list.
pub proof fn lemma_override_wins(inp: PrefixInputs)
    requires
        override_of(inp.config, inp.crate_name@) is Some,
    ensures
        choice(inp) == (Choice {
            raw: override_of(inp.config, inp.crate_name@)->0,
            source: PrefixSource::Override,
        }),
{
}

/// With the default priority list, a value given at the place of use that
/// is not empty wins over the environment override, the configuration and
/// every later source, unless an override or the package's preference for
/// its own prefix steps in.
pub proof fn lemma_attribute_wins_by_default(inp: PrefixInputs)
    requires
        has_value(inp.attr_prefix),
        inp.config.priority is None,
        walks_priority(inp),
    ensures
        choice(inp) == (Choice { raw: inp.attr_prefix->0@, source: PrefixSource::Attr }),
{
    assert(default_priority_keys()[0] == "attr"@);
}

/// A priority list with `attr` in first place lets the value given at the
/// place of use win in the same way.
pub proof fn lemma_attribute_wins_when_first(inp: PrefixInputs)
    requires
        has_value(inp.attr_prefix),
        priority_of(inp.config).len() > 0,
        priority_of(inp.config)[0] == "attr"@,
        walks_priority(inp),
    ensures
        choice(inp) == (Choice { raw: inp.attr_prefix->0@, source: PrefixSource::Attr }),
{
}

/// The walk passes by a key whose source has no value or an empty one, and a
/// key that names no source: the choice is that of the rest of the list.
pub proof fn lemma_walk_passes_by(prio: Seq<Seq<char>>, inp: PrefixInputs)
    requires
        prio.len() > 0,
        candidate_for(prio[0], inp) is None,
    ensures
        walk_choice(prio, inp) == walk_choice(prio.drop_first(), inp),
{
}

/// The walk stops at the first key that has an offer.
pub proof fn lemma_walk_takes_first_offer(prio: Seq<Seq<char>>, inp: PrefixInputs, k: int)
    requires
        0 <= k < prio.len(),
        candidate_for(prio[k], inp) is Some,
        forall|j: int| 0 <= j < k ==> candidate_for(#[trigger] prio[j], inp) is None,
    ensures
        walk_choice(prio, inp) == candidate_for(prio[k], inp)->0,
    decreases k,
{
    if k > 0 {
        let rest = prio.drop_first();
        assert(candidate_for(prio[0], inp) is None);
        assert(rest[k - 1] == prio[k]);
        assert forall|j: int| 0 <= j < k - 1 implies candidate_for(#[trigger] rest[j], inp) is None by {
            assert(rest[j] == prio[j + 1]);
        }
        lemma_walk_takes_first_offer(rest, inp, k - 1);
    }
}

/// With the default priority list, an empty value at the place of use does
/// not win: the environment override behind it does, where it holds text.
pub proof fn lemma_empty_attribute_is_passed_by(inp: PrefixInputs)
    requires
        !has_value(inp.attr_prefix),
        has_value(inp.env_prefix),
        inp.config.priority is None,
        walks_priority(inp),
    ensures
        choice(inp) == (Choice { raw: inp.env_prefix->0@, source: PrefixSource::EnvPrefix }),
{
    reveal_strlit("attr");
    reveal_strlit("env_prefix");
    let k = default_priority_keys();
    assert(k[0] == "attr"@ && k[1] == "env_prefix"@);
    assert("env_prefix"@.len() == 10 && "attr"@.len() == 4);
    assert forall|j: int| 0 <= j < 1 implies candidate_for(#[trigger] k[j], inp) is None by {}
    lemma_walk_takes_first_offer(k, inp, 1);
}

/// Whether a source is the package's own: its metadata or its name. Such a
/// prefix was not inherited from the build that the package is part of.
pub open spec fn is_local_source(source: PrefixSource) -> bool {
    source == PrefixSource::Package || source == PrefixSource::Crate || source
        == PrefixSource::CrateFallbackAfterPriority
}

/// A package for which nothing is inherited (no override, no preference for
/// its own prefix, and neither the place of use, nor the environment, nor
/// the configuration, nor the top-level package, nor the workspace has a
/// value that is not empty) resolves, with the default priority list, to
/// its own metadata or its own name.
pub proof fn lemma_nothing_inherited_is_local(inp: PrefixInputs)
    requires
        walks_priority(inp),
        inp.config.priority is None,
        !has_value(inp.attr_prefix),
        !has_value(inp.env_prefix),
        !has_value(inp.config.prefix),
        !has_value(inp.top_package),
        !has_value(inp.workspace_prefix),
    ensures
        is_local_source(choice(inp).source),
        has_value(inp.package_prefix) ==> choice(inp) == (Choice {
            raw: inp.package_prefix->0@,
            source: PrefixSource::Package,
        }),
        !has_value(inp.package_prefix) ==> choice(inp) == (Choice {
            raw: inp.crate_name@,
            source: PrefixSource::Crate,
        }),
{
    reveal_strlit("attr");
    reveal_strlit("env_prefix");
    reveal_strlit("config");
    reveal_strlit("top_package");
    reveal_strlit("workspace");
    reveal_strlit("package");
    reveal_strlit("crate");
    let k = default_priority_keys();
    let k1 = k.drop_first();
    let k2 = k1.drop_first();
    let k3 = k2.drop_first();
    let k4 = k3.drop_first();
    let k5 = k4.drop_first();
    let k6 = k5.drop_first();
    assert(k[0] == "attr"@ && k1[0] == "env_prefix"@ && k2[0] == "config"@ && k3[0]
        == "top_package"@ && k4[0] == "workspace"@ && k5[0] == "package"@ && k6[0] == "crate"@);
    assert("env_prefix"@.len() == 10 && "attr"@.len() == 4 && "config"@.len() == 6
        && "top_package"@.len() == 11 && "workspace"@.len() == 9 && "package"@.len() == 7
        && "crate"@.len() == 5);
    assert(candidate_for(k[0], inp) is None);
    assert(candidate_for(k1[0], inp) is None);
    assert(candidate_for(k2[0], inp) is None);
    assert(candidate_for(k3[0], inp) is None);
    assert(candidate_for(k4[0], inp) is None);
    assert(walk_choice(k5, inp) == choice(inp)) by {
        assert(walk_choice(k4, inp) == walk_choice(k5, inp));
        assert(walk_choice(k3, inp) == walk_choice(k4, inp));
        assert(walk_choice(k2, inp) == walk_choice(k3, inp));
        assert(walk_choice(k1, inp) == walk_choice(k2, inp));
        assert(walk_choice(k, inp) == walk_choice(k1, inp));
    }
    assert(walk_choice(k6, inp) == candidate_for(k6[0], inp)->0);
}

} // verus!
