//! The fallback chain that recovers the exported symbols of an artifact.
//!
//! The library decides; the caller reads files and runs tools. Each function
//! here takes the outcome of the step that was just performed and says what
//! to do next: perform another step, or stop with the symbols or an error.
//! The chain is: decode the module image (for an image only); ask `nm`-like
//! tools with several flag sets; ask `objdump` for its export table; decode
//! the image once more; give up.

use vstd::prelude::*;
use vstd::string::*;
use crate::dump::{nm_symbols, objdump_exports, parse_nm_symbols, parse_objdump_exports};
use crate::image::{image_symbols, names_of, parse_nro_exports};
use crate::setup::lower_text;
use crate::text::{
    contains_text, find_from, first_appearances, first_occurrence, occurs_at, same_text, texts,
    to_ascii_lower, to_chars,
};

verus! {

/// Number of `nm`-like tools that are tried.
pub const NM_TOOLS: usize = 4;

/// Number of flag sets that an `nm`-like tool is run with.
pub const NM_FLAG_SETS: usize = 4;

/// Number of `objdump`-like tools that are tried.
pub const OBJDUMP_TOOLS: usize = 2;

/// One step of the chain, for the caller to perform.
#[derive(Clone, Copy, Debug, PartialEq, Eq, Structural)]
pub enum Step {
    /// Read the artifact's bytes.
    ReadImage,
    /// Find out whether the `nm`-like tool with this index can be started.
    ProbeNm(usize),
    /// Run the `nm`-like tool with this index and the flag set with this index.
    RunNm(usize, usize),
    /// Find out whether the `objdump`-like tool with this index can be started.
    ProbeObjdump(usize),
    /// Run the `objdump`-like tool with this index.
    RunObjdump(usize),
    /// Read the artifact's bytes once more.
    ReadImageAgain,
}

/// What follows a step.
#[derive(Debug, PartialEq, Eq)]
pub enum Next {
    /// Perform this step.
    Do(Step),
    /// Done: these are the artifact's symbols.
    Found(Vec<String>),
    /// Done: no symbols, for this reason.
    Failed(String),
}

/// What a [`Next`] holds, with its strings as text.
pub enum NextView {
    Do(Step),
    Found(Seq<Seq<char>>),
    Failed(Seq<char>),
}

impl View for Next {
    type V = NextView;

    open spec fn view(&self) -> NextView {
        match *self {
            Next::Do(s) => NextView::Do(s),
            Next::Found(v) => NextView::Found(texts(v@)),
            Next::Failed(m) => NextView::Failed(m@),
        }
    }
}

/// How a tool run ended.
#[derive(Debug, PartialEq, Eq)]
pub enum ToolRun {
    /// The tool could not be started, for this reason.
    NotStarted(String),
    /// The tool ran and reported failure.
    Failed,
    /// The tool ran and printed this.
    Printed(String),
}

/// Whether an extension marks a module image, whatever its letter case.
pub open spec fn is_image_word(ext: Seq<char>) -> bool {
    lower_text(ext) == "nro"@
}

/// Tests a path's extension (`None` for a path without one) for marking a
/// module image, whatever its letter case.
pub fn has_nro_extension(ext: Option<&str>) -> (r: bool)
    ensures
        r == (ext is Some && is_image_word(ext->0@)),
{
    match ext {
        Some(e) => {
            let chars = to_chars(e);
            let mut lowered = String::new();
            let mut i: usize = 0;
            while i < chars.len()
                invariant
                    i <= chars@.len(),
                    chars@ == e@,
                    lowered@ == lower_text(e@).take(i as int),
                decreases chars@.len() - i,
            {
                lowered.push(to_ascii_lower(chars[i]));
                assert(lowered@ =~= lower_text(e@).take(i + 1));
                i = i + 1;
            }
            assert(lowered@ =~= lower_text(e@));
            same_text(lowered.as_str(), "nro")
        },
        None => false,
    }
}

/// Tests a path's extension for being exactly `nro`: the artifacts that the
/// chain treats as module images.
pub fn is_image_extension(ext: Option<&str>) -> (r: bool)
    ensures
        r == (ext is Some && ext->0@ == "nro"@),
{
    match ext {
        Some(e) => same_text(e, "nro"),
        None => false,
    }
}

/// The message of an extraction that found nothing.
pub open spec fn nothing_found() -> Seq<char> {
    "could not extract exported symbols from artifact (nm/objdump/nro parser found nothing)"@
}

/// The names of the `nm`-like tools, in the order in which they are tried.
pub open spec fn nm_tool_name(k: int) -> Seq<char> {
    if k == 0 {
        "llvm-nm"@
    } else if k == 1 {
        "nm"@
    } else if k == 2 {
        "rust-nm"@
    } else {
        "aarch64-none-elf-nm"@
    }
}

/// The names of the `objdump`-like tools, in the order in which they are tried.
pub open spec fn objdump_tool_name(k: int) -> Seq<char> {
    if k == 0 {
        "llvm-objdump"@
    } else {
        "objdump"@
    }
}

/// The flag sets for `nm`-like tools, in the order in which they are tried.
pub open spec fn nm_flag_set(j: int) -> Seq<Seq<char>> {
    if j == 0 {
        seq!["-g"@, "--defined-only"@]
    } else if j == 1 {
        seq!["-D"@, "--defined-only"@]
    } else if j == 2 {
        seq!["-gD"@]
    } else {
        seq!["-g"@]
    }
}

impl Step {
    /// The step's place in the chain. Every step that the chain asks for
    /// stands later than the one before, so the chain ends.
    pub open spec fn rank(self) -> int {
        match self {
            Step::ReadImage => 0,
            Step::ProbeNm(k) => 1 + k,
            Step::RunNm(_, j) => 1 + NM_TOOLS + j,
            Step::ProbeObjdump(k) => 1 + NM_TOOLS + NM_FLAG_SETS + k,
            Step::RunObjdump(_) => 1 + NM_TOOLS + NM_FLAG_SETS + OBJDUMP_TOOLS,
            Step::ReadImageAgain => 2 + NM_TOOLS + NM_FLAG_SETS + OBJDUMP_TOOLS,
        }
    }

    /// Whether the step's indices name a tool and a flag set that exist.
    pub open spec fn in_range(self) -> bool {
        match self {
            Step::ReadImage => true,
            Step::ProbeNm(k) => k < NM_TOOLS,
            Step::RunNm(k, j) => k < NM_TOOLS && j < NM_FLAG_SETS,
            Step::ProbeObjdump(k) => k < OBJDUMP_TOOLS,
            Step::RunObjdump(k) => k < OBJDUMP_TOOLS,
            Step::ReadImageAgain => true,
        }
    }

    /// The program that the step probes or runs; for a step that reads, the empty name.
    pub open spec fn tool_text(self) -> Seq<char> {
        match self {
            Step::ProbeNm(k) => nm_tool_name(k as int),
            Step::RunNm(k, _) => nm_tool_name(k as int),
            Step::ProbeObjdump(k) => objdump_tool_name(k as int),
            Step::RunObjdump(k) => objdump_tool_name(k as int),
            _ => Seq::empty(),
        }
    }

    /// The arguments that go before the artifact's path: `--version` for a
    /// probe (which takes no path), the flag set for a run.
    pub open spec fn argument_texts(self) -> Seq<Seq<char>> {
        match self {
            Step::ProbeNm(_) => seq!["--version"@],
            Step::ProbeObjdump(_) => seq!["--version"@],
            Step::RunNm(_, j) => nm_flag_set(j as int),
            Step::RunObjdump(_) => seq!["-p"@],
            _ => Seq::empty(),
        }
    }

    /// The program that the step probes or runs.
    pub fn tool(self) -> (r: &'static str)
        ensures
            r@ == self.tool_text(),
    {
        match self {
            Step::ProbeNm(k) | Step::RunNm(k, _) => {
                if k == 0 {
                    "llvm-nm"
                } else if k == 1 {
                    "nm"
                } else if k == 2 {
                    "rust-nm"
                } else {
                    "aarch64-none-elf-nm"
                }
            },
            Step::ProbeObjdump(k) | Step::RunObjdump(k) => {
                if k == 0 {
                    "llvm-objdump"
                } else {
                    "objdump"
                }
            },
            _ => {
                proof {
                    reveal_strlit("");
                }
                assert(""@ =~= Seq::<char>::empty());
                ""
            },
        }
    }

    /// The arguments that go before the artifact's path.
    pub fn arguments(self) -> (r: Vec<String>)
        ensures
            texts(r@) == self.argument_texts(),
    {
        let mut r: Vec<String> = Vec::new();
        match self {
            Step::ProbeNm(_) | Step::ProbeObjdump(_) => {
                r.push("--version".to_owned());
            },
            Step::RunNm(_, j) => {
                if j == 0 {
                    r.push("-g".to_owned());
                    r.push("--defined-only".to_owned());
                } else if j == 1 {
                    r.push("-D".to_owned());
                    r.push("--defined-only".to_owned());
                } else if j == 2 {
                    r.push("-gD".to_owned());
                } else {
                    r.push("-g".to_owned());
                }
            },
            Step::RunObjdump(_) => {
                r.push("-p".to_owned());
            },
            _ => {},
        }
        assert(texts(r@) =~= self.argument_texts());
        r
    }
}

/// The step that the chain starts with.
pub open spec fn first_step_of(is_image: bool) -> Step {
    if is_image {
        Step::ReadImage
    } else {
        Step::ProbeNm(0)
    }
}

/// The step that the chain starts with: an image is decoded first, any other
/// artifact goes to the tools at once.
pub fn first_step(is_image: bool) -> (s: Step)
    ensures
        s == first_step_of(is_image),
{
    if is_image {
        Step::ReadImage
    } else {
        Step::ProbeNm(0)
    }
}

/// What follows when the tools are exhausted.
pub open spec fn after_tools(is_image: bool) -> NextView {
    if is_image {
        NextView::Do(Step::ReadImageAgain)
    } else {
        NextView::Failed(nothing_found())
    }
}

/// The distinct names that the image `bytes` defines.
pub open spec fn image_exports(bytes: Seq<u8>) -> Seq<Seq<char>> {
    first_appearances(names_of(image_symbols(bytes)))
}

/// What follows reading the artifact: an artifact that could not be read
/// ends the chain with the reason; symbols that the image defines end it
/// with them; an image without symbols sends the first reading on to the
/// tools and lets the second one give up.
pub open spec fn after_read_of(again: bool, read: Result<Seq<u8>, Seq<char>>) -> NextView {
    match read {
        Err(reason) => NextView::Failed(reason),
        Ok(bytes) => if image_exports(bytes).len() > 0 {
            NextView::Found(image_exports(bytes))
        } else if again {
            NextView::Failed(nothing_found())
        } else {
            NextView::Do(Step::ProbeNm(0))
        },
    }
}

/// What follows a probe: a tool that can be started is run (an `nm`-like
/// tool with its first flag set); else the next tool of its kind is probed;
/// after the last `nm`-like tool come the `objdump`-like ones, and after the
/// last of those the tools are exhausted.
pub open spec fn after_probe_of(step: Step, available: bool, is_image: bool) -> NextView {
    match step {
        Step::ProbeNm(k) => if available {
            NextView::Do(Step::RunNm(k, 0))
        } else if k + 1 < NM_TOOLS {
            NextView::Do(Step::ProbeNm((k + 1) as usize))
        } else {
            NextView::Do(Step::ProbeObjdump(0))
        },
        Step::ProbeObjdump(k) => if available {
            NextView::Do(Step::RunObjdump(k))
        } else if k + 1 < OBJDUMP_TOOLS {
            NextView::Do(Step::ProbeObjdump((k + 1) as usize))
        } else {
            after_tools(is_image)
        },
        _ => after_tools(is_image),
    }
}

/// The symbols that a tool run gives: those that its output names, or none
/// where the tool reported failure.
pub open spec fn run_symbols(step: Step, run: ToolRun) -> Seq<Seq<char>> {
    match run {
        ToolRun::Printed(out) => match step {
            Step::RunNm(_, _) => nm_symbols(out@),
            Step::RunObjdump(_) => objdump_exports(out@),
            _ => Seq::empty(),
        },
        _ => Seq::empty(),
    }
}

/// The message for a tool that could not be started.
pub open spec fn not_started(step: Step, reason: Seq<char>) -> Seq<char> {
    match step {
        Step::RunNm(k, _) => "failed to run "@ + nm_tool_name(k as int) + ": "@ + reason,
        _ => "failed to run objdump: "@ + reason,
    }
}

/// What follows a tool run: a tool that could not be started ends the chain
/// with the reason; symbols end it with them; without symbols an `nm`-like
/// tool is run with its next flag set, then the `objdump`-like tools are
/// probed, and after an `objdump`-like tool the tools are exhausted.
pub open spec fn after_run_of(step: Step, run: ToolRun, is_image: bool) -> NextView {
    match run {
        ToolRun::NotStarted(reason) => NextView::Failed(not_started(step, reason@)),
        _ => if run_symbols(step, run).len() > 0 {
            NextView::Found(run_symbols(step, run))
        } else {
            match step {
                Step::RunNm(k, j) => if j + 1 < NM_FLAG_SETS {
                    NextView::Do(Step::RunNm(k, (j + 1) as usize))
                } else {
                    NextView::Do(Step::ProbeObjdump(0))
                },
                _ => after_tools(is_image),
            }
        },
    }
}

/// What follows when the tools are exhausted.
fn tools_exhausted(is_image: bool) -> (r: Next)
    ensures
        r@ == after_tools(is_image),
{
    if is_image {
        Next::Do(Step::ReadImageAgain)
    } else {
        Next::Failed(
            "could not extract exported symbols from artifact (nm/objdump/nro parser found nothing)".to_owned(),
        )
    }
}

/// The text of a string, or the bytes of a byte vector, of a read's outcome.
pub open spec fn read_view(read: Result<Vec<u8>, String>) -> Result<Seq<u8>, Seq<char>> {
    match read {
        Ok(b) => Ok(b@),
        Err(e) => Err(e@),
    }
}

/// Says what follows reading the artifact. `again` tells the second reading
/// from the first.
pub fn after_read(again: bool, read: Result<Vec<u8>, String>) -> (r: Next)
    ensures
        r@ == after_read_of(again, read_view(read)),
{
    match read {
        Err(reason) => Next::Failed(reason),
        Ok(bytes) => {
            let names = parse_nro_exports(bytes.as_slice());
            if names.len() > 0 {
                Next::Found(names)
            } else if again {
                Next::Failed(
                    "could not extract exported symbols from artifact (nm/objdump/nro parser found nothing)".to_owned(),
                )
            } else {
                Next::Do(Step::ProbeNm(0))
            }
        },
    }
}

/// Says what follows a probe of the tool that `step` names.
pub fn after_probe(step: Step, available: bool, is_image: bool) -> (r: Next)
    ensures
        r@ == after_probe_of(step, available, is_image),
{
    match step {
        Step::ProbeNm(k) => {
            if available {
                Next::Do(Step::RunNm(k, 0))
            } else if k < NM_TOOLS - 1 {
                Next::Do(Step::ProbeNm(k + 1))
            } else {
                Next::Do(Step::ProbeObjdump(0))
            }
        },
        Step::ProbeObjdump(k) => {
            if available {
                Next::Do(Step::RunObjdump(k))
            } else if k < OBJDUMP_TOOLS - 1 {
                Next::Do(Step::ProbeObjdump(k + 1))
            } else {
                tools_exhausted(is_image)
            }
        },
        _ => tools_exhausted(is_image),
    }
}

/// Says what follows the tool run that `step` names.
pub fn after_run(step: Step, run: ToolRun, is_image: bool) -> (r: Next)
    ensures
        r@ == after_run_of(step, run, is_image),
{
    let symbols: Vec<String> = match &run {
        ToolRun::NotStarted(reason) => {
            let mut msg: String = match step {
                Step::RunNm(_, _) => {
                    let mut m: String = "failed to run ".to_owned();
                    m.append(step.tool());
                    m.append(": ");
                    m
                },
                _ => "failed to run objdump: ".to_owned(),
            };
            msg.append(reason.as_str());
            return Next::Failed(msg);
        },
        ToolRun::Failed => Vec::new(),
        ToolRun::Printed(out) => match step {
            Step::RunNm(_, _) => parse_nm_symbols(out.as_str()),
            Step::RunObjdump(_) => parse_objdump_exports(out.as_str()),
            _ => Vec::new(),
        },
    };
    assert(texts(symbols@) =~= run_symbols(step, run));
    if symbols.len() > 0 {
        return Next::Found(symbols);
    }
    match step {
        Step::RunNm(k, j) => {
            if j < NM_FLAG_SETS - 1 {
                Next::Do(Step::RunNm(k, j + 1))
            } else {
                Next::Do(Step::ProbeObjdump(0))
            }
        },
        _ => tools_exhausted(is_image),
    }
}

impl Step {
    /// Whether the step is a probe.
    pub open spec fn is_probe(self) -> bool {
        self is ProbeNm || self is ProbeObjdump
    }

    /// Whether the step is a tool run.
    pub open spec fn is_run(self) -> bool {
        self is RunNm || self is RunObjdump
    }
}

/// The chain moves forward: every step that it asks for stands later in the
/// chain than the step whose outcome it was given, and names a tool and a
/// flag set that exist. A caller that performs the steps it is given
/// therefore comes to an end after at most thirteen of them.
pub proof fn lemma_chain_advances(step: Step, available: bool, run: ToolRun, read: Result<
    Seq<u8>,
    Seq<char>,
>, is_image: bool)
    requires
        step.in_range(),
    ensures
        first_step_of(is_image).in_range(),
        0 <= step.rank() <= 12,
        after_read_of(false, read) matches NextView::Do(s) ==> s.in_range() && s.rank() > 0,
        after_read_of(true, read) !is Do,
        step.is_probe() ==> (after_probe_of(step, available, is_image) matches NextView::Do(s)
            ==> s.in_range() && s.rank() > step.rank()),
        step.is_run() ==> (after_run_of(step, run, is_image) matches NextView::Do(s)
            ==> s.in_range() && s.rank() > step.rank()),
{
}

/// Symbols are never an empty list: an extraction that ends with `Found`
/// has at least one symbol.
pub proof fn lemma_found_is_not_empty(step: Step, run: ToolRun, read: Result<
    Seq<u8>,
    Seq<char>,
>, again: bool, is_image: bool)
    ensures
        after_read_of(again, read) matches NextView::Found(v) ==> v.len() > 0,
        after_run_of(step, run, is_image) matches NextView::Found(v) ==> v.len() > 0,
{
}

/// The message for an image whose extraction failed and whose companion
/// file's extraction failed as well.
pub open spec fn both_failed(first: Seq<char>, companion: Seq<char>, reason: Seq<char>) -> Seq<
    char,
> {
    first + "; fallback '"@ + companion + "' also failed: "@ + reason
}

/// Joins the error of an image's extraction with that of its companion file.
pub fn companion_failure(first: &str, companion: &str, reason: &str) -> (r: String)
    ensures
        r@ == both_failed(first@, companion@, reason@),
{
    let mut msg: String = first.to_owned();
    msg.append("; fallback '");
    msg.append(companion);
    msg.append("' also failed: ");
    msg.append(reason);
    msg
}

/// The error of an extraction as it is shown to the user: the artifact,
/// then what went wrong (for an extraction that found nothing, the
/// strategies that were tried).
pub open spec fn failure_text(artifact: Seq<char>, reason: Seq<char>) -> Seq<char> {
    artifact + ": "@ + reason
}

/// Names the artifact in the error of its extraction.
pub fn extraction_failure(artifact: &str, reason: &str) -> (r: String)
    ensures
        r@ == failure_text(artifact@, reason@),
{
    let mut msg: String = artifact.to_owned();
    msg.append(": ");
    msg.append(reason);
    msg
}

/// Whether a companion file is to be looked for: only for an image, and
/// only when the chain found nothing in the image itself.
pub fn needs_companion(is_image: bool, outcome: &Result<Vec<String>, String>) -> (r: bool)
    ensures
        r == (is_image && *outcome is Err),
{
    match outcome {
        Ok(_) => false,
        Err(_) => is_image,
    }
}

/// The outcome of an image's extraction once its companion file has been
/// tried: the companion's symbols, or both errors joined.
pub fn settle(first: &str, companion: &str, outcome: Result<Vec<String>, String>) -> (r: Result<
    Vec<String>,
    String,
>)
    ensures
        outcome is Ok ==> r == outcome,
        (outcome matches Err(reason) ==> r matches Err(msg) && msg@ == both_failed(
            first@,
            companion@,
            reason@,
        )),
{
    match outcome {
        Ok(symbols) => Ok(symbols),
        Err(reason) => Err(companion_failure(first, companion, reason.as_str())),
    }
}

/// The file names that are looked for first beside an image with this stem.
pub open spec fn companion_name_texts(stem: Seq<char>) -> Seq<Seq<char>> {
    seq![
        stem + ".nso"@,
        stem + ".so"@,
        stem + ".elf"@,
        "lib"@ + stem + ".nso"@,
        "lib"@ + stem + ".so"@,
        "lib"@ + stem + ".elf"@,
    ]
}

/// `stem` with `ending` behind it and, where asked, `lib` before it.
fn named(lib: bool, stem: &str, ending: &str) -> (r: String)
    ensures
        r@ == (if lib {
            "lib"@ + stem@ + ending@
        } else {
            stem@ + ending@
        }),
{
    let mut s: String = if lib {
        "lib".to_owned()
    } else {
        String::new()
    };
    s.append(stem);
    s.append(ending);
    assert(Seq::<char>::empty() + stem@ + ending@ =~= stem@ + ending@);
    s
}

/// The file names that are looked for first beside an image with this stem.
pub fn companion_names(stem: &str) -> (r: Vec<String>)
    ensures
        texts(r@) == companion_name_texts(stem@),
{
    let mut r: Vec<String> = Vec::new();
    r.push(named(false, stem, ".nso"));
    r.push(named(false, stem, ".so"));
    r.push(named(false, stem, ".elf"));
    r.push(named(true, stem, ".nso"));
    r.push(named(true, stem, ".so"));
    r.push(named(true, stem, ".elf"));
    assert(texts(r@) =~= companion_name_texts(stem@));
    r
}

/// Whether an extension is one of the common ones of a dynamic library.
pub open spec fn is_library_word(ext: Seq<char>) -> bool {
    ext == "so"@ || ext == "nso"@ || ext == "elf"@ || ext == "dll"@ || ext == "dylib"@
}

/// `s` without every `lib` at its start.
pub open spec fn without_lib(s: Seq<char>) -> Seq<char>
    decreases s.len(),
{
    if s.len() >= 3 && s[0] == 'l' && s[1] == 'i' && s[2] == 'b' {
        without_lib(s.skip(3))
    } else {
        s
    }
}

/// Whether a file found beside an image may hold the image's symbols: it has
/// a dynamic library's extension, and its stem holds the image's stem, or
/// the image's stem holds its stem without the leading `lib`.
pub open spec fn is_companion_of(ext: Seq<char>, file_stem: Seq<char>, stem: Seq<char>) -> bool {
    is_library_word(ext) && (contains_text(file_stem, stem) || contains_text(
        stem,
        without_lib(file_stem),
    ))
}

/// Tests a file found beside an image for being a companion of it. A file
/// without extension or stem is given as the empty string.
pub fn is_companion(ext: &str, file_stem: &str, stem: &str) -> (r: bool)
    ensures
        r == is_companion_of(ext@, file_stem@, stem@),
{
    if !(same_text(ext, "so") || same_text(ext, "nso") || same_text(ext, "elf") || same_text(
        ext,
        "dll",
    ) || same_text(ext, "dylib")) {
        return false;
    }
    let f = to_chars(file_stem);
    let s = to_chars(stem);
    assert(f@.take(f@.len() as int) =~= f@);
    assert(s@.take(s@.len() as int) =~= s@);
    if find_from(&f, 0, f.len(), &s).is_some() {
        return true;
    }
    let mut k: usize = 0;
    assert(f@.skip(0) =~= f@);
    while f.len() - k >= 3 && f[k] == 'l' && f[k + 1] == 'i' && f[k + 2] == 'b'
        invariant
            k <= f@.len(),
            without_lib(f@) == without_lib(f@.skip(k as int)),
        decreases f@.len() - k,
    {
        assert(f@.skip(k as int).skip(3) =~= f@.skip(k + 3));
        k = k + 3;
    }
    let mut rest: Vec<char> = Vec::new();
    let mut i: usize = k;
    while i < f.len()
        invariant
            k <= i <= f@.len(),
            rest@ == f@.subrange(k as int, i as int),
        decreases f@.len() - i,
    {
        rest.push(f[i]);
        assert(rest@ =~= f@.subrange(k as int, i + 1));
        i = i + 1;
    }
    assert(rest@ =~= f@.skip(k as int));
    find_from(&s, 0, s.len(), &rest).is_some()
}

/// The index of the newest of a list of modification times: the first of
/// those that no other exceeds. `None` for an empty list.
pub fn newest(times: &Vec<u128>) -> (r: Option<usize>)
    ensures
        r is None <==> times@.len() == 0,
        r matches Some(i) ==> i < times@.len() && (forall|j: int|
            0 <= j < times@.len() ==> times@[j] <= times@[i as int]) && (forall|j: int|
            0 <= j < i ==> times@[j] < times@[i as int]),
{
    if times.len() == 0 {
        return None;
    }
    let mut best: usize = 0;
    let mut i: usize = 1;
    while i < times.len()
        invariant
            best < i <= times@.len(),
            forall|j: int| 0 <= j < i ==> times@[j] <= times@[best as int],
            forall|j: int| 0 <= j < best ==> times@[j] < times@[best as int],
        decreases times@.len() - i,
    {
        if times[i] > times[best] {
            best = i;
        }
        i = i + 1;
    }
    Some(best)
}

} // verus!
