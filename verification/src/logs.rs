//! The texts that are written beside the artifacts: the sidecar list of
//! exports, the symbol log and the duplicate log. The functions here make
//! the texts; writing them to files is the caller's part.

use vstd::prelude::*;
use vstd::string::*;
use crate::image::{rows_of, NroSymbol, SymbolRow};
use crate::text::texts;

verus! {

/// What kind of thing a symbol names.
#[derive(Clone, Copy, Debug, PartialEq, Eq, Structural)]
pub enum SymbolKind {
    NoType,
    Object,
    Function,
    Section,
    File,
    Common,
    ThreadLocal,
    Unknown,
}

/// How a symbol is bound.
#[derive(Clone, Copy, Debug, PartialEq, Eq, Structural)]
pub enum SymbolBinding {
    Local,
    Global,
    Weak,
    Unknown,
}

/// The kind that a type number stands for.
pub open spec fn kind_of(st_type: u8) -> SymbolKind {
    if st_type == 0 {
        SymbolKind::NoType
    } else if st_type == 1 {
        SymbolKind::Object
    } else if st_type == 2 {
        SymbolKind::Function
    } else if st_type == 3 {
        SymbolKind::Section
    } else if st_type == 4 {
        SymbolKind::File
    } else if st_type == 5 {
        SymbolKind::Common
    } else if st_type == 6 {
        SymbolKind::ThreadLocal
    } else {
        SymbolKind::Unknown
    }
}

/// The binding that a binding number stands for.
pub open spec fn binding_of(st_bind: u8) -> SymbolBinding {
    if st_bind == 0 {
        SymbolBinding::Local
    } else if st_bind == 1 {
        SymbolBinding::Global
    } else if st_bind == 2 {
        SymbolBinding::Weak
    } else {
        SymbolBinding::Unknown
    }
}

impl SymbolKind {
    /// The kind's name in the symbol log.
    pub open spec fn label_text(self) -> Seq<char> {
        match self {
            SymbolKind::NoType => "NOTYPE"@,
            SymbolKind::Object => "OBJECT"@,
            SymbolKind::Function => "FUNC"@,
            SymbolKind::Section => "SECTION"@,
            SymbolKind::File => "FILE"@,
            SymbolKind::Common => "COMMON"@,
            SymbolKind::ThreadLocal => "TLS"@,
            SymbolKind::Unknown => "UNKNOWN"@,
        }
    }

    /// The kind that a type number stands for.
    pub fn from_type(st_type: u8) -> (k: SymbolKind)
        ensures
            k == kind_of(st_type),
    {
        if st_type == 0 {
            SymbolKind::NoType
        } else if st_type == 1 {
            SymbolKind::Object
        } else if st_type == 2 {
            SymbolKind::Function
        } else if st_type == 3 {
            SymbolKind::Section
        } else if st_type == 4 {
            SymbolKind::File
        } else if st_type == 5 {
            SymbolKind::Common
        } else if st_type == 6 {
            SymbolKind::ThreadLocal
        } else {
            SymbolKind::Unknown
        }
    }

    /// The kind's name in the symbol log.
    pub fn label(self) -> (r: &'static str)
        ensures
            r@ == self.label_text(),
    {
        match self {
            SymbolKind::NoType => "NOTYPE",
            SymbolKind::Object => "OBJECT",
            SymbolKind::Function => "FUNC",
            SymbolKind::Section => "SECTION",
            SymbolKind::File => "FILE",
            SymbolKind::Common => "COMMON",
            SymbolKind::ThreadLocal => "TLS",
            SymbolKind::Unknown => "UNKNOWN",
        }
    }
}

impl SymbolBinding {
    /// The binding's name in the symbol log.
    pub open spec fn label_text(self) -> Seq<char> {
        match self {
            SymbolBinding::Local => "LOCAL"@,
            SymbolBinding::Global => "GLOBAL"@,
            SymbolBinding::Weak => "WEAK"@,
            SymbolBinding::Unknown => "UNKNOWN"@,
        }
    }

    /// The binding that a binding number stands for.
    pub fn from_bind(st_bind: u8) -> (b: SymbolBinding)
        ensures
            b == binding_of(st_bind),
    {
        if st_bind == 0 {
            SymbolBinding::Local
        } else if st_bind == 1 {
            SymbolBinding::Global
        } else if st_bind == 2 {
            SymbolBinding::Weak
        } else {
            SymbolBinding::Unknown
        }
    }

    /// The binding's name in the symbol log.
    pub fn label(self) -> (r: &'static str)
        ensures
            r@ == self.label_text(),
    {
        match self {
            SymbolBinding::Local => "LOCAL",
            SymbolBinding::Global => "GLOBAL",
            SymbolBinding::Weak => "WEAK",
            SymbolBinding::Unknown => "UNKNOWN",
        }
    }
}

impl NroSymbol {
    /// What kind of thing the symbol names.
    pub fn kind(&self) -> (k: SymbolKind)
        ensures
            k == kind_of(self.st_type),
    {
        SymbolKind::from_type(self.st_type)
    }

    /// How the symbol is bound.
    pub fn binding(&self) -> (b: SymbolBinding)
        ensures
            b == binding_of(self.st_bind),
    {
        SymbolBinding::from_bind(self.st_bind)
    }
}

/// The name of a symbol type in the symbol log.
pub fn kind_name(st_type: u8) -> (r: &'static str)
    ensures
        r@ == kind_of(st_type).label_text(),
{
    SymbolKind::from_type(st_type).label()
}

/// The name of a symbol binding in the symbol log.
pub fn bind_name(st_bind: u8) -> (r: &'static str)
    ensures
        r@ == binding_of(st_bind).label_text(),
{
    SymbolBinding::from_bind(st_bind).label()
}

/// The upper-case hexadecimal digit for `d`.
pub open spec fn hex_digit(d: int) -> char {
    if d < 10 {
        ((48 + d) as u8) as char
    } else {
        ((55 + d) as u8) as char
    }
}

/// `n` in upper-case hexadecimal with exactly `width` digits (the low ones).
pub open spec fn hex_fixed(n: int, width: int) -> Seq<char>
    decreases width,
{
    if width <= 0 {
        Seq::empty()
    } else {
        hex_fixed(n / 16, width - 1).push(hex_digit(n % 16))
    }
}

/// `n` in upper-case hexadecimal with as many digits as it needs.
pub open spec fn hex_short(n: int) -> Seq<char>
    decreases n,
{
    if n < 16 {
        seq![hex_digit(n)]
    } else {
        hex_short(n / 16).push(hex_digit(n % 16))
    }
}

/// The upper-case hexadecimal digit for `d`.
fn digit(d: u8) -> (c: char)
    requires
        d < 16,
    ensures
        c == hex_digit(d as int),
{
    if d < 10 {
        (48 + d) as char
    } else {
        (55 + d) as char
    }
}

/// Appends `n` in hexadecimal with exactly `width` digits.
fn push_hex_fixed(out: &mut String, n: u64, width: u8)
    ensures
        final(out)@ == old(out)@ + hex_fixed(n as int, width as int),
    decreases width,
{
    if width == 0 {
        assert(out@ =~= out@ + hex_fixed(n as int, 0));
        return ;
    }
    let ghost before = out@;
    push_hex_fixed(out, n / 16, width - 1);
    out.push(digit((n % 16) as u8));
    assert(out@ =~= before + hex_fixed(n as int, width as int));
}

/// Appends `n` in hexadecimal with as many digits as it needs.
fn push_hex_short(out: &mut String, n: u64)
    ensures
        final(out)@ == old(out)@ + hex_short(n as int),
    decreases n,
{
    let ghost before = out@;
    if n >= 16 {
        push_hex_short(out, n / 16);
    }
    out.push(digit((n % 16) as u8));
    assert(out@ =~= before + hex_short(n as int));
}

/// The symbol log's line for one symbol: address in sixteen hexadecimal
/// digits, type, binding, size in hexadecimal, name.
pub open spec fn symbol_line(row: SymbolRow) -> Seq<char> {
    "0x"@ + hex_fixed(row.value as int, 16) + " "@ + kind_of(row.st_type).label_text() + " "@
        + binding_of(row.st_bind).label_text() + " 0x"@ + hex_short(row.size as int) + " "@
        + row.name + "\n"@
}

/// The symbol log's lines for a list of symbols.
pub open spec fn symbol_lines(rows: Seq<SymbolRow>) -> Seq<char>
    decreases rows.len(),
{
    if rows.len() == 0 {
        Seq::empty()
    } else {
        symbol_lines(rows.drop_last()) + symbol_line(rows.last())
    }
}

/// Each item on a line of its own, with `indent` before it.
pub open spec fn item_lines(items: Seq<Seq<char>>, indent: Seq<char>) -> Seq<char>
    decreases items.len(),
{
    if items.len() == 0 {
        Seq::empty()
    } else {
        item_lines(items.drop_last(), indent) + indent + items.last() + "\n"@
    }
}

/// Appends each item on a line of its own, with `indent` before it.
fn push_item_lines(out: &mut String, items: &Vec<String>, indent: &str)
    ensures
        final(out)@ == old(out)@ + item_lines(texts(items@), indent@),
{
    let ghost before = out@;
    let ghost all = texts(items@);
    let mut i: usize = 0;
    assert(out@ =~= before + item_lines(all.take(0), indent@));
    while i < items.len()
        invariant
            i <= items@.len(),
            all == texts(items@),
            out@ == before + item_lines(all.take(i as int), indent@),
        decreases items@.len() - i,
    {
        out.append(indent);
        out.append(items[i].as_str());
        out.append("\n");
        proof {
            let t = all.take(i + 1);
            assert(t.drop_last() =~= all.take(i as int));
            assert(t.last() == items@[i as int]@);
            assert(out@ =~= before + (item_lines(t.drop_last(), indent@) + indent@ + t.last()
                + "\n"@));
        }
        i = i + 1;
    }
    assert(all.take(items@.len() as int) =~= all);
}

/// The sidecar file of an artifact: each exported symbol on a line of its
/// own, in the order given.
pub open spec fn sidecar_text(symbols: Seq<Seq<char>>) -> Seq<char> {
    item_lines(symbols, Seq::empty())
}

/// Makes the text of an artifact's sidecar file.
pub fn sidecar_body(symbols: &Vec<String>) -> (body: String)
    ensures
        body@ == sidecar_text(texts(symbols@)),
{
    let mut body = String::new();
    proof {
        reveal_strlit("");
    }
    assert(""@ =~= Seq::<char>::empty());
    push_item_lines(&mut body, symbols, "");
    assert(body@ =~= sidecar_text(texts(symbols@)));
    body
}

/// The name of an artifact's sidecar file: the artifact's file name with
/// `.exports.txt` behind it.
pub fn sidecar_name(file_name: &str) -> (r: String)
    ensures
        r@ == file_name@ + ".exports.txt"@,
{
    let mut name: String = file_name.to_owned();
    name.append(".exports.txt");
    name
}

/// The head of every symbol log: a title and the artifact it describes.
pub open spec fn log_head(source: Seq<char>) -> Seq<char> {
    "# symbaker sym.log\n"@ + "# source="@ + source + "\n"@
}

/// The symbol log of a module image: head, format line, one line per symbol.
pub open spec fn image_log_text(source: Seq<char>, rows: Seq<SymbolRow>) -> Seq<char> {
    log_head(source) + "# format: address type bind size name\n"@ + symbol_lines(rows)
}

/// The symbol log of any other artifact: head, format line, one name per line.
pub open spec fn names_log_text(source: Seq<char>, names: Seq<Seq<char>>) -> Seq<char> {
    log_head(source) + "# format: name\n"@ + item_lines(names, Seq::empty())
}

/// Starts a symbol log.
fn head_of_log(source: &str) -> (body: String)
    ensures
        body@ == log_head(source@),
{
    let mut body: String = "# symbaker sym.log\n".to_owned();
    body.append("# source=");
    body.append(source);
    body.append("\n");
    body
}

/// Makes the symbol log of a module image from its symbol table.
pub fn image_symbol_log(source: &str, rows: &Vec<NroSymbol>) -> (body: String)
    ensures
        body@ == image_log_text(source@, rows_of(rows@)),
{
    let mut body = head_of_log(source);
    body.append("# format: address type bind size name\n");
    let ghost before = body@;
    let ghost all = rows_of(rows@);
    let mut i: usize = 0;
    assert(body@ =~= before + symbol_lines(all.take(0)));
    while i < rows.len()
        invariant
            i <= rows@.len(),
            all == rows_of(rows@),
            body@ == before + symbol_lines(all.take(i as int)),
        decreases rows@.len() - i,
    {
        let row: &NroSymbol = &rows[i];
        let ghost so_far = body@;
        body.append("0x");
        push_hex_fixed(&mut body, row.value, 16);
        body.append(" ");
        body.append(kind_name(row.st_type));
        body.append(" ");
        body.append(bind_name(row.st_bind));
        body.append(" 0x");
        push_hex_short(&mut body, row.size);
        body.append(" ");
        body.append(row.name.as_str());
        body.append("\n");
        proof {
            let t = all.take(i + 1);
            assert(t.drop_last() =~= all.take(i as int));
            assert(t.last() == rows@[i as int]@);
            assert(body@ =~= so_far + symbol_line(t.last()));
            assert(body@ =~= before + (symbol_lines(t.drop_last()) + symbol_line(t.last())));
        }
        i = i + 1;
    }
    assert(all.take(rows@.len() as int) =~= all);
    body
}

/// Makes the symbol log of an artifact of which only the names are known.
pub fn names_symbol_log(source: &str, names: &Vec<String>) -> (body: String)
    ensures
        body@ == names_log_text(source@, texts(names@)),
{
    let mut body = head_of_log(source);
    body.append("# format: name\n");
    proof {
        reveal_strlit("");
    }
    assert(""@ =~= Seq::<char>::empty());
    push_item_lines(&mut body, names, "");
    body
}

/// The part of a combined log for one row: a blank line, the row's name
/// with `head` before it, then the row's items each on a line of its own
/// with `indent` before it.
pub open spec fn section(row: (String, Vec<String>), head: Seq<char>, indent: Seq<char>) -> Seq<char> {
    "\n"@ + head + row.0@ + "\n"@ + item_lines(texts(row.1@), indent)
}

/// The sections of a list of rows.
pub open spec fn sections(rows: Seq<(String, Vec<String>)>, head: Seq<char>, indent: Seq<char>) -> Seq<
    char,
>
    decreases rows.len(),
{
    if rows.len() == 0 {
        Seq::empty()
    } else {
        sections(rows.drop_last(), head, indent) + section(rows.last(), head, indent)
    }
}

/// Appends the sections of a list of rows.
fn push_sections(out: &mut String, rows: &Vec<(String, Vec<String>)>, head: &str, indent: &str)
    ensures
        final(out)@ == old(out)@ + sections(rows@, head@, indent@),
{
    let ghost before = out@;
    let mut i: usize = 0;
    assert(out@ =~= before + sections(rows@.take(0), head@, indent@));
    while i < rows.len()
        invariant
            i <= rows@.len(),
            out@ == before + sections(rows@.take(i as int), head@, indent@),
        decreases rows@.len() - i,
    {
        let ghost so_far = out@;
        out.append("\n");
        out.append(head);
        out.append(rows[i].0.as_str());
        out.append("\n");
        push_item_lines(out, &rows[i].1, indent);
        proof {
            let t = rows@.take(i + 1);
            assert(t.drop_last() =~= rows@.take(i as int));
            assert(t.last() == rows@[i as int]);
            assert(out@ =~= so_far + section(t.last(), head@, indent@));
            assert(out@ =~= before + (sections(t.drop_last(), head@, indent@) + section(
                t.last(),
                head@,
                indent@,
            )));
        }
        i = i + 1;
    }
    assert(rows@.take(rows@.len() as int) =~= rows@);
}

/// The symbol log of several artifacts: for each its path and its symbols.
pub open spec fn batch_log_text(rows: Seq<(String, Vec<String>)>) -> Seq<char> {
    "# symbaker sym.log\n"@ + "# format: source=<path> then one symbol per line\n"@ + sections(
        rows,
        "# source="@,
        Seq::empty(),
    )
}

/// Makes the symbol log of several artifacts. Each row is an artifact's path
/// and its symbols.
pub fn batch_symbol_log(rows: &Vec<(String, Vec<String>)>) -> (body: String)
    ensures
        body@ == batch_log_text(rows@),
{
    let mut body: String = "# symbaker sym.log\n".to_owned();
    body.append("# format: source=<path> then one symbol per line\n");
    proof {
        reveal_strlit("");
    }
    assert(""@ =~= Seq::<char>::empty());
    push_sections(&mut body, rows, "# source=", "");
    body
}

/// The duplicate log: for each duplicated symbol its name, then the paths
/// of the artifacts that export it, indented.
pub open spec fn duplicates_log_text(found: Seq<(String, Vec<String>)>) -> Seq<char> {
    "# symbaker duplicates.log\n"@ + "# format: symbol followed by files exporting it\n"@
        + sections(found, Seq::empty(), "  "@)
}

/// Makes the duplicate log from a report of duplicates.
pub fn duplicates_log(found: &Vec<(String, Vec<String>)>) -> (body: String)
    ensures
        body@ == duplicates_log_text(found@),
{
    let mut body: String = "# symbaker duplicates.log\n".to_owned();
    body.append("# format: symbol followed by files exporting it\n");
    proof {
        reveal_strlit("");
    }
    assert(""@ =~= Seq::<char>::empty());
    push_sections(&mut body, found, "", "  ");
    body
}

} // verus!
