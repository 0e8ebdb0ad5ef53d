//! Decoder for the module image format: a header with three segment
//! descriptors, a flattened virtual image rebuilt from the segments, a module
//! descriptor inside it that points to a dynamic tag/value table, and the
//! symbol and string tables that the dynamic table locates.
//!
//! Every function here is total: a malformed image yields no symbols.

use vstd::prelude::*;
use vstd::utf8::*;
use vstd::string::*;
use vstd::slice::slice_subrange;
use crate::text::{
    first_appearances, lemma_lex_order_flip, lemma_lex_order_trans, order_strs, push_unique,
    text_order, texts, Order,
};

verus! {

/// Tag that terminates the dynamic table.
pub const DT_NULL: u64 = 0;

/// Tag whose value is the offset of the string table.
pub const DT_STRTAB: u64 = 5;

/// Tag whose value is the offset of the symbol table.
pub const DT_SYMTAB: u64 = 6;

/// Tag whose value is the size of the string table in bytes.
pub const DT_STRSZ: u64 = 10;

/// Offset of the image magic in the file header.
pub const IMAGE_MAGIC_AT: usize = 0x10;

/// Offset of the first segment descriptor in the file header.
pub const SEGMENTS_AT: usize = 0x20;

/// Number of header bytes that hold the magic and the three descriptors.
pub const HEADER_LEN: usize = 0x38;

/// Width of one symbol table entry.
pub const ENTRY_LEN: usize = 24;

/// Width of one dynamic table entry.
pub const DYN_LEN: usize = 16;

/// The little-endian 16-bit number at `off`.
pub open spec fn le_u16(b: Seq<u8>, off: int) -> int {
    b[off] as int + 256 * (b[off + 1] as int)
}

/// The little-endian 32-bit number at `off`.
pub open spec fn le_u32(b: Seq<u8>, off: int) -> int {
    le_u16(b, off) + 65536 * le_u16(b, off + 2)
}

/// The little-endian 64-bit number at `off`.
pub open spec fn le_u64(b: Seq<u8>, off: int) -> int {
    le_u32(b, off) + 4294967296 * le_u32(b, off + 4)
}

/// Whether the four bytes at `off` exist and spell the given tag.
pub open spec fn has_tag(b: Seq<u8>, off: int, tag: Seq<u8>) -> bool {
    &&& 0 <= off
    &&& off + 4 <= b.len()
    &&& b[off] == tag[0]
    &&& b[off + 1] == tag[1]
    &&& b[off + 2] == tag[2]
    &&& b[off + 3] == tag[3]
}

/// The bytes `NRO0`.
pub open spec fn image_magic() -> Seq<u8> {
    seq![0x4Eu8, 0x52u8, 0x4Fu8, 0x30u8]
}

/// The bytes `MOD0`.
pub open spec fn module_magic() -> Seq<u8> {
    seq![0x4Du8, 0x4Fu8, 0x44u8, 0x30u8]
}

/// Reads a little-endian `u16`; `None` when the two bytes are not all inside `bytes`.
pub fn read_u16_le(bytes: &[u8], off: usize) -> (r: Option<u16>)
    ensures
        r == (if off + 2 <= bytes@.len() {
            Some(le_u16(bytes@, off as int) as u16)
        } else {
            None::<u16>
        }),
{
    if bytes.len() < 2 || off > bytes.len() - 2 {
        return None;
    }
    let lo: u16 = bytes[off] as u16;
    let hi: u16 = bytes[off + 1] as u16;
    Some(lo + 256 * hi)
}

/// Reads a little-endian `u32`; `None` when the four bytes are not all inside `bytes`.
pub fn read_u32_le(bytes: &[u8], off: usize) -> (r: Option<u32>)
    ensures
        r == (if off + 4 <= bytes@.len() {
            Some(le_u32(bytes@, off as int) as u32)
        } else {
            None::<u32>
        }),
{
    if bytes.len() < 4 || off > bytes.len() - 4 {
        return None;
    }
    let b0: u32 = bytes[off] as u32;
    let b1: u32 = bytes[off + 1] as u32;
    let b2: u32 = bytes[off + 2] as u32;
    let b3: u32 = bytes[off + 3] as u32;
    Some(b0 + 256 * b1 + 65536 * (b2 + 256 * b3))
}

/// Reads a little-endian `u64`; `None` when the eight bytes are not all inside `bytes`.
pub fn read_u64_le(bytes: &[u8], off: usize) -> (r: Option<u64>)
    ensures
        r == (if off + 8 <= bytes@.len() {
            Some(le_u64(bytes@, off as int) as u64)
        } else {
            None::<u64>
        }),
{
    if bytes.len() < 8 || off > bytes.len() - 8 {
        return None;
    }
    let lo: u32 = match read_u32_le(bytes, off) {
        Some(v) => v,
        None => 0,
    };
    let hi: u32 = match read_u32_le(bytes, off + 4) {
        Some(v) => v,
        None => 0,
    };
    Some(lo as u64 + 4294967296 * (hi as u64))
}

/// Whether the four bytes at `off` exist and equal `t0 t1 t2 t3`.
fn tag_at(bytes: &[u8], off: usize, t0: u8, t1: u8, t2: u8, t3: u8) -> (r: bool)
    ensures
        r == has_tag(bytes@, off as int, seq![t0, t1, t2, t3]),
{
    if bytes.len() < 4 || off > bytes.len() - 4 {
        return false;
    }
    bytes[off] == t0 && bytes[off + 1] == t1 && bytes[off + 2] == t2 && bytes[off + 3] == t3
}

/// Start of segment `k` (0 code, 1 read-only, 2 data) as the header declares it.
pub open spec fn segment_start(file: Seq<u8>, k: int) -> int {
    le_u32(file, 0x20 + 8 * k)
}

/// Size of segment `k` as the header declares it.
pub open spec fn segment_size(file: Seq<u8>, k: int) -> int {
    le_u32(file, 0x24 + 8 * k)
}

/// The bytes of segment `k`.
pub open spec fn segment(file: Seq<u8>, k: int) -> Seq<u8> {
    file.subrange(segment_start(file, k), segment_start(file, k) + segment_size(file, k))
}

/// Whether the file carries the image magic and three segments that lie inside it.
pub open spec fn header_ok(file: Seq<u8>) -> bool {
    &&& file.len() >= 0x38
    &&& has_tag(file, 0x10, image_magic())
    &&& forall|k: int| 0 <= k < 3 ==> segment_start(file, k) + #[trigger] segment_size(file, k) <= file.len()
}

/// `img` cut or zero-filled to exactly `len` bytes.
pub open spec fn resized(img: Seq<u8>, len: int) -> Seq<u8> {
    Seq::new(
        len as nat,
        |i: int|
            if i < img.len() {
                img[i]
            } else {
                0u8
            },
    )
}

/// The flattened virtual image: the code segment, then the read-only segment
/// placed at its declared start, then the data segment placed at its declared
/// start. A gap before a segment is filled with zeros; where a segment starts
/// inside what precedes it, the overlap is dropped from what precedes.
pub open spec fn flat_image(file: Seq<u8>) -> Seq<u8> {
    let with_ro = resized(segment(file, 0), segment_start(file, 1)) + segment(file, 1);
    resized(with_ro, segment_start(file, 2)) + segment(file, 2)
}

/// Cuts or zero-fills `img` to `len` bytes.
fn resize_to(img: &mut Vec<u8>, len: usize)
    ensures
        final(img)@ == resized(old(img)@, len as int),
{
    if len <= img.len() {
        img.truncate(len);
        assert(img@ =~= resized(old(img)@, len as int));
    } else {
        let ghost before = img@;
        while img.len() < len
            invariant
                before.len() <= img.len() <= len,
                forall|i: int| 0 <= i < before.len() ==> img@[i] == before[i],
                forall|i: int| before.len() <= i < img.len() ==> img@[i] == 0u8,
            decreases len - img.len(),
        {
            img.push(0u8);
        }
        assert(img@ =~= resized(before, len as int));
    }
}

/// Appends `src[start..start + size]` to `img`.
fn append_range(img: &mut Vec<u8>, src: &[u8], start: usize, size: usize)
    requires
        start + size <= src@.len(),
    ensures
        final(img)@ == old(img)@ + src@.subrange(start as int, start + size),
{
    let ghost before = img@;
    let total: usize = src.len();
    let mut i: usize = 0;
    while i < size
        invariant
            i <= size,
            total == src@.len(),
            start + size <= total,
            img@ == before + src@.subrange(start as int, start + i),
        decreases size - i,
    {
        img.push(src[start + i]);
        i = i + 1;
        assert(img@ =~= before + src@.subrange(start as int, start + i));
    }
}

/// Reads segment descriptor `k`; `None` unless it lies inside the file.
fn read_segment(data: &[u8], k: usize) -> (r: Option<(usize, usize)>)
    requires
        k < 3,
        data@.len() >= 0x38,
    ensures
        r is Some <==> segment_start(data@, k as int) + segment_size(data@, k as int)
            <= data@.len(),
        r matches Some((start, size)) ==> start == segment_start(data@, k as int) && size
            == segment_size(data@, k as int),
{
    let at: usize = SEGMENTS_AT + 8 * k;
    let start: u32 = match read_u32_le(data, at) {
        Some(v) => v,
        None => 0,
    };
    let size: u32 = match read_u32_le(data, at + 4) {
        Some(v) => v,
        None => 0,
    };
    if start as u64 + size as u64 > data.len() as u64 {
        None
    } else {
        Some((start as usize, size as usize))
    }
}

/// Rebuilds the flattened virtual image; `None` when the header is not that of an image.
pub fn flatten_image(data: &[u8]) -> (r: Option<Vec<u8>>)
    ensures
        r is Some <==> header_ok(data@),
        r matches Some(img) ==> img@ == flat_image(data@),
{
    if data.len() < HEADER_LEN || !tag_at(data, IMAGE_MAGIC_AT, 0x4E, 0x52, 0x4F, 0x30) {
        assert(seq![0x4Eu8, 0x52u8, 0x4Fu8, 0x30u8] =~= image_magic());
        return None;
    }
    assert(seq![0x4Eu8, 0x52u8, 0x4Fu8, 0x30u8] =~= image_magic());
    let (tloc, tsize) = match read_segment(data, 0) {
        Some(s) => s,
        None => {
            return None;
        },
    };
    let (rloc, rsize) = match read_segment(data, 1) {
        Some(s) => s,
        None => {
            return None;
        },
    };
    let (dloc, dsize) = match read_segment(data, 2) {
        Some(s) => s,
        None => {
            return None;
        },
    };
    let mut full: Vec<u8> = Vec::new();
    append_range(&mut full, data, tloc, tsize);
    assert(full@ =~= segment(data@, 0));
    resize_to(&mut full, rloc);
    append_range(&mut full, data, rloc, rsize);
    resize_to(&mut full, dloc);
    append_range(&mut full, data, dloc, dsize);
    Some(full)
}

/// Where the symbol table and the string table lie in a flattened image.
pub struct Layout {
    /// Offset of the first symbol entry.
    pub symtab: int,
    /// Offset of the string table; the symbol table ends here.
    pub strtab: int,
    /// End of the string table, cut to the image.
    pub str_end: int,
}

/// Executable form of [`Layout`].
pub struct TableLayout {
    pub symtab: usize,
    pub strtab: usize,
    pub str_end: usize,
}

impl View for TableLayout {
    type V = Layout;

    open spec fn view(&self) -> Layout {
        Layout { symtab: self.symtab as int, strtab: self.strtab as int, str_end: self.str_end as int }
    }
}

/// Offset of the dynamic table: the image's second header word gives the
/// module descriptor, which must carry the module magic and whose second word
/// is the table's offset relative to the descriptor. `None` when any of these
/// lies outside the image.
pub open spec fn dynamic_offset(img: Seq<u8>) -> Option<int> {
    if img.len() < 8 {
        None
    } else {
        let m = le_u32(img, 4);
        if !has_tag(img, m, module_magic()) || m + 8 > img.len() {
            None
        } else if m + le_u32(img, m + 4) >= img.len() {
            None
        } else {
            Some(m + le_u32(img, m + 4))
        }
    }
}

/// The value that the dynamic table starting at `off` gives for `tag`: that of
/// the last entry with this tag before the terminator, or before the image
/// has no room for another entry.
pub open spec fn dyn_value(img: Seq<u8>, off: int, tag: u64) -> Option<u64>
    decreases img.len() - off,
{
    if off < 0 || off + 16 > img.len() || le_u64(img, off) == 0 {
        None
    } else {
        match dyn_value(img, off + 16, tag) {
            Some(v) => Some(v),
            None => if le_u64(img, off) == tag {
                Some(le_u64(img, off + 8) as u64)
            } else {
                None
            },
        }
    }
}

/// The smaller of two numbers.
pub open spec fn min_of(a: int, b: int) -> int {
    if a <= b {
        a
    } else {
        b
    }
}

/// The table layout of a flattened image: all three tags must be present,
/// the string table non-empty and inside the image, and the symbol table
/// must start before it.
pub open spec fn tables(img: Seq<u8>) -> Option<Layout> {
    match dynamic_offset(img) {
        None => None,
        Some(d) => {
            let strtab = dyn_value(img, d, DT_STRTAB);
            let strsz = dyn_value(img, d, DT_STRSZ);
            let symtab = dyn_value(img, d, DT_SYMTAB);
            if strtab is Some && strsz is Some && symtab is Some && strsz->0 != 0 && strtab->0
                < img.len() && symtab->0 < strtab->0 {
                Some(
                    Layout {
                        symtab: symtab->0 as int,
                        strtab: strtab->0 as int,
                        str_end: min_of(strtab->0 + strsz->0, img.len() as int),
                    },
                )
            } else {
                None
            }
        },
    }
}

/// Finds the dynamic table.
fn find_dynamic(img: &[u8]) -> (r: Option<usize>)
    ensures
        r is Some <==> dynamic_offset(img@) is Some,
        r matches Some(d) ==> d == dynamic_offset(img@)->0 && d < img@.len(),
{
    let modoff: u32 = match read_u32_le(img, 4) {
        Some(v) => v,
        None => {
            return None;
        },
    };
    let len: usize = img.len();
    if modoff as u64 + 8 > len as u64 {
        return None;
    }
    let m: usize = modoff as usize;
    assert(seq![0x4Du8, 0x4Fu8, 0x44u8, 0x30u8] =~= module_magic());
    if !tag_at(img, m, 0x4D, 0x4F, 0x44, 0x30) {
        return None;
    }
    let rel: u32 = match read_u32_le(img, m + 4) {
        Some(v) => v,
        None => 0,
    };
    if modoff as u64 + rel as u64 >= len as u64 {
        return None;
    }
    Some(m + rel as usize)
}

/// What a later part of the table says, or else what was seen so far.
spec fn later_or(later: Option<u64>, seen: Option<u64>) -> Option<u64> {
    match later {
        Some(v) => Some(v),
        None => seen,
    }
}

/// Walks the dynamic table and returns the values of the string-table,
/// string-size and symbol-table tags.
fn walk_dynamic(img: &[u8], start: usize) -> (r: (Option<u64>, Option<u64>, Option<u64>))
    requires
        start < img@.len(),
    ensures
        r.0 == dyn_value(img@, start as int, DT_STRTAB),
        r.1 == dyn_value(img@, start as int, DT_STRSZ),
        r.2 == dyn_value(img@, start as int, DT_SYMTAB),
{
    let len: usize = img.len();
    let mut strtab: Option<u64> = None;
    let mut strsz: Option<u64> = None;
    let mut symtab: Option<u64> = None;
    let mut off: usize = start;
    loop
        invariant
            len == img@.len(),
            start <= off <= len,
            dyn_value(img@, start as int, DT_STRTAB) == later_or(
                dyn_value(img@, off as int, DT_STRTAB),
                strtab,
            ),
            dyn_value(img@, start as int, DT_STRSZ) == later_or(
                dyn_value(img@, off as int, DT_STRSZ),
                strsz,
            ),
            dyn_value(img@, start as int, DT_SYMTAB) == later_or(
                dyn_value(img@, off as int, DT_SYMTAB),
                symtab,
            ),
        decreases len - off,
    {
        if len - off < DYN_LEN {
            return (strtab, strsz, symtab);
        }
        let tag: u64 = match read_u64_le(img, off) {
            Some(v) => v,
            None => DT_NULL,
        };
        let val: u64 = match read_u64_le(img, off + 8) {
            Some(v) => v,
            None => 0,
        };
        if tag == DT_NULL {
            return (strtab, strsz, symtab);
        }
        if tag == DT_STRTAB {
            strtab = Some(val);
        } else if tag == DT_STRSZ {
            strsz = Some(val);
        } else if tag == DT_SYMTAB {
            symtab = Some(val);
        }
        off = off + DYN_LEN;
    }
}

/// Finds the symbol table and the string table of a flattened image.
pub fn locate_tables(img: &[u8]) -> (r: Option<TableLayout>)
    ensures
        r is Some <==> tables(img@) is Some,
        r matches Some(t) ==> t@ == tables(img@)->0 && t.symtab < t.strtab < t.str_end
            <= img@.len(),
{
    let start: usize = match find_dynamic(img) {
        Some(d) => d,
        None => {
            return None;
        },
    };
    let (strtab, strsz, symtab) = walk_dynamic(img, start);
    let len: usize = img.len();
    match (strtab, strsz, symtab) {
        (Some(a), Some(b), Some(c)) => {
            if b == 0 || a >= len as u64 || c >= a {
                return None;
            }
            let strtab_at: usize = a as usize;
            let str_end: usize = if b >= (len - strtab_at) as u64 {
                len
            } else {
                strtab_at + b as usize
            };
            Some(TableLayout { symtab: c as usize, strtab: strtab_at, str_end })
        },
        _ => None,
    }
}

/// One entry of an image's symbol table.
#[derive(Clone, Debug, PartialEq, Eq)]
pub struct NroSymbol {
    pub name: String,
    /// The symbol's address.
    pub value: u64,
    /// Low four bits of the entry's combined type and binding byte.
    pub st_type: u8,
    /// High four bits of the entry's combined type and binding byte.
    pub st_bind: u8,
    pub size: u64,
    /// Section index; zero marks an undefined reference.
    pub shndx: u16,
}

/// What a symbol entry says, with its name as text.
pub struct SymbolRow {
    pub name: Seq<char>,
    pub value: u64,
    pub st_type: u8,
    pub st_bind: u8,
    pub size: u64,
    pub shndx: u16,
}

impl View for NroSymbol {
    type V = SymbolRow;

    open spec fn view(&self) -> SymbolRow {
        SymbolRow {
            name: self.name@,
            value: self.value,
            st_type: self.st_type,
            st_bind: self.st_bind,
            size: self.size,
            shndx: self.shndx,
        }
    }
}

/// The rows that a list of symbols holds.
pub open spec fn rows_of(v: Seq<NroSymbol>) -> Seq<SymbolRow> {
    v.map_values(|s: NroSymbol| s@)
}

/// First index in `[off, limit)` that holds a zero byte, or `limit`.
pub open spec fn c_string_end(b: Seq<u8>, off: int, limit: int) -> int
    decreases limit - off,
{
    if off >= limit {
        limit
    } else if b[off] == 0 {
        off
    } else {
        c_string_end(b, off + 1, limit)
    }
}

/// The zero-terminated text at `off`, read no further than `max_end` and the
/// end of `b`. `None` when `off` is not before that limit, when the text is
/// empty, or when its bytes are not UTF-8.
pub open spec fn c_string(b: Seq<u8>, off: int, max_end: int) -> Option<Seq<char>> {
    let limit = min_of(max_end, b.len() as int);
    let raw = b.subrange(off, c_string_end(b, off, limit));
    if off < 0 || off >= limit || raw.len() == 0 || !valid_utf8(raw) {
        None
    } else {
        Some(decode_utf8(raw))
    }
}

/// Reads the zero-terminated text at `off`.
pub fn cstr_at(bytes: &[u8], off: usize, max_end: usize) -> (r: Option<String>)
    ensures
        r is Some <==> c_string(bytes@, off as int, max_end as int) is Some,
        r matches Some(s) ==> s@ == c_string(bytes@, off as int, max_end as int)->0,
{
    let limit: usize = if max_end < bytes.len() {
        max_end
    } else {
        bytes.len()
    };
    if off >= limit {
        return None;
    }
    let mut end: usize = off;
    while end < limit && bytes[end] != 0
        invariant
            off <= end <= limit <= bytes@.len(),
            c_string_end(bytes@, off as int, limit as int) == c_string_end(
                bytes@,
                end as int,
                limit as int,
            ),
        decreases limit - end,
    {
        end = end + 1;
    }
    if end <= off {
        return None;
    }
    match core::str::from_utf8(slice_subrange(bytes, off, end)) {
        Ok(s) => Some(s.to_owned()),
        Err(_) => None,
    }
}

/// The symbol entry at `base`, or `None` where the entry is to be skipped: its
/// name index or its section index is zero, or it has no readable name in the
/// string table.
pub open spec fn entry_at(img: Seq<u8>, base: int, t: Layout) -> Option<SymbolRow> {
    let name = c_string(img, t.strtab + le_u32(img, base), t.str_end);
    if le_u32(img, base) == 0 || le_u16(img, base + 6) == 0 || name is None {
        None
    } else {
        Some(
            SymbolRow {
                name: name->0,
                value: le_u64(img, base + 8) as u64,
                st_type: (img[base + 4] % 16) as u8,
                st_bind: (img[base + 4] / 16) as u8,
                size: le_u64(img, base + 16) as u64,
                shndx: le_u16(img, base + 6) as u16,
            },
        )
    }
}

/// Number of entries in the symbol table.
pub open spec fn entry_count(t: Layout) -> int {
    (t.strtab - t.symtab) / 24
}

/// The rows of the first `n` entries of the symbol table, in table order.
pub open spec fn table_rows(img: Seq<u8>, t: Layout, n: int) -> Seq<SymbolRow>
    decreases n,
{
    if n <= 0 {
        Seq::empty()
    } else {
        let before = table_rows(img, t, n - 1);
        match entry_at(img, t.symtab + 24 * (n - 1), t) {
            Some(row) => before.push(row),
            None => before,
        }
    }
}

/// Reads the symbol entry at `base`.
fn read_entry(img: &[u8], base: usize, t: &TableLayout) -> (r: Option<NroSymbol>)
    requires
        base + 24 <= t.strtab < t.str_end <= img@.len(),
    ensures
        r is Some <==> entry_at(img@, base as int, t@) is Some,
        r matches Some(s) ==> s@ == entry_at(img@, base as int, t@)->0,
{
    let name_idx: u32 = match read_u32_le(img, base) {
        Some(v) => v,
        None => 0,
    };
    if name_idx == 0 {
        return None;
    }
    let info: u8 = img[base + 4];
    let shndx: u16 = match read_u16_le(img, base + 6) {
        Some(v) => v,
        None => 0,
    };
    let value: u64 = match read_u64_le(img, base + 8) {
        Some(v) => v,
        None => 0,
    };
    let size: u64 = match read_u64_le(img, base + 16) {
        Some(v) => v,
        None => 0,
    };
    if shndx == 0 {
        return None;
    }
    if name_idx as u64 >= (t.str_end - t.strtab) as u64 {
        return None;
    }
    match cstr_at(img, t.strtab + name_idx as usize, t.str_end) {
        Some(name) => Some(
            NroSymbol { name, value, st_type: info % 16, st_bind: info / 16, size, shndx },
        ),
        None => None,
    }
}

/// Reads the whole symbol table, in table order.
fn read_rows(img: &[u8], t: &TableLayout) -> (out: Vec<NroSymbol>)
    requires
        t.symtab < t.strtab < t.str_end <= img@.len(),
    ensures
        rows_of(out@) == table_rows(img@, t@, entry_count(t@)),
{
    let count: usize = (t.strtab - t.symtab) / ENTRY_LEN;
    let mut out: Vec<NroSymbol> = Vec::new();
    let mut i: usize = 0;
    assert(rows_of(out@) =~= table_rows(img@, t@, 0));
    while i < count
        invariant
            i <= count,
            count == entry_count(t@),
            t.symtab < t.strtab < t.str_end <= img@.len(),
            rows_of(out@) == table_rows(img@, t@, i as int),
        decreases count - i,
    {
        let base: usize = t.symtab + i * ENTRY_LEN;
        let ghost before = out@;
        match read_entry(img, base, t) {
            Some(sym) => {
                out.push(sym);
                assert(rows_of(out@) =~= rows_of(before).push(sym@));
            },
            None => {},
        }
        i = i + 1;
    }
    out
}

/// Whether `a` sorts strictly before `b`: by address, then by name (as
/// UTF-8 bytes), then by section index.
pub open spec fn row_before(a: SymbolRow, b: SymbolRow) -> bool {
    let by_name = text_order(a.name, b.name);
    a.value < b.value || (a.value == b.value && (by_name < 0 || (by_name == 0 && a.shndx
        < b.shndx)))
}

/// `x` put into the ascending sequence `s`, before the first row that does
/// not sort strictly before it.
pub open spec fn insert_row(x: SymbolRow, s: Seq<SymbolRow>) -> Seq<SymbolRow>
    decreases s.len(),
{
    if s.len() == 0 {
        seq![x]
    } else if !row_before(s[0], x) {
        seq![x] + s
    } else {
        seq![s[0]] + insert_row(x, s.drop_first())
    }
}

/// The rows in ascending order; rows that sort alike keep the order in which
/// they stand in `s`.
pub open spec fn sort_rows(s: Seq<SymbolRow>) -> Seq<SymbolRow>
    decreases s.len(),
{
    if s.len() == 0 {
        Seq::empty()
    } else {
        insert_row(s[0], sort_rows(s.drop_first()))
    }
}

/// Whether `a` sorts strictly before `b`.
fn sorts_before(a: &NroSymbol, b: &NroSymbol) -> (r: bool)
    ensures
        r == row_before(a@, b@),
{
    if a.value != b.value {
        return a.value < b.value;
    }
    match order_strs(a.name.as_str(), b.name.as_str()) {
        Order::Before => true,
        Order::After => false,
        Order::Same => a.shndx < b.shndx,
    }
}

/// Inserting at the first place whose row does not sort before `x` is what
/// `insert_row` does.
proof fn lemma_insert_at(x: SymbolRow, s: Seq<SymbolRow>, p: int)
    requires
        0 <= p <= s.len(),
        forall|j: int| 0 <= j < p ==> row_before(#[trigger] s[j], x),
        p < s.len() ==> !row_before(s[p], x),
    ensures
        insert_row(x, s) == s.insert(p, x),
    decreases s.len(),
{
    if s.len() == 0 {
        assert(s.insert(p, x) =~= seq![x]);
    } else if p == 0 {
        assert(s.insert(0, x) =~= seq![x] + s);
    } else {
        let rest = s.drop_first();
        assert forall|j: int| 0 <= j < p - 1 implies row_before(#[trigger] rest[j], x) by {
            assert(rest[j] == s[j + 1]);
        }
        lemma_insert_at(x, rest, p - 1);
        assert(s.insert(p, x) =~= seq![s[0]] + rest.insert(p - 1, x));
    }
}

/// Sorts symbols by address, name and section index, keeping the order of
/// those that sort alike.
pub fn sort_symbols(rows: Vec<NroSymbol>) -> (out: Vec<NroSymbol>)
    ensures
        rows_of(out@) == sort_rows(rows_of(rows@)),
{
    let mut rest = rows;
    let mut out: Vec<NroSymbol> = Vec::new();
    let ghost all = rest@;
    assert(rows_of(all).skip(all.len() as int) =~= Seq::<SymbolRow>::empty());
    assert(rows_of(out@) =~= Seq::<SymbolRow>::empty());
    while rest.len() > 0
        invariant
            rest@ == all.take(rest@.len() as int),
            rest@.len() <= all.len(),
            rows_of(out@) == sort_rows(rows_of(all).skip(rest@.len() as int)),
        decreases rest@.len(),
    {
        let ghost k = rest@.len() - 1;
        let x = match rest.pop() {
            Some(x) => x,
            None => {
                return out;
            },
        };
        assert(rest@ =~= all.take(k));
        assert(x == all[k]);
        let mut p: usize = 0;
        while p < out.len() && sorts_before(&out[p], &x)
            invariant
                p <= out@.len(),
                forall|j: int| 0 <= j < p ==> row_before(#[trigger] rows_of(out@)[j], x@),
            decreases out@.len() - p,
        {
            p = p + 1;
        }
        proof {
            let tail = rows_of(all).skip(k + 1);
            lemma_insert_at(x@, rows_of(out@), p as int);
            assert(rows_of(all).skip(k)[0] == x@);
            assert(rows_of(all).skip(k).drop_first() =~= tail);
        }
        let ghost before = out@;
        out.insert(p, x);
        assert(rows_of(out@) =~= rows_of(before).insert(p as int, x@));
    }
    assert(rows_of(all).skip(0) =~= rows_of(all));
    out
}

/// The symbols that an image file defines, sorted by address, name and
/// section index. Anything that is not a well-formed image has none.
pub open spec fn image_symbols(file: Seq<u8>) -> Seq<SymbolRow> {
    if !header_ok(file) {
        Seq::empty()
    } else {
        match tables(flat_image(file)) {
            None => Seq::empty(),
            Some(t) => sort_rows(table_rows(flat_image(file), t, entry_count(t))),
        }
    }
}

/// Decodes the symbol table of a module image. Malformed input of any kind
/// gives an empty table.
pub fn parse_nro_symbols(data: &[u8]) -> (out: Vec<NroSymbol>)
    ensures
        rows_of(out@) == image_symbols(data@),
{
    let full: Vec<u8> = match flatten_image(data) {
        Some(img) => img,
        None => {
            let out: Vec<NroSymbol> = Vec::new();
            assert(rows_of(out@) =~= Seq::<SymbolRow>::empty());
            return out;
        },
    };
    let t: TableLayout = match locate_tables(full.as_slice()) {
        Some(t) => t,
        None => {
            let out: Vec<NroSymbol> = Vec::new();
            assert(rows_of(out@) =~= Seq::<SymbolRow>::empty());
            return out;
        },
    };
    sort_symbols(read_rows(full.as_slice(), &t))
}

/// The names of a list of rows.
pub open spec fn names_of(rows: Seq<SymbolRow>) -> Seq<Seq<char>> {
    rows.map_values(|r: SymbolRow| r.name)
}

/// The distinct names of the symbols that an image defines, in the order of
/// the sorted table.
pub fn parse_nro_exports(data: &[u8]) -> (names: Vec<String>)
    ensures
        texts(names@) == first_appearances(names_of(image_symbols(data@))),
{
    let rows = parse_nro_symbols(data);
    let mut names: Vec<String> = Vec::new();
    let mut i: usize = 0;
    assert(names_of(rows_of(rows@)).take(0) =~= Seq::<Seq<char>>::empty());
    assert(texts(names@) =~= Seq::<Seq<char>>::empty());
    while i < rows.len()
        invariant
            i <= rows@.len(),
            texts(names@) == first_appearances(names_of(rows_of(rows@)).take(i as int)),
        decreases rows@.len() - i,
    {
        let ghost all = names_of(rows_of(rows@));
        assert(all.take(i + 1).drop_last() =~= all.take(i as int));
        assert(all.take(i + 1).last() == rows@[i as int].name@);
        push_unique(&mut names, rows[i].name.clone());
        i = i + 1;
    }
    assert(names_of(rows_of(rows@)).take(rows@.len() as int) =~= names_of(rows_of(rows@)));
    names
}

/// Decoding depends on the bytes alone: equal input gives equal symbols, in
/// equal order.
pub proof fn lemma_decoding_is_deterministic(a: Seq<u8>, b: Seq<u8>)
    requires
        a == b,
    ensures
        image_symbols(a) == image_symbols(b),
{
}

/// No row sorts before itself, and of two rows at most one sorts before the other.
pub proof fn lemma_row_order_asymmetric(a: SymbolRow, b: SymbolRow)
    ensures
        row_before(a, b) ==> !row_before(b, a),
{
    lemma_lex_order_flip(encode_utf8(a.name), encode_utf8(b.name));
}

/// Where `b` does not sort before `a` and `c` does not sort before `b`, `c`
/// does not sort before `a`.
pub proof fn lemma_row_order_transitive(a: SymbolRow, b: SymbolRow, c: SymbolRow)
    requires
        !row_before(b, a),
        !row_before(c, b),
    ensures
        !row_before(c, a),
{
    let an = encode_utf8(a.name);
    let bn = encode_utf8(b.name);
    let cn = encode_utf8(c.name);
    lemma_lex_order_flip(bn, an);
    lemma_lex_order_flip(cn, bn);
    lemma_lex_order_flip(cn, an);
    if a.value == b.value && b.value == c.value {
        lemma_lex_order_trans(an, bn, cn);
    }
}

/// Whether no row of `s` sorts before a row that stands earlier in `s`.
pub open spec fn is_sorted(s: Seq<SymbolRow>) -> bool {
    forall|i: int, j: int| 0 <= i < j < s.len() ==> !row_before(#[trigger] s[j], #[trigger] s[i])
}

/// Whether no row of `s` sorts before `bound`.
pub open spec fn all_at_least(s: Seq<SymbolRow>, bound: SymbolRow) -> bool {
    forall|j: int| 0 <= j < s.len() ==> !row_before(#[trigger] s[j], bound)
}

/// Inserting a row that does not sort before `bound` into rows that do not
/// either gives rows that do not either.
proof fn lemma_insert_keeps_bound(x: SymbolRow, s: Seq<SymbolRow>, bound: SymbolRow)
    requires
        !row_before(x, bound),
        all_at_least(s, bound),
    ensures
        all_at_least(insert_row(x, s), bound),
    decreases s.len(),
{
    let r = insert_row(x, s);
    if s.len() == 0 {
    } else if !row_before(s[0], x) {
        assert forall|j: int| 0 <= j < r.len() implies !row_before(#[trigger] r[j], bound) by {
            if j > 0 {
                assert(r[j] == s[j - 1]);
            }
        }
    } else {
        let rest = s.drop_first();
        assert forall|j: int| 0 <= j < rest.len() implies !row_before(#[trigger] rest[j], bound) by {
            assert(rest[j] == s[j + 1]);
        }
        lemma_insert_keeps_bound(x, rest, bound);
        let ins = insert_row(x, rest);
        assert forall|j: int| 0 <= j < r.len() implies !row_before(#[trigger] r[j], bound) by {
            if j > 0 {
                assert(r[j] == ins[j - 1]);
            } else {
                assert(r[0] == s[0]);
            }
        }
    }
}

/// Inserting into sorted rows gives sorted rows.
proof fn lemma_insert_keeps_sorted(x: SymbolRow, s: Seq<SymbolRow>)
    requires
        is_sorted(s),
    ensures
        is_sorted(insert_row(x, s)),
    decreases s.len(),
{
    let r = insert_row(x, s);
    if s.len() == 0 {
    } else if !row_before(s[0], x) {
        assert forall|i: int, j: int| 0 <= i < j < r.len() implies !row_before(
            #[trigger] r[j],
            #[trigger] r[i],
        ) by {
            assert(r[j] == s[j - 1]);
            if i == 0 {
                assert(r[0] == x);
                if j - 1 > 0 {
                    assert(!row_before(s[j - 1], s[0]));
                    lemma_row_order_transitive(x, s[0], s[j - 1]);
                }
            } else {
                assert(r[i] == s[i - 1]);
            }
        }
    } else {
        let rest = s.drop_first();
        assert forall|i: int, j: int| 0 <= i < j < rest.len() implies !row_before(
            #[trigger] rest[j],
            #[trigger] rest[i],
        ) by {
            assert(rest[i] == s[i + 1] && rest[j] == s[j + 1]);
        }
        lemma_insert_keeps_sorted(x, rest);
        assert forall|j: int| 0 <= j < rest.len() implies !row_before(#[trigger] rest[j], s[0]) by {
            assert(rest[j] == s[j + 1]);
        }
        lemma_row_order_asymmetric(s[0], x);
        lemma_insert_keeps_bound(x, rest, s[0]);
        let ins = insert_row(x, rest);
        assert forall|i: int, j: int| 0 <= i < j < r.len() implies !row_before(
            #[trigger] r[j],
            #[trigger] r[i],
        ) by {
            assert(r[j] == ins[j - 1]);
            if i == 0 {
                assert(r[0] == s[0]);
            } else {
                assert(r[i] == ins[i - 1]);
            }
        }
    }
}

/// What `sort_rows` gives is sorted: by address, then by name, then by
/// section index.
pub proof fn lemma_sort_rows_is_sorted(s: Seq<SymbolRow>)
    ensures
        is_sorted(sort_rows(s)),
    decreases s.len(),
{
    if s.len() > 0 {
        lemma_sort_rows_is_sorted(s.drop_first());
        lemma_insert_keeps_sorted(s[0], sort_rows(s.drop_first()));
    }
}

/// Where `insert_row` puts a row.
spec fn insert_place(x: SymbolRow, s: Seq<SymbolRow>) -> int
    decreases s.len(),
{
    if s.len() == 0 || !row_before(s[0], x) {
        0
    } else {
        1 + insert_place(x, s.drop_first())
    }
}

/// `insert_row` adds the row and changes nothing else.
proof fn lemma_insert_row_adds(x: SymbolRow, s: Seq<SymbolRow>)
    ensures
        0 <= insert_place(x, s) <= s.len(),
        insert_row(x, s) == s.insert(insert_place(x, s), x),
        insert_row(x, s).to_multiset() == s.to_multiset().insert(x),
    decreases s.len(),
{
    let p = insert_place(x, s);
    if s.len() == 0 {
        assert(s.insert(0, x) =~= seq![x]);
    } else if !row_before(s[0], x) {
        assert(s.insert(0, x) =~= seq![x] + s);
    } else {
        lemma_insert_row_adds(x, s.drop_first());
        assert(s.insert(p, x) =~= seq![s[0]] + s.drop_first().insert(p - 1, x));
    }
    let r = s.insert(p, x);
    r.to_multiset_ensures();
    assert(r.remove(p) =~= s);
    assert(r[p] == x);
    assert(r.to_multiset() =~= s.to_multiset().insert(x)) by {
        broadcast use vstd::multiset::group_multiset_axioms;

        assert(r.contains(x));
    }
}

/// Sorting keeps every row, as often as it stands in the table.
pub proof fn lemma_sort_rows_permutes(s: Seq<SymbolRow>)
    ensures
        sort_rows(s).to_multiset() == s.to_multiset(),
    decreases s.len(),
{
    if s.len() == 0 {
        assert(sort_rows(s) =~= s);
    } else {
        let rest = s.drop_first();
        lemma_sort_rows_permutes(rest);
        lemma_insert_row_adds(s[0], sort_rows(rest));
        s.to_multiset_ensures();
        assert(s.remove(0) =~= rest);
        assert(s.to_multiset() =~= rest.to_multiset().insert(s[0])) by {
            broadcast use vstd::multiset::group_multiset_axioms;

            assert(s.contains(s[0]));
        }
    }
}

/// Whether the string table holds `name` at index `idx`: the name's UTF-8
/// bytes, not empty and without a zero byte, stand there inside the table,
/// and a zero byte or the table's end follows them.
pub open spec fn holds_name(img: Seq<u8>, t: Layout, idx: int, name: Seq<char>) -> bool {
    let bytes = encode_utf8(name);
    let at = t.strtab + idx;
    &&& idx > 0
    &&& bytes.len() > 0
    &&& at + bytes.len() <= t.str_end
    &&& img.subrange(at, at + bytes.len()) == bytes
    &&& forall|k: int| 0 <= k < bytes.len() ==> #[trigger] bytes[k] != 0u8
    &&& (at + bytes.len() == t.str_end || img[at + bytes.len()] == 0u8)
}

/// Whether the 24 bytes at `base` are the table entry of `row`: name index,
/// combined type and binding byte (type in the low four bits, binding in
/// the high four), a byte that is not read, section index, address, size.
pub open spec fn encodes_row(img: Seq<u8>, t: Layout, base: int, row: SymbolRow) -> bool {
    &&& holds_name(img, t, le_u32(img, base), row.name)
    &&& row.st_type < 16
    &&& row.st_bind < 16
    &&& img[base + 4] == row.st_type + 16 * row.st_bind
    &&& row.shndx != 0
    &&& le_u16(img, base + 6) == row.shndx
    &&& le_u64(img, base + 8) == row.value
    &&& le_u64(img, base + 16) == row.size
}

/// Whether the 24 bytes at `base` are what `slot` says: the entry of a row,
/// or an entry that defines nothing (its name index or its section index
/// is zero).
pub open spec fn encodes_slot(img: Seq<u8>, t: Layout, base: int, slot: Option<SymbolRow>) -> bool {
    match slot {
        Some(row) => encodes_row(img, t, base, row),
        None => le_u32(img, base) == 0 || le_u16(img, base + 6) == 0,
    }
}

/// Whether the symbol table of `img` encodes `slots`, entry by entry, and
/// has no further entry.
pub open spec fn encodes_table(img: Seq<u8>, t: Layout, slots: Seq<Option<SymbolRow>>) -> bool {
    &&& 0 <= t.symtab < t.strtab < t.str_end <= img.len()
    &&& entry_count(t) == slots.len()
    &&& forall|i: int|
        0 <= i < slots.len() ==> encodes_slot(img, t, t.symtab + 24 * i, #[trigger] slots[i])
}

/// The rows among `slots`, in order.
pub open spec fn defined_rows(slots: Seq<Option<SymbolRow>>) -> Seq<SymbolRow>
    decreases slots.len(),
{
    if slots.len() == 0 {
        Seq::empty()
    } else {
        match slots.last() {
            Some(row) => defined_rows(slots.drop_last()).push(row),
            None => defined_rows(slots.drop_last()),
        }
    }
}

/// Where no zero byte stands from `p` up to `e`, and `e` is the limit or
/// holds a zero byte, the text that starts at `p` ends at `e`.
proof fn lemma_c_string_ends(b: Seq<u8>, p: int, e: int, limit: int)
    requires
        0 <= p <= e <= limit <= b.len(),
        forall|k: int| p <= k < e ==> #[trigger] b[k] != 0u8,
        e == limit || b[e] == 0u8,
    ensures
        c_string_end(b, p, limit) == e,
    decreases e - p,
{
    if p < e {
        assert(b[p] != 0u8);
        lemma_c_string_ends(b, p + 1, e, limit);
    }
}

/// A name that the string table holds is read back as it is.
pub proof fn lemma_name_reads_back(img: Seq<u8>, t: Layout, idx: int, name: Seq<char>)
    requires
        0 <= t.strtab < t.str_end <= img.len(),
        holds_name(img, t, idx, name),
    ensures
        c_string(img, t.strtab + idx, t.str_end) == Some(name),
{
    let bytes = encode_utf8(name);
    let at = t.strtab + idx;
    let e = at + bytes.len();
    assert forall|k: int| at <= k < e implies #[trigger] img[k] != 0u8 by {
        assert(img.subrange(at, e)[k - at] == img[k]);
        assert(bytes[k - at] != 0u8);
    }
    lemma_c_string_ends(img, at, e, t.str_end);
    encode_utf8_valid_utf8(name);
    encode_utf8_decode_utf8(name);
}

/// A table entry that encodes a row is read back as that row; an entry that
/// defines nothing is read as nothing.
pub proof fn lemma_slot_reads_back(img: Seq<u8>, t: Layout, base: int, slot: Option<SymbolRow>)
    requires
        0 <= t.strtab < t.str_end <= img.len(),
        encodes_slot(img, t, base, slot),
    ensures
        entry_at(img, base, t) == slot,
{
    match slot {
        Some(row) => {
            lemma_name_reads_back(img, t, le_u32(img, base), row.name);
            let info = img[base + 4];
            assert(info % 16 == row.st_type && info / 16 == row.st_bind);
        },
        None => {},
    }
}

/// The first `n` entries of a table that encodes `slots` are read back as
/// the rows among the first `n` slots.
proof fn lemma_rows_read_back(img: Seq<u8>, t: Layout, slots: Seq<Option<SymbolRow>>, n: int)
    requires
        encodes_table(img, t, slots),
        0 <= n <= slots.len(),
    ensures
        table_rows(img, t, n) == defined_rows(slots.take(n)),
    decreases n,
{
    if n > 0 {
        lemma_rows_read_back(img, t, slots, n - 1);
        lemma_slot_reads_back(img, t, t.symtab + 24 * (n - 1), slots[n - 1]);
        assert(slots.take(n).drop_last() =~= slots.take(n - 1));
        assert(slots.take(n).last() == slots[n - 1]);
    } else {
        assert(slots.take(0) =~= Seq::<Option<SymbolRow>>::empty());
    }
}

/// A dynamic table that gives the string table's offset, the string
/// table's size and the symbol table's offset, in this order, and then
/// ends, locates the tables where it says, given that the string table is
/// not empty and lies inside the image behind the start of the symbol table.
pub proof fn lemma_tables_are_located(img: Seq<u8>, strtab: int, strsz: int, symtab: int)
    requires
        dynamic_offset(img) is Some,
        dynamic_offset(img)->0 + 64 <= img.len(),
        ({
            let d = dynamic_offset(img)->0;
            &&& le_u64(img, d) == DT_STRTAB && le_u64(img, d + 8) == strtab
            &&& le_u64(img, d + 16) == DT_STRSZ && le_u64(img, d + 24) == strsz
            &&& le_u64(img, d + 32) == DT_SYMTAB && le_u64(img, d + 40) == symtab
            &&& le_u64(img, d + 48) == DT_NULL
        }),
        strsz != 0,
        0 <= symtab < strtab < img.len(),
    ensures
        tables(img) == Some(
            Layout { symtab, strtab, str_end: min_of(strtab + strsz, img.len() as int) },
        ),
{
    let d = dynamic_offset(img)->0;
    assert(d >= 0);
    assert(0 <= le_u64(img, d + 8) < 0x1_0000_0000_0000_0000);
    assert(0 <= le_u64(img, d + 24) < 0x1_0000_0000_0000_0000);
    assert(0 <= le_u64(img, d + 40) < 0x1_0000_0000_0000_0000);
    assert(dyn_value(img, d + 48, DT_STRTAB) is None);
    assert(dyn_value(img, d + 48, DT_STRSZ) is None);
    assert(dyn_value(img, d + 48, DT_SYMTAB) is None);
    assert(dyn_value(img, d + 32, DT_STRTAB) is None);
    assert(dyn_value(img, d + 32, DT_STRSZ) is None);
    assert(dyn_value(img, d + 32, DT_SYMTAB) == Some(symtab as u64));
    assert(dyn_value(img, d + 16, DT_STRTAB) is None);
    assert(dyn_value(img, d + 16, DT_STRSZ) == Some(strsz as u64));
    assert(dyn_value(img, d + 16, DT_SYMTAB) == Some(symtab as u64));
    assert(dyn_value(img, d, DT_STRTAB) == Some(strtab as u64));
    assert(dyn_value(img, d, DT_STRSZ) == Some(strsz as u64));
    assert(dyn_value(img, d, DT_SYMTAB) == Some(symtab as u64));
}

/// Decoding reads back what an image encodes. For every file with a valid
/// header whose flattened image locates its tables, and whose symbol table
/// encodes the entries `slots` in whatever order: the symbols decoded are
/// exactly the rows among the entries, each as often as it is encoded and
/// with every field as encoded, arranged by address, name and section index.
pub proof fn lemma_image_round_trip(file: Seq<u8>, slots: Seq<Option<SymbolRow>>)
    requires
        header_ok(file),
        tables(flat_image(file)) is Some,
        encodes_table(flat_image(file), tables(flat_image(file))->0, slots),
    ensures
        image_symbols(file) == sort_rows(defined_rows(slots)),
        is_sorted(image_symbols(file)),
        image_symbols(file).to_multiset() == defined_rows(slots).to_multiset(),
{
    let img = flat_image(file);
    let t = tables(img)->0;
    lemma_rows_read_back(img, t, slots, slots.len() as int);
    assert(slots.take(slots.len() as int) =~= slots);
    lemma_sort_rows_is_sorted(defined_rows(slots));
    lemma_sort_rows_permutes(defined_rows(slots));
}

} // verus!
