use symbaker::image::{cstr_at, parse_nro_exports, parse_nro_symbols, read_u16_le, read_u32_le, read_u64_le};

fn put_u32(buf: &mut Vec<u8>, at: usize, v: u32) {
    buf[at..at + 4].copy_from_slice(&v.to_le_bytes());
}

fn put_u64(buf: &mut Vec<u8>, at: usize, v: u64) {
    buf[at..at + 8].copy_from_slice(&v.to_le_bytes());
}

fn put_entry(buf: &mut Vec<u8>, at: usize, name: u32, info: u8, shndx: u16, value: u64, size: u64) {
    put_u32(buf, at, name);
    buf[at + 4] = info;
    buf[at + 6..at + 8].copy_from_slice(&shndx.to_le_bytes());
    put_u64(buf, at + 8, value);
    put_u64(buf, at + 16, size);
}

/// An image whose single segment is the whole file, so that the flattened
/// image is the file itself. `entries` are (name index, info, shndx, value, size).
fn image_with(entries: &[(u32, u8, u16, u64, u64)], strings: &[u8]) -> Vec<u8> {
    let symtab = 0x90usize;
    let strtab = symtab + 24 * entries.len();
    let total = strtab + strings.len();
    let mut buf = vec![0u8; total];
    put_u32(&mut buf, 4, 0x40);
    buf[0x10..0x14].copy_from_slice(b"NRO0");
    put_u32(&mut buf, 0x20, 0);
    put_u32(&mut buf, 0x24, total as u32);
    put_u32(&mut buf, 0x28, total as u32);
    put_u32(&mut buf, 0x2c, 0);
    put_u32(&mut buf, 0x30, total as u32);
    put_u32(&mut buf, 0x34, 0);
    buf[0x40..0x44].copy_from_slice(b"MOD0");
    put_u32(&mut buf, 0x44, 0x10);
    put_u64(&mut buf, 0x50, 5);
    put_u64(&mut buf, 0x58, strtab as u64);
    put_u64(&mut buf, 0x60, 10);
    put_u64(&mut buf, 0x68, strings.len() as u64);
    put_u64(&mut buf, 0x70, 6);
    put_u64(&mut buf, 0x78, symtab as u64);
    for (i, e) in entries.iter().enumerate() {
        put_entry(&mut buf, symtab + 24 * i, e.0, e.1, e.2, e.3, e.4);
    }
    buf[strtab..].copy_from_slice(strings);
    buf
}

fn alpha_beta() -> Vec<u8> {
    image_with(
        &[(0, 0, 0, 0, 0), (7, 0x21, 2, 0x2000, 8), (1, 0x12, 1, 0x1000, 4)],
        b"\0alpha\0beta\0",
    )
}

#[test]
fn parses_two_symbols_sorted_by_address() {
    let rows = parse_nro_symbols(&alpha_beta());
    assert_eq!(rows.len(), 2);
    assert_eq!(rows[0].name, "alpha");
    assert_eq!(rows[0].value, 0x1000);
    assert_eq!(rows[0].st_type, 2);
    assert_eq!(rows[0].st_bind, 1);
    assert_eq!(rows[0].size, 4);
    assert_eq!(rows[0].shndx, 1);
    assert_eq!(rows[1].name, "beta");
    assert_eq!(rows[1].value, 0x2000);
    assert_eq!(rows[1].st_type, 1);
    assert_eq!(rows[1].st_bind, 2);
    assert_eq!(rows[1].size, 8);
    assert_eq!(rows[1].shndx, 2);
    assert_eq!(rows[0].kind(), symbaker::logs::SymbolKind::Function);
    assert_eq!(rows[0].binding(), symbaker::logs::SymbolBinding::Global);
    assert_eq!(rows[1].kind(), symbaker::logs::SymbolKind::Object);
    assert_eq!(rows[1].binding(), symbaker::logs::SymbolBinding::Weak);
}

#[test]
fn parsing_twice_gives_the_same_rows() {
    let image = alpha_beta();
    let a = parse_nro_symbols(&image);
    let b = parse_nro_symbols(&image);
    assert_eq!(a.len(), b.len());
    for i in 0..a.len() {
        assert_eq!(a[i].name, b[i].name);
        assert_eq!(a[i].value, b[i].value);
        assert_eq!(a[i].shndx, b[i].shndx);
    }
}

#[test]
fn bad_magic_gives_nothing() {
    let mut image = alpha_beta();
    image[0x10] = b'X';
    assert!(parse_nro_symbols(&image).is_empty());
    let mut image = alpha_beta();
    image[0x40] = b'X';
    assert!(parse_nro_symbols(&image).is_empty());
}

#[test]
fn short_or_empty_input_gives_nothing() {
    assert!(parse_nro_symbols(&[]).is_empty());
    assert!(parse_nro_symbols(&[0u8; 0x13]).is_empty());
    let image = alpha_beta();
    assert!(parse_nro_symbols(&image[..0x37]).is_empty());
}

#[test]
fn segment_outside_file_gives_nothing() {
    let mut image = alpha_beta();
    let total = image.len() as u32;
    put_u32(&mut image, 0x24, total + 1);
    assert!(parse_nro_symbols(&image).is_empty());
}

#[test]
fn zero_string_size_gives_nothing() {
    let mut image = alpha_beta();
    put_u64(&mut image, 0x68, 0);
    assert!(parse_nro_symbols(&image).is_empty());
}

#[test]
fn symbol_table_must_precede_string_table() {
    let mut image = alpha_beta();
    let strtab = (0x90 + 72) as u64;
    put_u64(&mut image, 0x78, strtab);
    assert!(parse_nro_symbols(&image).is_empty());
}

#[test]
fn unknown_tags_are_walked_over() {
    let mut image = alpha_beta();
    // Replace the terminator by an unknown tag; the table then runs on into
    // the zero bytes that follow and ends there.
    put_u64(&mut image, 0x80, 0x6fff_fef5);
    put_u64(&mut image, 0x88, 77);
    let rows = parse_nro_symbols(&image);
    // 0x90 now holds the first symbol entry, all zero: a terminator.
    assert_eq!(rows.len(), 2);
}

#[test]
fn undefined_and_unnamed_entries_are_skipped() {
    let image = image_with(
        &[(1, 0x12, 0, 0x10, 1), (0, 0x12, 1, 0x20, 1), (1, 0x12, 3, 0x30, 1)],
        b"\0alpha\0",
    );
    let rows = parse_nro_symbols(&image);
    assert_eq!(rows.len(), 1);
    assert_eq!(rows[0].value, 0x30);
    assert_eq!(rows[0].shndx, 3);
}

#[test]
fn equal_addresses_sort_by_name_then_section() {
    let image = image_with(
        &[(7, 0x12, 2, 0x10, 1), (1, 0x12, 5, 0x10, 1), (1, 0x12, 4, 0x10, 1), (7, 0x12, 1, 0x8, 1)],
        b"\0alpha\0beta\0",
    );
    let rows = parse_nro_symbols(&image);
    let got: Vec<(u64, &str, u16)> = rows.iter().map(|r| (r.value, r.name.as_str(), r.shndx)).collect();
    assert_eq!(got, vec![(0x8, "beta", 1), (0x10, "alpha", 4), (0x10, "alpha", 5), (0x10, "beta", 2)]);
}

#[test]
fn exports_are_names_without_repeats() {
    let image = image_with(
        &[(7, 0x12, 2, 0x30, 1), (1, 0x12, 5, 0x10, 1), (7, 0x12, 4, 0x20, 1)],
        b"\0alpha\0beta\0",
    );
    assert_eq!(parse_nro_exports(&image), vec!["alpha".to_string(), "beta".to_string()]);
}

#[test]
fn name_that_is_not_utf8_is_skipped() {
    let image = image_with(&[(1, 0x12, 1, 0x10, 1), (4, 0x12, 1, 0x20, 1)], b"\0\xff\xfe\0ok\0");
    let rows = parse_nro_symbols(&image);
    assert_eq!(rows.len(), 1);
    assert_eq!(rows[0].name, "ok");
}

#[test]
fn little_endian_readers() {
    let b = [0x01u8, 0x02, 0x03, 0x04, 0x05, 0x06, 0x07, 0x08, 0x09];
    assert_eq!(read_u16_le(&b, 0), Some(0x0201));
    assert_eq!(read_u32_le(&b, 1), Some(0x0504_0302));
    assert_eq!(read_u64_le(&b, 1), Some(0x0908_0706_0504_0302));
    assert_eq!(read_u64_le(&b, 2), None);
    assert_eq!(read_u32_le(&b, 6), None);
    assert_eq!(read_u16_le(&b, 8), None);
    assert_eq!(read_u16_le(&b, usize::MAX), None);
}

#[test]
fn c_strings() {
    let b = b"ab\0cd";
    assert_eq!(cstr_at(b, 0, 5), Some("ab".to_string()));
    assert_eq!(cstr_at(b, 3, 5), Some("cd".to_string()));
    assert_eq!(cstr_at(b, 3, 4), Some("c".to_string()));
    assert_eq!(cstr_at(b, 3, 100), Some("cd".to_string()));
    assert_eq!(cstr_at(b, 2, 5), None);
    assert_eq!(cstr_at(b, 5, 5), None);
    assert_eq!(cstr_at(b, 4, 3), None);
}
