use symbaker::image::NroSymbol;
use symbaker::logs::{
    batch_symbol_log, bind_name, duplicates_log, image_symbol_log, kind_name, names_symbol_log,
    sidecar_body, sidecar_name, SymbolBinding, SymbolKind,
};

fn strings(v: &[&str]) -> Vec<String> {
    v.iter().map(|s| s.to_string()).collect()
}

#[test]
fn kind_and_binding_names() {
    let kinds = ["NOTYPE", "OBJECT", "FUNC", "SECTION", "FILE", "COMMON", "TLS", "UNKNOWN", "UNKNOWN"];
    for (i, k) in kinds.iter().enumerate() {
        assert_eq!(kind_name(i as u8), *k);
    }
    assert_eq!(kind_name(15), "UNKNOWN");
    let binds = ["LOCAL", "GLOBAL", "WEAK", "UNKNOWN"];
    for (i, b) in binds.iter().enumerate() {
        assert_eq!(bind_name(i as u8), *b);
    }
    assert_eq!(SymbolKind::from_type(2), SymbolKind::Function);
    assert_eq!(SymbolKind::from_type(6), SymbolKind::ThreadLocal);
    assert_eq!(SymbolBinding::from_bind(2), SymbolBinding::Weak);
    assert_eq!(SymbolBinding::from_bind(9), SymbolBinding::Unknown);
}

#[test]
fn image_log_lines() {
    let rows = vec![
        NroSymbol { name: "alpha".to_string(), value: 0x1000, st_type: 2, st_bind: 1, size: 4, shndx: 1 },
        NroSymbol { name: "beta".to_string(), value: 0xABCDEF0123456789, st_type: 1, st_bind: 2, size: 0x1F0, shndx: 2 },
        NroSymbol { name: "z".to_string(), value: 0, st_type: 9, st_bind: 7, size: 0, shndx: 3 },
    ];
    assert_eq!(
        image_symbol_log("/t/a.nro", &rows),
        "# symbaker sym.log\n# source=/t/a.nro\n# format: address type bind size name\n0x0000000000001000 FUNC GLOBAL 0x4 alpha\n0xABCDEF0123456789 OBJECT WEAK 0x1F0 beta\n0x0000000000000000 UNKNOWN UNKNOWN 0x0 z\n"
    );
    assert_eq!(
        image_symbol_log("x", &Vec::new()),
        "# symbaker sym.log\n# source=x\n# format: address type bind size name\n"
    );
}

#[test]
fn largest_numbers_in_hexadecimal() {
    let rows = vec![NroSymbol { name: "m".to_string(), value: u64::MAX, st_type: 0, st_bind: 0, size: u64::MAX, shndx: 1 }];
    assert!(image_symbol_log("x", &rows).ends_with("0xFFFFFFFFFFFFFFFF NOTYPE LOCAL 0xFFFFFFFFFFFFFFFF m\n"));
}

#[test]
fn names_log_and_sidecar() {
    assert_eq!(
        names_symbol_log("/t/lib.so", &strings(&["b", "a"])),
        "# symbaker sym.log\n# source=/t/lib.so\n# format: name\nb\na\n"
    );
    assert_eq!(sidecar_body(&strings(&["b", "a", "c"])), "b\na\nc\n");
    assert_eq!(sidecar_body(&Vec::new()), "");
    assert_eq!(sidecar_name("plugin.nro"), "plugin.nro.exports.txt");
    assert_eq!(sidecar_name(""), ".exports.txt");
}

#[test]
fn batch_and_duplicate_logs() {
    let rows = vec![("/t/a.nro".to_string(), strings(&["s1", "s2"])), ("/t/b.nro".to_string(), Vec::new())];
    assert_eq!(
        batch_symbol_log(&rows),
        "# symbaker sym.log\n# format: source=<path> then one symbol per line\n\n# source=/t/a.nro\ns1\ns2\n\n# source=/t/b.nro\n"
    );
    let found = vec![("s1".to_string(), strings(&["/t/a.nro", "/t/c.nro"]))];
    assert_eq!(
        duplicates_log(&found),
        "# symbaker duplicates.log\n# format: symbol followed by files exporting it\n\ns1\n  /t/a.nro\n  /t/c.nro\n"
    );
}
