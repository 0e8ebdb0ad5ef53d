use symbaker::dump::{parse_nm_symbols, parse_objdump_exports};
use symbaker::duplicates::find_duplicate_symbols;
use symbaker::extract::{
    after_probe, after_read, after_run, companion_failure, companion_names, first_step,
    extraction_failure, has_nro_extension, is_companion, is_image_extension, needs_companion, newest,
    settle, Next, Step, ToolRun,
};

const NOTHING: &str = "could not extract exported symbols from artifact (nm/objdump/nro parser found nothing)";

fn strings(v: &[&str]) -> Vec<String> {
    v.iter().map(|s| s.to_string()).collect()
}

#[test]
fn nm_output_gives_last_words_without_repeats() {
    let text = "0000000000001000 T alpha\n0000000000002000 D beta\r\n                 U other\n\n   \n0000000000001000 T alpha\nlone";
    assert_eq!(parse_nm_symbols(text), strings(&["alpha", "beta", "other", "lone"]));
    assert!(parse_nm_symbols("").is_empty());
    assert!(parse_nm_symbols("\n \t\n").is_empty());
}

#[test]
fn objdump_export_table_rows() {
    let text = "Export Table:\n DLL name: x.dll\n Ordinal      RVA  Name\n       1   0x1000  alpha\n       2   0x2000  beta extra\n  junk line here\n       1   0x1000  alpha\n 3 1000 gamma\n x 0x1 delta\n 4 0x4\n";
    assert_eq!(parse_objdump_exports(text), strings(&["alpha", "beta"]));
    assert!(parse_objdump_exports("").is_empty());
}

#[test]
fn duplicates_across_three_artifacts() {
    let rows = vec![
        ("A".to_string(), strings(&["s1", "s2"])),
        ("B".to_string(), strings(&["s2"])),
        ("C".to_string(), strings(&["s1", "s3"])),
    ];
    assert_eq!(
        find_duplicate_symbols(&rows),
        vec![("s1".to_string(), strings(&["A", "C"])), ("s2".to_string(), strings(&["A", "B"]))]
    );
}

#[test]
fn duplicates_are_sorted_and_ignore_repeats_within_an_artifact() {
    let rows = vec![
        ("z.nro".to_string(), strings(&["b", "a", "b", "only_z"])),
        ("m.nro".to_string(), strings(&["b"])),
        ("a.nro".to_string(), strings(&["a", "b"])),
        ("solo.nro".to_string(), strings(&["x", "x", "x"])),
    ];
    assert_eq!(
        find_duplicate_symbols(&rows),
        vec![
            ("a".to_string(), strings(&["a.nro", "z.nro"])),
            ("b".to_string(), strings(&["a.nro", "m.nro", "z.nro"])),
        ]
    );
    assert!(find_duplicate_symbols(&Vec::new()).is_empty());
}

#[test]
fn one_path_listed_twice_is_one_owner() {
    let rows = vec![("a".to_string(), strings(&["s"])), ("a".to_string(), strings(&["s"]))];
    assert!(find_duplicate_symbols(&rows).is_empty());
}

#[test]
fn extensions() {
    assert!(has_nro_extension(Some("nro")));
    assert!(has_nro_extension(Some("NrO")));
    assert!(!has_nro_extension(Some("nso")));
    assert!(!has_nro_extension(Some("")));
    assert!(!has_nro_extension(None));
    assert!(is_image_extension(Some("nro")));
    assert!(!is_image_extension(Some("NRO")));
    assert!(!is_image_extension(None));
}

#[test]
fn chain_starts_with_the_image_or_the_tools() {
    assert_eq!(first_step(true), Step::ReadImage);
    assert_eq!(first_step(false), Step::ProbeNm(0));
}

#[test]
fn chain_after_reading() {
    assert_eq!(after_read(false, Ok(Vec::new())), Next::Do(Step::ProbeNm(0)));
    assert_eq!(after_read(true, Ok(vec![1, 2, 3])), Next::Failed(NOTHING.to_string()));
    assert_eq!(after_read(false, Err("read x.nro: denied".to_string())), Next::Failed("read x.nro: denied".to_string()));
    assert_eq!(after_read(true, Err("gone".to_string())), Next::Failed("gone".to_string()));
}

#[test]
fn chain_after_probes() {
    assert_eq!(after_probe(Step::ProbeNm(0), true, false), Next::Do(Step::RunNm(0, 0)));
    assert_eq!(after_probe(Step::ProbeNm(2), true, true), Next::Do(Step::RunNm(2, 0)));
    assert_eq!(after_probe(Step::ProbeNm(0), false, false), Next::Do(Step::ProbeNm(1)));
    assert_eq!(after_probe(Step::ProbeNm(3), false, false), Next::Do(Step::ProbeObjdump(0)));
    assert_eq!(after_probe(Step::ProbeObjdump(0), true, false), Next::Do(Step::RunObjdump(0)));
    assert_eq!(after_probe(Step::ProbeObjdump(0), false, false), Next::Do(Step::ProbeObjdump(1)));
    assert_eq!(after_probe(Step::ProbeObjdump(1), false, true), Next::Do(Step::ReadImageAgain));
    assert_eq!(after_probe(Step::ProbeObjdump(1), false, false), Next::Failed(NOTHING.to_string()));
}

#[test]
fn chain_after_tool_runs() {
    let printed = ToolRun::Printed("0000 T alpha\n0001 T beta\n".to_string());
    assert_eq!(after_run(Step::RunNm(1, 0), printed, false), Next::Found(strings(&["alpha", "beta"])));
    assert_eq!(after_run(Step::RunNm(1, 0), ToolRun::Printed(String::new()), false), Next::Do(Step::RunNm(1, 1)));
    assert_eq!(after_run(Step::RunNm(1, 2), ToolRun::Failed, false), Next::Do(Step::RunNm(1, 3)));
    assert_eq!(after_run(Step::RunNm(1, 3), ToolRun::Failed, true), Next::Do(Step::ProbeObjdump(0)));
    assert_eq!(
        after_run(Step::RunNm(1, 0), ToolRun::NotStarted("boom".to_string()), false),
        Next::Failed("failed to run nm: boom".to_string())
    );
    assert_eq!(
        after_run(Step::RunNm(3, 0), ToolRun::NotStarted("boom".to_string()), false),
        Next::Failed("failed to run aarch64-none-elf-nm: boom".to_string())
    );
    let table = ToolRun::Printed(" 1 0x10 alpha\n".to_string());
    assert_eq!(after_run(Step::RunObjdump(0), table, true), Next::Found(strings(&["alpha"])));
    assert_eq!(after_run(Step::RunObjdump(1), ToolRun::Failed, true), Next::Do(Step::ReadImageAgain));
    assert_eq!(after_run(Step::RunObjdump(1), ToolRun::Printed("x".to_string()), false), Next::Failed(NOTHING.to_string()));
    assert_eq!(
        after_run(Step::RunObjdump(0), ToolRun::NotStarted("boom".to_string()), true),
        Next::Failed("failed to run objdump: boom".to_string())
    );
}

#[test]
fn steps_name_their_tools_and_arguments() {
    assert_eq!(Step::ProbeNm(0).tool(), "llvm-nm");
    assert_eq!(Step::ProbeNm(1).tool(), "nm");
    assert_eq!(Step::RunNm(2, 0).tool(), "rust-nm");
    assert_eq!(Step::RunNm(3, 0).tool(), "aarch64-none-elf-nm");
    assert_eq!(Step::ProbeObjdump(0).tool(), "llvm-objdump");
    assert_eq!(Step::RunObjdump(1).tool(), "objdump");
    assert_eq!(Step::ReadImage.tool(), "");
    assert_eq!(Step::ProbeNm(0).arguments(), strings(&["--version"]));
    assert_eq!(Step::RunNm(0, 0).arguments(), strings(&["-g", "--defined-only"]));
    assert_eq!(Step::RunNm(0, 1).arguments(), strings(&["-D", "--defined-only"]));
    assert_eq!(Step::RunNm(0, 2).arguments(), strings(&["-gD"]));
    assert_eq!(Step::RunNm(0, 3).arguments(), strings(&["-g"]));
    assert_eq!(Step::RunObjdump(0).arguments(), strings(&["-p"]));
    assert!(Step::ReadImageAgain.arguments().is_empty());
}

#[test]
fn a_driver_reaches_an_end() {
    // No tool can be started and the artifact is no image: the chain gives up.
    let mut step = first_step(false);
    let mut steps = 0;
    let end = loop {
        steps += 1;
        match after_probe(step, false, false) {
            Next::Do(s) => step = s,
            other => break other,
        }
    };
    assert_eq!(end, Next::Failed(NOTHING.to_string()));
    assert_eq!(steps, 6);
}

#[test]
fn companions() {
    assert_eq!(
        companion_names("plugin"),
        strings(&["plugin.nso", "plugin.so", "plugin.elf", "libplugin.nso", "libplugin.so", "libplugin.elf"])
    );
    assert!(is_companion("so", "libplugin", "plugin"));
    assert!(is_companion("dylib", "plugin-abc", "plugin"));
    assert!(is_companion("elf", "liblibplug", "plugin_x"));
    assert!(is_companion("dll", "", "plugin"));
    assert!(!is_companion("nro", "plugin", "plugin"));
    assert!(!is_companion("", "plugin", "plugin"));
    assert!(!is_companion("so", "other", "plugin"));
    assert_eq!(newest(&vec![]), None);
    assert_eq!(newest(&vec![5]), Some(0));
    assert_eq!(newest(&vec![5, 9, 9, 3]), Some(1));
    assert_eq!(
        companion_failure("nothing", "/t/libx.so", "still nothing"),
        "nothing; fallback '/t/libx.so' also failed: still nothing"
    );
}

#[test]
fn companion_is_asked_only_for_a_failed_image() {
    assert!(needs_companion(true, &Err("x".to_string())));
    assert!(!needs_companion(false, &Err("x".to_string())));
    assert!(!needs_companion(true, &Ok(strings(&["s"]))));
    assert_eq!(settle("first", "/t/a.so", Ok(strings(&["s"]))), Ok(strings(&["s"])));
    assert_eq!(
        settle("first", "/t/a.so", Err("second".to_string())),
        Err("first; fallback '/t/a.so' also failed: second".to_string())
    );
}

#[test]
fn a_failure_names_the_artifact_and_the_strategies() {
    assert_eq!(
        extraction_failure("/t/plugin.nro", NOTHING),
        "/t/plugin.nro: could not extract exported symbols from artifact (nm/objdump/nro parser found nothing)"
    );
    assert_eq!(extraction_failure("", "x"), ": x");
}

#[test]
fn owners_come_out_in_the_order_of_their_text() {
    let rows = vec![("a/x".to_string(), strings(&["s"])), ("a.b/x".to_string(), strings(&["s"]))];
    assert_eq!(find_duplicate_symbols(&rows), vec![("s".to_string(), strings(&["a.b/x", "a/x"]))]);
}
