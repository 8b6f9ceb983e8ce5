use std::cmp::Ordering;
use test_loader::aggregate::{generate_tracemap, generate_tracer_data, Config, FileAnalysis, LineProgram, Unit};
use test_loader::classify::{classify_linkage_name, classify_name, generate_func_desc, get_entry_points, AttrValue, DebugEntry, FunctionType, LineType, DW_TAG_SUBPROGRAM};
use test_loader::path::{is_build_output, SourcePath};
use test_loader::resolve::{Row, TracerData};

fn path(absolute: bool, parts: &[&str]) -> SourcePath {
    SourcePath::new(absolute, parts.iter().map(|s| s.chars().collect()).collect())
}

fn text(p: &SourcePath) -> String {
    let parts: Vec<String> = p.parts.iter().map(|c| c.iter().collect()).collect();
    format!("{}{}", if p.absolute { "/" } else { "" }, parts.join("/"))
}

fn project() -> SourcePath {
    path(true, &["proj"])
}

fn row(dir: &[&str], file: &str, line: u64, address: u64) -> Row {
    Row {
        dir: path(true, dir),
        file: path(false, &[file]),
        line: Some(line),
        address,
        is_file: true,
    }
}

fn sub(low: u64, high: u64, name: &str) -> DebugEntry {
    DebugEntry {
        tag: DW_TAG_SUBPROGRAM,
        low_pc: Some(AttrValue::Addr(low)),
        high_pc: Some(AttrValue::Udata(high)),
        linkage_name: Some(AttrValue::StrRef(name.to_string())),
    }
}

fn config() -> Config {
    Config { verbose: false, ignore_tests: false, excluded: Vec::new() }
}

fn find<'a>(v: &'a [TracerData], p: &str, line: u64) -> Vec<&'a TracerData> {
    v.iter().filter(|t| text(&t.path) == p && t.line == line).collect()
}

const TEST_FN: &str = "_ZN7mycrate5tests8it_works17h0123456789abcdefE";
const HARNESS_MAIN: &str = "_ZN6__test4main17h0123456789abcdefE";

fn run(units: Vec<Unit>, cfg: &Config, analysis: &Vec<FileAnalysis>) -> Vec<TracerData> {
    generate_tracer_data(&units, &project(), cfg, analysis)
}

#[test]
fn test_function_entry_is_classified() {
    let units = vec![Unit {
        entries: vec![sub(0x1000, 0x40, TEST_FN)],
        program: LineProgram::Rows(vec![row(&["proj", "src"], "foo.rs", 10, 0x1000)]),
    }];
    let r = run(units, &config(), &Vec::new());
    assert_eq!(r.len(), 1);
    let e = find(&r, "/proj/src/foo.rs", 10);
    assert_eq!(e.len(), 1);
    assert_eq!(e[0].address, Some(0x1000));
    assert_eq!(e[0].trace_type, LineType::TestEntry(0x40));
    assert_eq!(e[0].hits, 0);
}

#[test]
fn duplicate_rows_keep_lowest_address() {
    let units = vec![Unit {
        entries: Vec::new(),
        program: LineProgram::Rows(vec![
            row(&["proj", "src"], "bar.rs", 42, 0x2010),
            row(&["proj", "src"], "bar.rs", 42, 0x2000),
        ]),
    }];
    let r = run(units, &config(), &Vec::new());
    assert_eq!(r.len(), 1);
    assert_eq!(r[0].address, Some(0x2000));
    assert_eq!(r[0].trace_type, LineType::Unknown);
}

#[test]
fn duplicates_keep_first_classification() {
    let units = vec![Unit {
        entries: vec![sub(0x3000, 0x10, "_ZN7mycrate3run17h0123456789abcdefE")],
        program: LineProgram::Rows(vec![
            row(&["proj", "src"], "bar.rs", 5, 0x3008),
            row(&["proj", "src"], "bar.rs", 5, 0x3000),
        ]),
    }];
    let r = run(units, &config(), &Vec::new());
    assert_eq!(r.len(), 1);
    assert_eq!(r[0].address, Some(0x3000));
    assert_eq!(r[0].trace_type, LineType::Unknown);
}

#[test]
fn build_output_rows_are_dropped() {
    let units = vec![Unit {
        entries: Vec::new(),
        program: LineProgram::Rows(vec![
            row(&["proj", "target", "debug", "build", "x"], "out.rs", 5, 0x10),
            Row { dir: path(false, &["target", "x"]), file: path(false, &["gen.rs"]), line: Some(1), address: 0x20, is_file: true },
            row(&["other"], "lib.rs", 3, 0x30),
        ]),
    }];
    let r = run(units, &config(), &Vec::new());
    assert!(r.is_empty());
}

#[test]
fn rows_without_line_or_file_are_dropped() {
    let mut missing = row(&["proj", "src"], "gone.rs", 4, 0x40);
    missing.is_file = false;
    let mut no_line = row(&["proj", "src"], "a.rs", 4, 0x50);
    no_line.line = None;
    let units = vec![Unit { entries: Vec::new(), program: LineProgram::Rows(vec![missing, no_line]) }];
    assert!(run(units, &config(), &Vec::new()).is_empty());
}

#[test]
fn coverable_line_without_instructions_is_added() {
    let analysis = vec![FileAnalysis { path: path(true, &["proj", "src", "baz.rs"]), cover: vec![7], ignore: Vec::new() }];
    let r = run(Vec::new(), &config(), &analysis);
    assert_eq!(r.len(), 1);
    assert_eq!(text(&r[0].path), "/proj/src/baz.rs");
    assert_eq!(r[0].line, 7);
    assert_eq!(r[0].address, None);
    assert_eq!(r[0].trace_type, LineType::UnusedGeneric);
    assert_eq!(r[0].hits, 0);
}

#[test]
fn excluded_file_has_no_entries() {
    let units = vec![Unit {
        entries: vec![sub(0x1000, 0x40, TEST_FN)],
        program: LineProgram::Rows(vec![row(&["proj", "src"], "foo.rs", 10, 0x1000)]),
    }];
    let foo = path(true, &["proj", "src", "foo.rs"]);
    let analysis = vec![FileAnalysis { path: path(true, &["proj", "src", "foo.rs"]), cover: vec![10, 11], ignore: Vec::new() }];
    let cfg = Config { verbose: false, ignore_tests: false, excluded: vec![foo] };
    let r = run(units, &cfg, &analysis);
    assert!(r.is_empty());
}

#[test]
fn ignored_tests_directory_is_dropped() {
    let units = vec![Unit {
        entries: Vec::new(),
        program: LineProgram::Rows(vec![row(&["proj", "tests"], "it.rs", 3, 0x10), row(&["proj", "src"], "lib.rs", 3, 0x20)]),
    }];
    let cfg = Config { verbose: false, ignore_tests: true, excluded: Vec::new() };
    let r = run(units, &cfg, &Vec::new());
    assert_eq!(r.len(), 1);
    assert!(find(&r, "/proj/tests/it.rs", 3).is_empty());
    assert_eq!(find(&r, "/proj/src/lib.rs", 3).len(), 1);
}

#[test]
fn tests_directory_kept_without_option() {
    let units = vec![Unit {
        entries: Vec::new(),
        program: LineProgram::Rows(vec![row(&["proj", "tests"], "it.rs", 3, 0x10)]),
    }];
    assert_eq!(run(units, &config(), &Vec::new()).len(), 1);
}

#[test]
fn harness_main_is_never_traced() {
    let units = vec![Unit {
        entries: vec![sub(0x500, 0x8, HARNESS_MAIN)],
        program: LineProgram::Rows(vec![row(&["proj", "src"], "main.rs", 1, 0x500), row(&["proj", "src"], "main.rs", 2, 0x508)]),
    }];
    let r = run(units, &config(), &Vec::new());
    assert_eq!(r.len(), 1);
    assert_eq!(r[0].line, 2);
}

#[test]
fn ignorable_lines_are_dropped_and_not_added() {
    let units = vec![Unit {
        entries: Vec::new(),
        program: LineProgram::Rows(vec![row(&["proj", "src"], "a.rs", 1, 0x10), row(&["proj", "src"], "a.rs", 2, 0x20)]),
    }];
    let analysis = vec![FileAnalysis { path: path(true, &["proj", "src", "a.rs"]), cover: vec![2, 3, 4], ignore: vec![1, 4] }];
    let r = run(units, &config(), &analysis);
    assert_eq!(r.len(), 2);
    assert!(find(&r, "/proj/src/a.rs", 1).is_empty());
    assert_eq!(find(&r, "/proj/src/a.rs", 2)[0].address, Some(0x20));
    assert_eq!(find(&r, "/proj/src/a.rs", 3)[0].address, None);
    assert!(find(&r, "/proj/src/a.rs", 4).is_empty());
}

#[test]
fn unreadable_program_skips_only_its_unit() {
    let units = vec![
        Unit { entries: Vec::new(), program: LineProgram::Unreadable },
        Unit { entries: Vec::new(), program: LineProgram::Rows(vec![row(&["proj", "src"], "a.rs", 1, 0x10)]) },
    ];
    let r = run(units, &config(), &Vec::new());
    assert_eq!(r.len(), 1);
    assert_eq!(r[0].address, Some(0x10));
}

#[test]
fn file_names_leading_into_build_output_are_dropped() {
    let units = vec![Unit {
        entries: Vec::new(),
        program: LineProgram::Rows(vec![
            Row { dir: path(true, &["proj"]), file: path(false, &["target", "debug", "build", "x", "out.rs"]), line: Some(5), address: 0x10, is_file: true },
            Row { dir: path(true, &["proj", "src"]), file: path(true, &["elsewhere", "x.rs"]), line: Some(6), address: 0x20, is_file: true },
            Row { dir: path(true, &["proj"]), file: path(false, &["src", "lib.rs"]), line: Some(7), address: 0x30, is_file: true },
        ]),
    }];
    let r = run(units, &config(), &Vec::new());
    assert_eq!(r.len(), 1);
    assert_eq!(text(&r[0].path), "/proj/src/lib.rs");
}

#[test]
fn any_listing_can_mark_a_line_ignorable() {
    let analysis = vec![
        FileAnalysis { path: path(true, &["proj", "src", "a.rs"]), cover: vec![5, 6], ignore: Vec::new() },
        FileAnalysis { path: path(true, &["proj", "src", "a.rs"]), cover: Vec::new(), ignore: vec![5] },
    ];
    let r = run(Vec::new(), &config(), &analysis);
    assert_eq!(r.len(), 1);
    assert_eq!(r[0].line, 6);
}

#[test]
fn no_debug_info_gives_empty_result() {
    let units = vec![Unit { entries: Vec::new(), program: LineProgram::Absent }];
    assert!(run(units, &config(), &Vec::new()).is_empty());
}

#[test]
fn tracemap_records_are_single_instructions() {
    let units = vec![Unit {
        entries: vec![sub(0x1000, 0x40, "_ZN7mycrate3run17h0123456789abcdefE")],
        program: LineProgram::Rows(vec![row(&["proj", "src"], "foo.rs", 10, 0x1000)]),
    }];
    let t = generate_tracemap(&units, &project(), &config(), &Vec::new());
    assert_eq!(t.len(), 1);
    assert_eq!(text(&t[0].path), "/proj/src/foo.rs");
    assert_eq!(t[0].line, 10);
    assert_eq!(t[0].address, Some(0x1000));
    assert_eq!(t[0].length, 1);
    assert_eq!(t[0].stats, 0);
}

#[test]
fn standard_function_entry() {
    let units = vec![Unit {
        entries: vec![sub(0x1000, 0x40, "_ZN7mycrate3run17h0123456789abcdefE")],
        program: LineProgram::Rows(vec![row(&["proj", "src"], "foo.rs", 10, 0x1000)]),
    }];
    let r = run(units, &config(), &Vec::new());
    assert_eq!(r[0].trace_type, LineType::FunctionEntry(0x40));
}

#[test]
fn names_are_classified_after_demangling() {
    assert_eq!(classify_linkage_name(&TEST_FN.to_string()), FunctionType::Test);
    assert_eq!(classify_linkage_name(&HARNESS_MAIN.to_string()), FunctionType::Generated);
    assert_eq!(classify_linkage_name(&"_ZN7mycrate3run17h0123456789abcdefE".to_string()), FunctionType::Standard);
}

#[test]
fn names_are_classified_by_substring() {
    let c = |s: &str| classify_name(&s.chars().collect());
    assert_eq!(c("a::tests::b"), FunctionType::Test);
    assert_eq!(c("__test::main"), FunctionType::Generated);
    assert_eq!(c("tests::__test::main"), FunctionType::Test);
    assert_eq!(c("a::test::b"), FunctionType::Standard);
    assert_eq!(c(""), FunctionType::Standard);
}

#[test]
fn missing_attributes_default_to_zero() {
    let d = generate_func_desc(&DebugEntry { tag: DW_TAG_SUBPROGRAM, low_pc: None, high_pc: None, linkage_name: None });
    assert_eq!(d.low, 0);
    assert_eq!(d.high, 0);
    assert_eq!(d.kind, FunctionType::Standard);
}

#[test]
fn attributes_of_other_forms_read_as_absent() {
    let d = generate_func_desc(&DebugEntry {
        tag: DW_TAG_SUBPROGRAM,
        low_pc: Some(AttrValue::Udata(0x10)),
        high_pc: Some(AttrValue::Addr(0x20)),
        linkage_name: Some(AttrValue::Other),
    });
    assert_eq!(d.low, 0);
    assert_eq!(d.high, 0);
    assert_eq!(d.kind, FunctionType::Standard);
}

#[test]
fn only_subprogram_entries_describe_functions() {
    let mut variable = sub(0x10, 0x4, TEST_FN);
    variable.tag = 0x34;
    let entries = vec![variable, sub(0x20, 0x8, TEST_FN), sub(0x30, 0x8, "_ZN7mycrate3run17h0123456789abcdefE")];
    let d = get_entry_points(&entries);
    assert_eq!(d.len(), 2);
    assert_eq!((d[0].low, d[0].high, d[0].kind), (0x20, 0x8, FunctionType::Test));
    assert_eq!((d[1].low, d[1].high, d[1].kind), (0x30, 0x8, FunctionType::Standard));
}

#[test]
fn build_output_detection() {
    assert!(is_build_output(&path(false, &["target", "debug"]), &project()));
    assert!(!is_build_output(&path(false, &["src"]), &project()));
    assert!(is_build_output(&path(true, &["proj", "target"]), &project()));
    assert!(!is_build_output(&path(true, &["other", "target"]), &project()));
    assert!(!is_build_output(&path(true, &["proj", "src"]), &project()));
}

#[test]
fn uniqueness_across_units() {
    let units = vec![
        Unit { entries: Vec::new(), program: LineProgram::Rows(vec![row(&["proj", "src"], "a.rs", 1, 0x30)]) },
        Unit { entries: Vec::new(), program: LineProgram::Rows(vec![row(&["proj", "src"], "a.rs", 1, 0x10)]) },
    ];
    let analysis = vec![FileAnalysis { path: path(true, &["proj", "src", "a.rs"]), cover: vec![1], ignore: Vec::new() }];
    let r = run(units, &config(), &analysis);
    assert_eq!(r.len(), 1);
    assert_eq!(r[0].address, Some(0x10));
}

fn traced(p: &[&str], line: u64, address: Option<u64>, trace_type: LineType) -> TracerData {
    TracerData { path: path(true, p), line, address, trace_type, hits: 0 }
}

#[test]
fn tracer_data_equality_is_by_location() {
    let a = traced(&["proj", "a.rs"], 3, Some(0x10), LineType::Statement);
    let b = traced(&["proj", "a.rs"], 3, None, LineType::UnusedGeneric);
    let c = traced(&["proj", "a.rs"], 4, Some(0x10), LineType::Statement);
    let d = traced(&["proj", "b.rs"], 3, Some(0x10), LineType::Statement);
    assert!(a == b);
    assert!(a != c);
    assert!(a != d);
}

#[test]
fn tracer_data_order_is_by_path_then_line() {
    let a3 = traced(&["proj", "a.rs"], 3, Some(0x10), LineType::Statement);
    let a3b = traced(&["proj", "a.rs"], 3, None, LineType::Unknown);
    let a9 = traced(&["proj", "a.rs"], 9, Some(0x1), LineType::Statement);
    let b1 = traced(&["proj", "b.rs"], 1, Some(0x1), LineType::Statement);
    let sub = traced(&["proj", "a.rs", "x"], 1, Some(0x1), LineType::Statement);
    assert_eq!(a3.cmp(&a3b), Ordering::Equal);
    assert_eq!(a3.cmp(&a9), Ordering::Less);
    assert_eq!(a9.cmp(&a3), Ordering::Greater);
    assert_eq!(a9.cmp(&b1), Ordering::Less);
    assert_eq!(b1.cmp(&a3), Ordering::Greater);
    assert_eq!(a3.cmp(&sub), Ordering::Less);
    let rel = TracerData { path: path(false, &["a.rs"]), line: 1, address: None, trace_type: LineType::Unknown, hits: 0 };
    assert_eq!(a3.cmp(&rel), Ordering::Less);
    assert_eq!(rel.cmp(&a3), Ordering::Greater);
}
