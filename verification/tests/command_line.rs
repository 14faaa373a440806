//! The command line: arguments, edits and reports.

use pe_edit::api::{DirectoryEditor, ExportTableEditor};
use pe_edit::domain::{ImportFunction, ResourceName, Rva, ScanMethod};
use pe_edit::io::mock;
use pe_edit::io::pe::{parse, serialize};
use pe_edit::ui::cli::{apply, parse_args, Command, Request};
use pe_edit::ui::dump_args::{parse_dump_args, parse_spawn_args, DEFAULT_PREFERRED_BASE};
use pe_edit::ui::report::{
    count_resource_leaves, describe_export_table, document_lines, import_total, relocation_total,
    run_checks,
};

fn owned(words: &[&str]) -> Vec<String> {
    words.iter().map(|w| w.to_string()).collect()
}

fn args(words: &[&str]) -> Request {
    parse_args(&owned(words))
}

fn bad(words: &[&str]) -> String {
    match args(words) {
        Request::Bad(message) => message,
        other => panic!("{other:?}"),
    }
}

#[test]
fn commands_are_read_with_their_arguments() {
    assert_eq!(args(&[]), Request::Usage);
    assert_eq!(args(&["frob"]), Request::Unknown("frob".to_string()));
    assert_eq!(
        args(&["show", "a.exe"]),
        Request::Run(Command::Show { path: "a.exe".to_string() })
    );
    assert_eq!(
        args(&["set-entry", "a", " 0x14000 ", "b"]),
        Request::Run(Command::SetEntry {
            path: "a".to_string(),
            rva: 0x14000,
            out: "b".to_string()
        })
    );
    assert_eq!(
        args(&["add-section", "a", ".mydata", "4096", "b"]),
        Request::Run(Command::AddSection {
            path: "a".to_string(),
            name: ".mydata".to_string(),
            size: 4096,
            out: "b".to_string()
        })
    );
    assert_eq!(
        args(&["merge-sections", "a", "1", "+2", "b"]),
        Request::Run(Command::MergeSections {
            path: "a".to_string(),
            start: 1,
            end: 2,
            out: "b".to_string()
        })
    );
    assert_eq!(
        args(&["rebuild-sections", "a", "b", "ignored"]),
        Request::Run(Command::RebuildSections { path: "a".to_string(), out: "b".to_string() })
    );
}

#[test]
fn bad_arguments_are_named() {
    assert_eq!(bad(&["show"]), "usage: pe-edit show <file>");
    assert_eq!(bad(&["set-entry"]), "missing <file>");
    assert_eq!(bad(&["set-entry", "a"]), "missing <rva>");
    assert_eq!(bad(&["set-entry", "a", "x"]), "missing <out>");
    assert_eq!(bad(&["set-entry", "a", " x ", "b"]), "invalid rva 'x'");
    assert_eq!(bad(&["set-entry", "a", "0x100000000", "b"]), "invalid rva '0x100000000'");
    assert_eq!(bad(&["add-section", "a"]), "missing <name>");
    assert_eq!(bad(&["add-section", "a", "n"]), "missing <size>");
    assert_eq!(bad(&["add-section", "a", "n", "-1", "b"]), "size must be an integer");
    assert_eq!(bad(&["add-import", "a"]), "missing <module>");
    assert_eq!(bad(&["add-import", "a", "m"]), "missing <func>");
    assert_eq!(bad(&["merge-sections", "a", "x", "y"]), "missing <out>");
    assert_eq!(bad(&["merge-sections", "a", "x", "y", "b"]), "start must be an integer");
    assert_eq!(bad(&["merge-sections", "a", "1", "y", "b"]), "end must be an integer");
}

#[test]
fn commands_edit_the_document() {
    let mut doc = mock::document();
    let set = Command::SetEntry { path: String::new(), rva: 0x1010, out: String::new() };
    apply(&mut doc, &set).unwrap();
    assert_eq!(doc.optional.address_of_entry_point(), Rva(0x1010));

    let add = Command::AddSection {
        path: String::new(),
        name: "longer-than-8".to_string(),
        size: 3,
        out: String::new(),
    };
    apply(&mut doc, &add).unwrap();
    assert_eq!(doc.sections[3].name_str(), "longer-t");
    assert_eq!(doc.sections[3].data, vec![0; 3]);
    assert_eq!(doc.sections[3].header.characteristics, 0xc000_0040);

    let import = Command::AddImport {
        path: String::new(),
        module: "m.dll".to_string(),
        func: "f".to_string(),
        out: String::new(),
    };
    apply(&mut doc, &import).unwrap();
    assert_eq!(doc.imports[2].functions, vec![ImportFunction::by_name("f")]);

    let merge = Command::MergeSections { path: String::new(), start: 0, end: 1, out: String::new() };
    assert_eq!(
        apply(&mut doc, &merge).unwrap_err().message(),
        "unsupported: merge_sections: sections are not contiguous"
    );

    let before = doc.clone();
    apply(&mut doc, &Command::Show { path: String::new() }).unwrap();
    assert_eq!(doc, before);
}

#[test]
fn document_is_shown_line_by_line() {
    let mut doc = mock::document();
    doc.sections.truncate(1);
    assert_eq!(
        document_lines(&doc),
        vec![
            "arch: Bit64, machine: Amd64",
            "image_base: 0x14000000, entry: 0x1000, subsystem: 3",
            "sections (1):",
            "  .text      va=  0x1000 vsize=   0x100 raw=   0x200 @   0x200 char=0x60000020",
            "imports: 2 modules, 6 functions",
            "  kernel32.dll                    5 funcs (5 named)",
            "  user32.dll                      1 funcs (1 named)",
            "exports: 2 symbols (module Some(\"mock.exe\"))  e.g. Start(#1)=0x1000, DumpMe(#2)=0x1010",
            "resources: 1 top entries, 1 leaves",
            "relocations: 1 blocks, 1 entries",
            "tls: start=0x14003100 end=0x14003104 callbacks=0x0",
            "load_config: size=0x140 cookie=0x14002000 cf_flags=0x4500 cf_table=0x14003100 (5 funcs) xfg_check=0x14003180",
        ]
    );
}

#[test]
fn absent_directories_are_shown_as_none() {
    let mut doc = mock::document();
    doc.sections.clear();
    doc.imports.clear();
    doc.set_exports(None).unwrap();
    doc.set_resources(None);
    doc.set_relocations(None);
    doc.set_tls(None);
    doc.set_load_config(None);
    assert_eq!(
        document_lines(&doc)[2..],
        [
            "sections (0):",
            "imports: 0 modules, 0 functions",
            "exports: none",
            "resources: none",
            "relocations: none",
            "tls: none",
            "load_config: none",
        ]
    );
}

#[test]
fn sound_document_passes_the_checks() {
    // Written once, so that the tables have their sections.
    let doc = parse(&serialize(&mock::document()).unwrap()).unwrap();
    let report = run_checks(&doc);
    assert_eq!(report.error, None);
    assert_eq!(
        report.lines,
        vec![
            "checks:",
            "  [PASS] data-directory rvas are mapped",
            "  [PASS] round-trip preserves imports (2 modules / 6 funcs)",
            "  [PASS] round-trip preserves exports (2 symbols)",
            "  [PASS] round-trip preserves sections (5 total)",
        ]
    );
}

#[test]
fn unmapped_directory_fails_the_checks() {
    let mut doc = mock::document();
    doc.data_directories[2].rva = Rva(0x9000);
    let report = run_checks(&doc);
    assert_eq!(report.lines, vec!["checks:"]);
    assert_eq!(
        report.error.as_deref(),
        Some("Resource directory rva 0x9000 is unmapped")
    );
}

#[test]
fn lost_exports_fail_the_checks() {
    let mut doc = mock::document();
    let mut exports = doc.exports.take().unwrap();
    exports.symbols[1].name = None;
    doc.exports = Some(exports);
    let report = run_checks(&doc);
    assert_eq!(report.lines[3], "  [FAIL] round-trip preserves exports (2 symbols)");
    assert_eq!(report.error.as_deref(), Some("round-trip checks failed"));
}

#[test]
fn new_sections_fail_the_checks() {
    let report = run_checks(&mock::document());
    assert_eq!(report.lines[4], "  [FAIL] round-trip preserves sections (3 total)");
    assert_eq!(report.error.as_deref(), Some("round-trip checks failed"));
}

#[test]
fn totals_count_everything() {
    let mut doc = mock::document();
    assert_eq!(import_total(&doc), 6);
    assert_eq!(relocation_total(doc.relocations.as_ref().unwrap()), 1);
    doc.add_resource_data(24, ResourceName::Id(2), 0, vec![1]).unwrap();
    doc.add_resource_data(24, ResourceName::Id(2), 1, vec![1]).unwrap();
    assert_eq!(count_resource_leaves(doc.resources.as_ref().unwrap()), 3);
}

#[test]
fn export_table_is_described_under_the_given_name() {
    let exports = mock::document().exports.unwrap();
    assert_eq!(
        describe_export_table(&exports, "None"),
        "exports: 2 symbols (module None)  e.g. Start(#1)=0x1000, DumpMe(#2)=0x1010"
    );
}

#[test]
fn dump_options_are_read() {
    let plain = parse_dump_args(&[]).unwrap();
    assert_eq!(plain.out, None);
    assert_eq!(plain.method, ScanMethod::Resolver);
    assert!(plain.validate);
    let all = owned(&["fixed.exe", "--method", "code", "--no-validate"]);
    let options = parse_dump_args(&all).unwrap();
    assert_eq!(options.out.as_deref(), Some("fixed.exe"));
    assert_eq!(options.method, ScanMethod::CodeReference);
    assert!(!options.validate);
}

#[test]
fn bad_dump_options_are_named() {
    let failure = |words: &[&str]| parse_dump_args(&owned(words)).unwrap_err();
    assert_eq!(failure(&["--method"]), "--method needs a value");
    assert_eq!(
        failure(&["--method", "luck"]),
        "unknown method 'luck' (resolver|reflection|code)"
    );
    assert_eq!(failure(&["a", "b"]), "unexpected argument 'b'");
}

#[test]
fn spawn_options_are_read() {
    let words = [
        "app.exe", "--rebase", "out.exe", "--method", "reflection", "--dump-only", "--", "--method", "-x",
    ];
    let options = parse_spawn_args(&owned(&words)).unwrap();
    assert_eq!(options.exe.as_deref(), Some("app.exe"));
    assert_eq!(options.out.as_deref(), Some("out.exe"));
    assert_eq!(options.rebase, Some(DEFAULT_PREFERRED_BASE));
    assert_eq!(options.method, ScanMethod::Reflection);
    assert!(options.dump_only);
    assert!(options.validate);
    assert_eq!(options.target_args, vec!["--method", "-x"]);
    let based = parse_spawn_args(&owned(&["--rebase", "0x10000", "a", "b"])).unwrap();
    assert_eq!(based.rebase, Some(0x10000));
}

#[test]
fn bad_spawn_options_are_named() {
    let failure = |words: &[&str]| parse_spawn_args(&owned(words)).unwrap_err();
    let usage = "usage: spawn_dump <exe> <out> [--method ...] [--rebase] [-- args...]";
    assert_eq!(failure(&[]), usage);
    assert_eq!(failure(&["a", "--", "b"]), usage);
    assert_eq!(failure(&["--method", "luck"]), "unknown method 'luck'");
    assert_eq!(failure(&["a", "b", "c"]), "unexpected argument 'c'");
}
