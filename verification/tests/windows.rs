//! What the windows show and do.

use pe_edit::domain::{
    IatEntry, IatFixReport, ImportFunction, Machine, Rva, ScanMethod,
};
use pe_edit::feature::VaConverter;
use pe_edit::io::pe::{parse, serialize};
use pe_edit::io::{mock, MockResolver};
use pe_edit::ui::convert::{can_convert, convert_addresses};
use pe_edit::ui::dump_app::{lowered_matches, process_matches, PeEditorApp, Source};
use pe_edit::ui::edit_app::{overlap_text, Notice, PeEditApp, Pending};
use pe_edit::ui::fields::{
    coff_fields, dos_fields, load_config_fields, optional_fields, set_coff_field, set_dos_field,
    set_optional_field, tls_fields, Cell,
};
use pe_edit::ui::hex::{preview_row, row_count, row_of, section_base, section_row};
use pe_edit::ui::input::{is_blank, parse_base, parse_count, parse_needle, parse_rva, parse_u64, trim};
use pe_edit::ui::labels::{machine_name, reloc_type_name, scan_method_name};
use pe_edit::ui::search::{global_search, import_matches, search_lowered, PeNode};
use pe_edit::PeError;

fn mock_bytes() -> Vec<u8> {
    serialize(&mock::document()).unwrap()
}

fn editor() -> PeEditApp {
    let mut app = PeEditApp::default();
    app.path = "mock.exe".to_string();
    assert!(matches!(app.load_bytes(&mock_bytes()), Notice::Loaded));
    app
}

fn dumper() -> PeEditorApp {
    let mut app = PeEditorApp::default();
    app.accept_dump(Ok(mock::document()), 42, "main module");
    app
}

#[test]
fn text_is_trimmed_as_the_user_sees_it() {
    assert_eq!(trim("\u{a0}\t a b \u{3000}\n"), "a b");
    assert!(is_blank(" \u{2003}"));
    assert!(!is_blank("."));
}

#[test]
fn numbers_are_read() {
    assert_eq!(parse_u64("0xffffffffffffffff"), Some(u64::MAX));
    assert_eq!(parse_u64("18446744073709551616"), None);
    assert_eq!(parse_u64("+5"), Some(5));
    assert_eq!(parse_u64("-5"), None);
    assert_eq!(parse_base("0x10"), Some(16));
    assert_eq!(parse_rva(" 81920 "), Ok(81920));
    assert_eq!(parse_rva("4294967296"), Err("invalid rva '4294967296'".to_string()));
    assert_eq!(parse_count("12"), Some(12));
    assert_eq!(parse_count(" 12"), None);
    assert_eq!(parse_needle("é"), Some(vec![0xc3, 0xa9]));
}

#[test]
fn letter_case_does_not_matter_beyond_ascii() {
    assert!(import_matches("CAFÉ.dll", "é"));
    assert!(import_matches("café.dll", "CAFÉ"));
    assert!(!import_matches("cafe.dll", "é"));
}

#[test]
fn search_finds_every_part() {
    let doc = mock::document();
    let hits = global_search(&doc, " TEXT ");
    assert_eq!(hits.len(), 1);
    assert_eq!(hits[0].node, PeNode::Sections);
    assert_eq!(hits[0].section_index, Some(0));
    let hits = global_search(&doc, "user32");
    assert_eq!(hits[0].import_module.as_deref(), Some("user32.dll"));
    let hits = global_search(&doc, "dumpme");
    assert_eq!(hits.len(), 1);
    assert_eq!(hits[0].label, "export · DumpMe");
    let hits = global_search(&doc, "#24");
    assert_eq!(hits[0].resource_path.as_deref(), Some("#24"));
    assert!(global_search(&doc, "  ").is_empty());
}

#[test]
fn hex_rows_show_address_bytes_and_text() {
    let data = b"MZ\x00\xff0123456789ABCDEF";
    assert_eq!(row_count(0), 1);
    assert_eq!(row_count(16), 1);
    assert_eq!(row_count(data.len()), 2);
    assert_eq!(
        section_row(data, 0x1000, 0),
        "0x001000: 4D 5A 00 FF 30 31 32 33 34 35 36 37 38 39 41 42  MZ..0123456789AB"
    );
    assert_eq!(row_of(0x1014, 0x1000), 1);
    assert_eq!(row_of(0x10, 0x1000), 0);
    assert!(preview_row(data, 0x1000, 1).starts_with("0x00001010: 43 44 45 46"));
    assert!(preview_row(data, 0x1000, 1).ends_with("  CDEF"));
    let doc = mock::document();
    assert_eq!(section_base(&doc.sections[0], true), 0x1000);
    assert_eq!(section_base(&doc.sections[0], false), 0x200);
}

#[test]
fn labels_name_known_values() {
    assert_eq!(machine_name(Machine::Amd64), "AMD64");
    assert_eq!(machine_name(Machine::Unknown(0x1c0)), "Other (0x01c0)");
    assert_eq!(reloc_type_name(10), "10 DIR64");
    assert_eq!(reloc_type_name(6), "TYPE_6");
    assert_eq!(scan_method_name(ScanMethod::CodeReference), "Code references");
}

#[test]
fn header_rows_show_the_fields() {
    let mut doc = mock::document();
    let rows = dos_fields(&doc.dos);
    assert_eq!(rows.len(), 32);
    assert_eq!(rows[0].label, "e_magic");
    assert!(matches!(&rows[30].cell, Cell::Text(t) if t == "0x40"));
    assert!(matches!(&rows[31].cell, Cell::Text(t) if t == "0 bytes"));
    set_dos_field(&mut doc.dos, 15, 0x1234);
    assert_eq!(doc.dos.e_res[1], 0x1234);

    let before = coff_fields(&doc.coff).len();
    set_coff_field(&mut doc.coff, 1, 0x5555);
    assert_eq!(coff_fields(&doc.coff).len(), before);
    assert_eq!(doc.coff.time_date_stamp, 0x5555);

    let rows = optional_fields(&doc.optional);
    let entry = rows.iter().position(|r| r.label == "address of entry point").unwrap();
    set_optional_field(&mut doc.optional, entry, 0x1020);
    assert_eq!(doc.optional.address_of_entry_point(), Rva(0x1020));

    let rows = tls_fields(doc.tls.as_ref().unwrap());
    assert_eq!(rows.len(), 5);
    assert!(matches!(&rows[0].cell, Cell::Text(t) if t == "0x14003100"));
    assert!(!load_config_fields(doc.load_config.as_ref().unwrap()).is_empty());
}

#[test]
fn converter_prefers_the_rva() {
    let conv = VaConverter::from_document(&mock::document());
    let expected = ("0x1000".to_string(), "0x14001000".to_string(), "0x200".to_string());
    assert_eq!(convert_addresses(&conv, "4096", "junk", "junk"), Some(expected.clone()));
    assert_eq!(convert_addresses(&conv, "junk", "0x14001000", ""), Some(expected));
    assert_eq!(convert_addresses(&conv, "junk", "junk", "junk"), None);
    assert!(can_convert(&conv, "0x1000", "", ""));
}

#[test]
fn opening_shows_the_sections() {
    let app = editor();
    assert_eq!(app.section_names, vec![".text", ".idata", ".rsrc", ".peimp", ".peexp"]);
    assert!(!app.dirty);
    let mut other = PeEditApp::default();
    assert!(matches!(
        other.load_bytes(b"no"),
        Notice::ParseFailed(m) if m.starts_with("malformed PE: truncated")
    ));
    assert!(other.doc.is_none());
}

#[test]
fn one_gesture_is_undone_and_redone() {
    let mut app = editor();
    let before = app.doc.clone().unwrap();
    app.edit_dos(1, 7);
    app.frame_end();
    app.edit_dos(1, 8);
    app.frame_end();
    app.frame_end();
    assert_eq!(app.undo_stack.len(), 1);
    let edited = app.doc.clone().unwrap();
    assert_eq!(edited.dos.e_cblp, 8);
    app.undo();
    assert_eq!(app.doc.as_ref(), Some(&before));
    app.redo();
    assert_eq!(app.doc.as_ref(), Some(&edited));
    app.redo();
    assert_eq!(app.doc.as_ref(), Some(&edited));
}

#[test]
fn history_is_bounded() {
    let mut app = editor();
    for i in 0..40u16 {
        app.edit_dos(1, i + 1);
        app.frame_end();
        app.frame_end();
    }
    assert_eq!(app.undo_stack.len(), 32);
}

#[test]
fn unsaved_changes_ask_first() {
    let mut app = editor();
    assert!(app.request(Pending::Open));
    assert!(!app.close_requested());
    app.edit_machine(Machine::Arm64);
    assert!(!app.request(Pending::OpenPath("b.exe".to_string())));
    assert!(matches!(&app.pending, Pending::OpenPath(p) if p == "b.exe"));
    app.cancel_pending();
    assert!(app.close_requested());
    assert!(matches!(app.discard_changes(), Pending::Exit));
    assert!(!app.dirty);
}

#[test]
fn saved_bytes_can_be_read_back() {
    let mut app = editor();
    app.edit_directory(3, 0x1234, 0x56);
    let bytes = app.prepare_save().unwrap();
    assert_eq!(parse(&bytes).unwrap().data_directories[3].rva, Rva(0x1234));
    app.saved();
    assert!(!app.dirty);
    assert_eq!(app.save_target().as_deref(), Some("mock.exe"));
    app.save_path = "copy.exe".to_string();
    assert_eq!(app.save_target().as_deref(), Some("copy.exe"));
    assert!(matches!(PeEditApp::default().prepare_save(), Err(Notice::NoDocument)));
    assert_eq!(PeEditApp::default().save_target(), None);
}

#[test]
fn editor_adds_and_removes_parts() {
    let mut app = editor();
    app.new_section_name = ".new".to_string();
    app.new_section_size = 16;
    assert!(matches!(app.add_section(), Notice::AddedSection(n) if n == ".new"));
    assert_eq!(app.selected_section, 5);
    assert_eq!(app.section_names.len(), 6);
    assert!(app.remove_section(5).is_none());
    assert_eq!(app.selected_section, 4);
    app.rename_section(0, ".code");
    assert_eq!(app.doc.as_ref().unwrap().sections[0].name_str(), ".code");

    assert!(matches!(app.add_import(), Notice::ModuleFuncRequired));
    app.new_import_module = "m.dll".to_string();
    app.new_import_func = "f".to_string();
    assert!(matches!(app.add_import(), Notice::AddedImport(_, _)));
    assert_eq!(
        app.doc.as_ref().unwrap().imports[2].functions,
        vec![ImportFunction::by_name("f")]
    );
    assert!(app.remove_import("m.dll").is_none());
    assert!(matches!(app.remove_import("m.dll"), Some(Notice::RemoveImportFailed(_))));
    assert!(app.remove_export(1).is_none());
    assert!(matches!(app.remove_export(1), Some(_)));
}

#[test]
fn hex_view_finds_and_jumps() {
    let mut app = editor();
    app.memory_view = true;
    app.binary_find = "48 8B 05".to_string();
    assert!(app.find_in_section().is_none());
    assert_eq!(app.binary_scroll_to, Some(0x1008));
    app.binary_find = "zzz".to_string();
    assert!(matches!(app.find_in_section(), Some(Notice::NotFound)));
    app.binary_jump = "0x14001010".to_string();
    assert!(app.jump());
    assert_eq!(app.binary_scroll_to, Some(0x1010));
    app.binary_jump = "?".to_string();
    assert!(!app.jump());
    app.jump_to_end();
    assert_eq!(app.binary_scroll_to, Some(0x10ff));
}

#[test]
fn overlapping_sections_are_named() {
    let mut doc = mock::document();
    assert_eq!(overlap_text(&doc), None);
    doc.sections[0].header.virtual_size = 0x1001;
    assert_eq!(overlap_text(&doc).as_deref(), Some(".text↔.idata"));
}

#[test]
fn dump_is_scanned_and_curated() {
    let mut app = dumper();
    assert_eq!(app.status, "dumped main module (pid 42)");
    assert_eq!(app.header_edits.entry_point, 0x1000);
    app.scan_iat::<MockResolver>(None);
    assert_eq!(app.status, "no process resolver — dump a process first");
    app.scan_iat(Some(&MockResolver::new()));
    assert_eq!(app.status, "scan (Resolver) — IAT at 0x2080, 6 entries");
    assert_eq!(app.iat_keep, vec![true; 6]);
    app.iat_keep[0] = false;
    assert_eq!(app.kept().len(), 5);
    app.iat_add_rva = 0x10;
    app.iat_add_value = 0x20;
    app.add_entry();
    assert_eq!(app.status, "added entry 0x10 = 0x20");
    assert_eq!(app.kept()[5], IatEntry { rva: Rva(0x10), value: 0x20 });
    app.iat_region_rva = 0x2080;
    app.iat_region_size = 16;
    app.add_region();
    assert_eq!(app.status, "added 2 entries from region 0x2080");
    app.choose_method(ScanMethod::Reflection);
    assert!(app.scan.is_none());
}

#[test]
fn suspicious_imports_are_warned_about() {
    let mut app = dumper();
    assert!(!app.request_save("out.exe"));
    assert!(app.save_warning.is_some());
    assert_eq!(app.force_save().as_deref(), Some("out.exe"));
    let report = |unresolved| IatFixReport {
        imports_built: 3,
        total_entries: 6,
        unresolved,
        new_import_rva: Some(Rva(0x4000)),
        new_import_size: 0x80,
    };
    app.accept_fix(Ok(report(vec![])), "fix failed: ");
    assert_eq!(app.status, "fixed 3 imports (0 unresolved, new table at 0x4000)");
    assert!(app.request_save("out.exe"));
    app.accept_fix(Ok(report(vec![IatEntry { rva: Rva(1), value: 2 }])), "fix failed: ");
    assert_eq!(
        app.import_health_warning().as_deref(),
        Some("上次修复有 1 个导入未能解析,依赖它们的调用会失效。")
    );
    app.accept_fix(Err(PeError::NotFound("x".to_string())), "fix failed: ");
    assert_eq!(app.status, "fix failed: not found: x");
}

#[test]
fn header_edits_are_applied() {
    let mut app = dumper();
    let before = app.doc.clone();
    app.apply_headers();
    assert_eq!(app.doc, before);
    app.header_edits.subsystem = 2;
    app.apply_headers();
    assert_eq!(app.doc.as_ref().unwrap().optional.subsystem(), 2);
    assert_eq!(app.status, "headers applied");
}

#[test]
fn dump_editor_loads_files_too() {
    let mut app = PeEditorApp::default();
    app.path = "a.exe".to_string();
    app.load_bytes(&mock_bytes());
    assert_eq!(app.status, "loaded a.exe");
    assert!(matches!(app.source, Source::File));
    assert_eq!(app.save_target().as_deref(), Some("a.exe"));
    assert_eq!(app.bytes_to_write(), Some(mock_bytes()));
    app.load_bytes(&[]);
    assert!(app.status.starts_with("parse failed: malformed PE"));
    app.read_failed("gone");
    assert_eq!(app.status, "read failed: gone");
}

#[test]
fn dump_editor_edits_parts() {
    let mut app = dumper();
    app.new_section_name = ".n".to_string();
    app.add_section();
    assert_eq!(app.status, "added section .n");
    app.remove_section(9);
    assert_eq!(app.status, "remove failed: invalid argument: remove_section: no section #9");
    app.add_import();
    assert_eq!(
        app.status,
        "add import failed: invalid argument: add_import: empty module name"
    );
    app.new_import_module = "m.dll".to_string();
    app.new_import_func = "f".to_string();
    app.add_import();
    assert_eq!(app.status, "added import m.dll!f");
    app.new_export_ordinal = 3;
    app.add_export();
    assert_eq!(app.status, "added export ordinal 3");
    app.remove_export(9);
    assert_eq!(
        app.status,
        "remove export failed: not found: remove_export: no export at ordinal 9"
    );
}

#[test]
fn processes_are_filtered_by_name_and_id() {
    assert!(process_matches("Notepad.exe", 1234, "NOTE"));
    assert!(process_matches("Notepad.exe", 1234, " 23 "));
    assert!(process_matches("Notepad.exe", 1234, ""));
    assert!(!process_matches("Notepad.exe", 1234, "calc"));
}

#[test]
fn undo_moves_the_selection_to_the_last_section() {
    let mut app = editor();
    let sections = app.doc.as_ref().unwrap().sections.len();
    for name in [".n1", ".n2", ".n3"] {
        app.new_section_name = name.to_string();
        assert!(matches!(app.add_section(), Notice::AddedSection(_)));
    }
    app.frame_end();
    app.frame_end();
    assert_eq!(app.selected_section, sections + 2);
    app.undo();
    assert_eq!(app.doc.as_ref().unwrap().sections.len(), sections);
    assert_eq!(app.selected_section, sections - 1);
    app.selected_section = 99;
    app.redo();
    assert_eq!(app.selected_section, sections + 2);
}

#[test]
fn selection_before_the_end_stays() {
    let mut app = editor();
    app.new_section_name = ".n1".to_string();
    assert!(matches!(app.add_section(), Notice::AddedSection(_)));
    app.frame_end();
    app.frame_end();
    app.select_section(1);
    app.undo();
    assert_eq!(app.selected_section, 1);
}

#[test]
fn search_takes_a_query_in_lower_case() {
    let doc = mock::document();
    assert_eq!(search_lowered(&doc, "dumpme").len(), 1);
    assert!(search_lowered(&doc, "DumpMe").is_empty());
    assert!(global_search(&doc, " \u{3000}\t").is_empty());
    assert!(global_search(&doc, "").is_empty());
}

#[test]
fn process_filter_takes_lower_case() {
    assert!(lowered_matches("notepad.exe", 1234, "note"));
    assert!(lowered_matches("notepad.exe", 1234, "234"));
    assert!(!lowered_matches("notepad.exe", 1234, "NOTE"));
    assert!(process_matches("Notepad.exe", 1234, " \u{a0} "));
}

#[test]
fn fixing_says_what_is_missing() {
    let mut app = PeEditorApp::default();
    assert!(!app.may_fix(false));
    assert_eq!(app.status, "no process resolver");
    assert!(!app.may_fix(true));
    assert_eq!(app.status, "no IAT scan");

    let mut app = dumper();
    app.scan_iat(Some(&MockResolver::new()));
    let status = app.status.clone();
    assert!(app.may_fix(true));
    assert_eq!(app.status, status);
    assert!(!app.may_fix(false));
    assert_eq!(app.status, "no process resolver");
    app.doc = None;
    assert!(!app.may_fix(true));
    assert_eq!(app.status, "no document");
}

#[test]
fn curated_table_holds_the_kept_entries() {
    let mut app = dumper();
    assert!(app.curated_table(true).is_none());
    assert_eq!(app.status, "no entries kept");
    app.scan_iat(Some(&MockResolver::new()));
    app.iat_keep[1] = false;
    let status = app.status.clone();
    let table = app.curated_table(true).unwrap();
    assert_eq!(table.entries(), app.kept());
    assert_eq!(table.entries().len(), app.iat_entries.len() - 1);
    assert_eq!(app.status, status);
    assert!(app.curated_table(false).is_none());
    assert_eq!(app.status, "no process resolver");
}
