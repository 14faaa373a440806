//! The helpers of the editor window and its undo history.

use pe_edit::feature::VaConverter;
use pe_edit::io::mock;
use pe_edit::ui::convert::convert_addresses;
use pe_edit::ui::edit_app::PeEditApp;
use pe_edit::ui::input::{name_bytes, parse_jump_target, parse_needle, parse_u64};
use pe_edit::ui::labels::is_writer_managed;
use pe_edit::ui::search::{find_bytes, find_overlaps, global_search, import_matches, PeNode};

#[test]
fn parse_u64_handles_hex_and_decimal() {
    assert_eq!(parse_u64("0x1000"), Some(0x1000));
    assert_eq!(parse_u64("0X2A"), Some(0x2A));
    assert_eq!(parse_u64("4096"), Some(4096));
    assert_eq!(parse_u64(" 123 "), Some(123));
    assert_eq!(parse_u64(""), None);
    assert_eq!(parse_u64("0xZZ"), None);
    assert_eq!(parse_u64("abc"), None);
}

#[test]
fn name_bytes_pads_and_truncates() {
    assert_eq!(name_bytes(".text"), *b".text\0\0\0");
    assert_eq!(name_bytes(""), [0u8; 8]);
    assert_eq!(name_bytes("0123456789"), *b"01234567");
    assert_eq!(name_bytes(".idata"), *b".idata\0\0");
}

#[test]
fn jump_target_accepts_va_and_clamps() {
    let base = 0x1000u32;
    let len = 0x200usize;
    let ib = 0x1400_0000u64;
    // VA >= image base -> RVA
    assert_eq!(parse_jump_target(0x1400_1000, ib, base, len), 0x1000);
    // bare offset passes through
    assert_eq!(parse_jump_target(0x1100, ib, base, len), 0x1100);
    // below section start clamps to start
    assert_eq!(parse_jump_target(0x800, ib, base, len), 0x1000);
    // beyond section end clamps to end
    assert_eq!(parse_jump_target(0x5000, ib, base, len), 0x1000 + 0x200 - 1);
}

#[test]
fn converter_round_trips_va_rva_raw() {
    let doc = mock::document();
    let conv = VaConverter::from_document(&doc);
    let text_va = format!("{:#x}", mock::MOCK_IMAGE_BASE + 0x1000);

    // RVA input -> VA + raw offset
    let (rva, va, raw) = convert_addresses(&conv, "0x1000", "", "").unwrap();
    assert_eq!(rva, "0x1000");
    assert_eq!(va, text_va);
    assert_eq!(raw, "0x200");

    // VA input -> RVA + raw
    let (rva2, va2, raw2) = convert_addresses(&conv, "", &text_va, "").unwrap();
    assert_eq!(rva2, "0x1000");
    assert_eq!(va2, text_va);
    assert_eq!(raw2, "0x200");

    // Raw offset input -> RVA + VA
    let (rva3, va3, raw3) = convert_addresses(&conv, "", "", "0x200").unwrap();
    assert_eq!(rva3, "0x1000");
    assert_eq!(va3, text_va);
    assert_eq!(raw3, "0x200");

    // Header region (raw < size_of_headers) maps 1:1
    let (rva4, va4, raw4) = convert_addresses(&conv, "", "", "0x10").unwrap();
    assert_eq!(rva4, "0x10");
    assert_eq!(raw4, "0x10");
    assert_eq!(va4, format!("{:#x}", mock::MOCK_IMAGE_BASE + 0x10));

    // Unmapped raw offset returns None
    assert!(convert_addresses(&conv, "", "", "0x9999").is_none());
    // No input at all returns None
    assert!(convert_addresses(&conv, "", "", "").is_none());
}

#[test]
fn import_filter_is_case_insensitive_contains() {
    assert!(import_matches("KERNEL32.dll", ""));
    assert!(import_matches("KERNEL32.dll", "kernel"));
    assert!(import_matches("KERNEL32.dll", "DLL"));
    assert!(!import_matches("KERNEL32.dll", "user32"));
    assert!(import_matches("USER32.dll", "user"));
    assert!(import_matches("user32.dll", "USER"));
    assert!(import_matches("", ""));
}

#[test]
fn parse_needle_hex_and_ascii() {
    // even-length hex digits -> bytes
    assert_eq!(parse_needle("4D 5A"), Some(vec![0x4D, 0x5A]));
    assert_eq!(parse_needle("4d5a"), Some(vec![0x4D, 0x5A]));
    // non-hex input falls back to ASCII bytes
    assert_eq!(parse_needle("MZ"), Some(vec![b'M', b'Z']));
    // empty -> None
    assert_eq!(parse_needle("  "), None);
    // odd-length hex run falls back to ASCII
    assert_eq!(parse_needle("abc"), Some(b"abc".to_vec()));
}

#[test]
fn find_bytes_locates_first_occurrence() {
    let data = b"\x00\x01\x4d\x5a\x01\x02";
    assert_eq!(find_bytes(data, &[0x4d, 0x5a]), Some(2));
    assert_eq!(find_bytes(data, &[0x01]), Some(1));
    assert_eq!(find_bytes(data, b"xx"), None);
    assert_eq!(find_bytes(data, &[]), None);
    assert_eq!(find_bytes(b"ab", b"abc"), None);
    assert_eq!(find_bytes(b"ab", b"ab"), Some(0));
}

#[test]
fn writer_managed_directory_set_is_exact() {
    // The 7 directories the writer re-renders from rich forms.
    for i in [0, 1, 2, 5, 9, 10, 12] {
        assert!(is_writer_managed(i), "dir {i} should be writer-managed");
    }
    // The other 8 are written verbatim (freely editable).
    for i in [3, 4, 6, 7, 8, 11, 13, 14] {
        assert!(!is_writer_managed(i), "dir {i} should be free");
    }
    assert!(!is_writer_managed(15));
}

#[test]
fn section_overlap_detection() {
    // Disjoint: .text 0x1000..0x1200, .data 0x2000..0x2100
    let no = find_overlaps(&[(0x1000, 0x200), (0x2000, 0x100)]);
    assert_eq!(no, vec![]);
    // Adjacent (end == next start) is not an overlap
    let adj = find_overlaps(&[(0x1000, 0x200), (0x1200, 0x100)]);
    assert_eq!(adj, vec![]);
    // True overlap and containment
    let ov = find_overlaps(&[(0x1000, 0x200), (0x1100, 0x100), (0x3000, 0x10)]);
    assert_eq!(ov, vec![(0, 1)]);
    let contain = find_overlaps(&[(0x1000, 0x400), (0x1100, 0x100)]);
    assert_eq!(contain, vec![(0, 1)]);
    // Zero-size ranges never overlap
    let zero = find_overlaps(&[(0x1000, 0), (0x1000, 0x100)]);
    assert_eq!(zero, vec![]);
    // Every pair reported once, smaller index first
    let three = find_overlaps(&[(0x1000, 0x500), (0x1100, 0x500), (0x1200, 0x500)]);
    assert_eq!(three, vec![(0, 1), (0, 2), (1, 2)]);
}

#[test]
fn global_search_finds_sections_imports_exports_resources() {
    let doc = mock::document();

    // Empty / whitespace query -> no hits.
    assert!(global_search(&doc, "").is_empty());
    assert!(global_search(&doc, "   ").is_empty());

    // Section names.
    let hits = global_search(&doc, "text");
    assert!(hits
        .iter()
        .any(|h| h.node == PeNode::Sections && h.section_index.is_some()));

    // Import module.
    let hits = global_search(&doc, "user32");
    assert!(hits.iter().any(|h| h.node == PeNode::Imports
        && h.import_module.as_deref() == Some("user32.dll")));

    // Import function (case-insensitive).
    let hits = global_search(&doc, "messagebox");
    assert!(hits.iter().any(|h| h.node == PeNode::Imports
        && h.import_module.as_deref() == Some("user32.dll")));

    // Export symbol.
    let hits = global_search(&doc, "DumpMe");
    assert!(hits.iter().any(|h| h.node == PeNode::Exports));

    // Resource entry name (the mock manifest leaf is #1033 / 0x409).
    let hits = global_search(&doc, "1033");
    assert!(hits.iter().any(|h| h.node == PeNode::Resources));

    // No match.
    assert!(global_search(&doc, "zzz_no_such_symbol").is_empty());
}

#[test]
fn undo_redo_state_machine_captures_one_step_per_gesture() {
    let baseline = mock::document();
    let mut app = PeEditApp {
        doc: Some(baseline.clone()),
        undo_baseline: Some(baseline.clone()),
        ..Default::default()
    };

    // Frame 1: an edit gesture begins -> exactly one snapshot pushed.
    app.edited_this_frame = true;
    app.frame_end();
    assert_eq!(app.undo_stack.len(), 1);
    assert!(app.gesture_active);
    // The pushed snapshot is the pre-edit document.
    assert_eq!(app.undo_stack[0], baseline);

    // Frame 2: the same gesture continues -> no duplicate snapshot.
    app.edited_this_frame = true;
    app.frame_end();
    assert_eq!(app.undo_stack.len(), 1);

    // Frame 3: idle -> gesture ends, baseline refreshed for the next one.
    app.frame_end();
    assert!(!app.gesture_active);
    assert!(app.undo_baseline.is_some());

    // A second gesture starts on top of the refreshed baseline.
    app.edited_this_frame = true;
    app.frame_end();
    assert_eq!(app.undo_stack.len(), 2);
    app.frame_end(); // idle -> end gesture

    // Undo restores the pre-edit document and stages a redo.
    app.undo();
    assert_eq!(app.undo_stack.len(), 1);
    assert_eq!(app.redo_stack.len(), 1);
    assert!(app.dirty);
    assert_eq!(app.doc.as_ref().unwrap(), &baseline);

    // Redo re-applies it and returns to the edited document.
    app.redo();
    assert_eq!(app.redo_stack.len(), 0);
    assert!(app.doc.is_some());
}
