//! Laying out and merging sections, and converting addresses.

use pe_edit::api::PeEditor;
use pe_edit::domain::{RawOffset, Rva};
use pe_edit::feature::{merge_sections, rebuild_section_table, VaConverter};
use pe_edit::io::mock;
use pe_edit::io::pe::{parse, serialize};

#[test]
fn rebuilt_table_is_packed() {
    let mut doc = mock::document();
    doc.sections[0].data = vec![1; 0x201];
    doc.sections[1].header.virtual_address = Rva(0x2001);
    rebuild_section_table(&mut doc).unwrap();
    // 64 + 4 + 20 + 240 + 3 * 40 bytes of headers.
    assert_eq!(doc.optional.size_of_headers(), 0x200);
    let headers: Vec<_> = doc.sections.iter().map(|s| s.header).collect();
    assert_eq!(headers[0].pointer_to_raw_data, RawOffset(0x200));
    assert_eq!(headers[0].size_of_raw_data, 0x400);
    assert_eq!(headers[0].virtual_size, 0x201);
    assert_eq!(headers[1].pointer_to_raw_data, RawOffset(0x600));
    assert_eq!(headers[1].virtual_address, Rva(0x3000));
    assert_eq!(headers[1].size_of_raw_data, 0x200);
    assert_eq!(headers[2].pointer_to_raw_data, RawOffset(0x800));
    assert_eq!(doc.optional.size_of_image(), 0x4000);
}

#[test]
fn file_that_would_be_too_long_is_refused() {
    let mut doc = mock::document();
    doc.optional.set_file_alignment(0x8000_0000);
    assert_eq!(
        rebuild_section_table(&mut doc).unwrap_err().message(),
        "invalid argument: section table size overflow"
    );
}

#[test]
fn merging_checks_its_range() {
    let mut doc = mock::document();
    for (start, end) in [(0, 0), (1, 0), (1, 3)] {
        assert_eq!(
            merge_sections(&mut doc, start, end).unwrap_err().message(),
            "invalid argument: merge_sections: bad range"
        );
    }
    assert_eq!(
        merge_sections(&mut doc, 0, 1).unwrap_err().message(),
        "unsupported: merge_sections: sections are not contiguous"
    );
    assert_eq!(doc, mock::document());
}

#[test]
fn merging_keeps_every_byte_at_its_address() {
    let mut doc = mock::document();
    doc.sections[0].data.resize(0x1000, 0x90);
    doc.sections[1].data.resize(0x1000, 0);
    let before = doc.clone();
    merge_sections(&mut doc, 0, 1).unwrap();
    assert_eq!(doc.sections.len(), 2);
    assert_eq!(doc.sections[0].name_str(), ".merged");
    assert_eq!(doc.sections[0].header.virtual_size, 0x2000);
    assert_eq!(
        doc.sections[0].header.characteristics,
        before.sections[0].header.characteristics
    );
    for rva in [0x1000, 0x1fff, 0x2000, 0x2080, 0x2fff, 0x3000] {
        assert_eq!(doc.read(Rva(rva), 1).unwrap(), before.read(Rva(rva), 1).unwrap());
    }
    assert_eq!(doc.sections[1].data, before.sections[2].data);
    assert_eq!(doc.sections[1].header.pointer_to_raw_data, RawOffset(0x2200));
}

#[test]
fn appended_section_is_written_and_mapped() {
    let mut doc = mock::document();
    doc.add_section(*b".x\0\0\0\0\0\0", 0x4000_0040, vec![7; 0x210]).unwrap();
    let back = parse(&serialize(&doc).unwrap()).unwrap();
    assert_eq!(back.sections[3].data, vec![7; 0x210]);
    assert_eq!(back.sections[3].header.size_of_raw_data, 0x400);
    let conv = VaConverter::from_document(&back);
    let raw = conv.rva_to_raw(Rva(0x4010)).unwrap();
    assert_eq!(conv.raw_to_rva(raw), Some(Rva(0x4010)));
    assert_eq!(conv.raw_to_va(raw), Some(0x1400_4010));
    assert_eq!(conv.va_to_raw(0x1400_4010), Some(raw));
    assert_eq!(conv.image_base(), 0x1400_0000);
}

#[test]
fn addresses_outside_of_the_image_have_no_place() {
    let conv = VaConverter::from_document(&mock::document());
    assert_eq!(conv.va_to_rva(0x13ff_ffff), None);
    assert_eq!(conv.va_to_rva(0x1400_0000 + 0x1_0000_0000), None);
    assert_eq!(conv.rva_to_raw(Rva(0x9000)), None);
    assert_eq!(conv.raw_to_rva(RawOffset(0x9999)), None);
    assert_eq!(conv.va_to_raw(0), None);
    // The headers stand at the same place in the file and in memory.
    assert_eq!(conv.rva_to_raw(Rva(0x10)), Some(RawOffset(0x10)));
    assert_eq!(conv.raw_to_va(RawOffset(0x10)), Some(0x1400_0010));
}
