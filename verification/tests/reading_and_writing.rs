//! Parsing and serializing.

use pe_edit::api::{DirectoryEditor, ExportTableEditor, ImportTableEditor, PeViewer};
use pe_edit::domain::{
    Arch, DataDirectoryIndex, ExportSymbol, ImportFunction, LoadConfigDirectory, OptionalHeader,
    PeDocument, RelocationEntry, ResourceDirectory, ResourceEntry, ResourceEntryData, ResourceName,
    Rva, TlsDirectory,
};
use pe_edit::io::mock;
use pe_edit::io::pe::writer::can_serialize;
use pe_edit::io::pe::{parse, serialize};
use pe_edit::io::{ByteSource, MockSource, PeFile, PeSource};
use pe_edit::PeError;

fn reread(doc: &PeDocument) -> PeDocument {
    parse(&serialize(doc).unwrap()).unwrap()
}

fn message(bytes: &[u8]) -> String {
    parse(bytes).unwrap_err().message()
}

#[test]
fn mock_document_survives_a_round_trip() {
    let doc = mock::document();
    let back = reread(&doc);
    assert_eq!(back.imports, doc.imports);
    assert_eq!(back.exports, doc.exports);
    assert_eq!(back.resources, doc.resources);
    assert_eq!(back.relocations, doc.relocations);
    assert_eq!(back.tls, doc.tls);
    assert_eq!(back.load_config, doc.load_config);
    assert_eq!(back.arch, Arch::Bit64);
    assert_eq!(back.coff.machine, doc.coff.machine);
    assert_eq!(back.optional.image_base(), 0x1400_0000);
    for (a, b) in doc.sections.iter().zip(&back.sections) {
        assert_eq!(a.name_str(), b.name_str());
        assert_eq!(a.header.virtual_address, b.header.virtual_address);
        assert_eq!(a.data, b.data);
    }
}

#[test]
fn saving_again_changes_nothing() {
    let first = serialize(&mock::document()).unwrap();
    let second = serialize(&parse(&first).unwrap()).unwrap();
    assert_eq!(first, second);
}

#[test]
fn written_file_begins_with_the_headers() {
    let bytes = serialize(&mock::document()).unwrap();
    assert_eq!(&bytes[0..2], b"MZ");
    assert_eq!(&bytes[0x3c..0x40], &0x40u32.to_le_bytes());
    assert_eq!(&bytes[0x40..0x44], b"PE\0\0");
    assert_eq!(&bytes[0x44..0x46], &0x8664u16.to_le_bytes());
    assert_eq!(&bytes[0x58..0x5a], &0x20bu16.to_le_bytes());
}

#[test]
fn edited_directories_are_persisted() {
    let mut doc = mock::document();
    doc.set_tls(Some(TlsDirectory {
        start_address_of_raw_data: 0x1400_5000,
        end_address_of_raw_data: 0x1400_5010,
        address_of_index: 0x1400_5020,
        address_of_callbacks: 0x1400_5030,
        size_of_zero_fill: 7,
        characteristics: 0x0010_0000,
    }));
    doc.add_relocation_block(
        Rva(0x2000),
        vec![
            RelocationEntry { reloc_type: 10, offset: 0x123 },
            RelocationEntry { reloc_type: 0, offset: 0 },
        ],
    )
    .unwrap();
    doc.add_resource_data(16, ResourceName::Named("VER".to_string()), 0x407, vec![1, 2, 3])
        .unwrap();
    doc.set_load_config(Some(LoadConfigDirectory {
        size: 0x140,
        security_cookie: 0x1122_3344_5566_7788,
        ..LoadConfigDirectory::default()
    }));
    doc.add_import("ws2_32.dll", &[ImportFunction::by_ordinal(115), ImportFunction::by_name("send")])
        .unwrap();
    doc.add_export(ExportSymbol {
        name: Some("Third".to_string()),
        ordinal: 3,
        rva: Rva(0x1020),
        forwarder: None,
    })
    .unwrap();
    let back = reread(&doc);
    assert_eq!(back.tls, doc.tls);
    assert_eq!(back.relocations, doc.relocations);
    assert_eq!(back.resources, doc.resources);
    assert_eq!(back.load_config, doc.load_config);
    assert_eq!(back.imports, doc.imports);
    assert_eq!(back.exports, doc.exports);
}

#[test]
fn cleared_directories_are_gone_after_a_round_trip() {
    let mut doc = mock::document();
    doc.set_tls(None);
    doc.set_relocations(None);
    doc.set_resources(None);
    doc.set_load_config(None);
    doc.set_exports(None).unwrap();
    doc.imports.clear();
    let back = reread(&doc);
    assert_eq!(back.tls, None);
    assert_eq!(back.relocations, None);
    assert_eq!(back.resources, None);
    assert_eq!(back.load_config, None);
    assert_eq!(back.exports, None);
    assert!(back.imports.is_empty());
    for index in [
        DataDirectoryIndex::Export,
        DataDirectoryIndex::Import,
        DataDirectoryIndex::Resource,
        DataDirectoryIndex::BaseReloc,
        DataDirectoryIndex::Tls,
        DataDirectoryIndex::LoadConfig,
        DataDirectoryIndex::Iat,
    ] {
        assert_eq!(back.data_directory(index).unwrap().rva.get(), 0);
    }
}

#[test]
fn forwarded_export_survives() {
    let mut doc = mock::document();
    doc.add_export(ExportSymbol {
        name: Some("Fwd".to_string()),
        ordinal: 3,
        rva: Rva(0),
        forwarder: Some("ntdll.RtlAllocateHeap".to_string()),
    })
    .unwrap();
    let back = reread(&doc);
    let symbols = back.exports.unwrap().symbols;
    let fwd = symbols.iter().find(|s| s.ordinal == 3).unwrap();
    assert_eq!(fwd.forwarder.as_deref(), Some("ntdll.RtlAllocateHeap"));
    assert_eq!(fwd.name.as_deref(), Some("Fwd"));
}

#[test]
fn unnamed_exports_keep_their_slot_only() {
    let mut doc = mock::document();
    doc.add_export(ExportSymbol {
        name: None,
        ordinal: 3,
        rva: Rva(0x1020),
        forwarder: None,
    })
    .unwrap();
    let exports = reread(&doc).exports.unwrap();
    assert_eq!(exports.number_of_functions, 3);
    assert_eq!(exports.symbols, mock::document().exports.unwrap().symbols);
}

#[test]
fn disagreeing_forwarders_cannot_be_written() {
    let mut doc = mock::document();
    assert!(can_serialize(&doc));
    let mut exports = doc.exports.take().unwrap();
    exports.symbols.push(ExportSymbol {
        name: None,
        ordinal: 1,
        rva: Rva(0),
        forwarder: Some("a.b".to_string()),
    });
    doc.exports = Some(exports);
    assert!(!can_serialize(&doc));
}

#[test]
fn free_directories_are_written_verbatim() {
    let mut doc = mock::document();
    doc.data_directories[3].rva = Rva(0x1234);
    doc.data_directories[3].size = 0x56;
    let back = reread(&doc);
    assert_eq!(back.data_directories[3].rva, Rva(0x1234));
    assert_eq!(back.data_directories[3].size, 0x56);
}

#[test]
fn names_outside_ascii_survive() {
    let mut doc = mock::document();
    doc.add_import("größe.dll", &[ImportFunction::by_name("Öffnen")]).unwrap();
    doc.add_resource_data(6, ResourceName::Named("字𝄞".to_string()), 1, vec![0]).unwrap();
    let back = reread(&doc);
    assert_eq!(back.imports, doc.imports);
    assert_eq!(back.resources, doc.resources);
}

#[test]
fn parser_refuses_what_is_no_pe() {
    assert_eq!(
        message(&[]),
        "malformed PE: truncated at file offset 0x0 (need 64 bytes)"
    );
    let mut bytes = serialize(&mock::document()).unwrap();
    assert_eq!(
        message(&bytes[..0x42]),
        "malformed PE: truncated at file offset 0x40 (need 4 bytes)"
    );
    bytes[0x40] = b'X';
    assert_eq!(message(&bytes), "malformed PE: missing PE signature at 0x40");
    bytes[0] = b'X';
    assert_eq!(message(&bytes), "malformed PE: bad DOS magic");
}

#[test]
fn parser_refuses_bad_optional_headers() {
    let bytes = serialize(&mock::document()).unwrap();
    let mut magic = bytes.clone();
    magic[0x58] = 0x07;
    magic[0x59] = 0x01;
    assert_eq!(message(&magic), "malformed PE: unknown optional header magic 0x107");
    let mut small = bytes.clone();
    small[0x54] = 1;
    small[0x55] = 0;
    assert_eq!(message(&small), "malformed PE: optional header too small");
}

#[test]
fn broken_directories_read_as_empty() {
    let mut bytes = serialize(&mock::document()).unwrap();
    let doc = parse(&bytes).unwrap();
    assert!(!doc.imports.is_empty());
    // The import directory's entry stands behind the optional header's fields.
    let at = 0x58 + 112 + 8;
    bytes[at..at + 4].copy_from_slice(&0x7fff_0000u32.to_le_bytes());
    assert!(parse(&bytes).unwrap().imports.is_empty());
}

#[test]
fn section_name_with_invalid_utf8_is_shown_lossily() {
    let mut doc = mock::document();
    doc.sections[0].header.name = [0x2e, 0xff, 0x61, 0, 0, 0, 0, 0];
    assert_eq!(doc.sections[0].name_str(), ".\u{fffd}a");
    doc.sections[0].header.name = *b"12345678";
    assert_eq!(doc.sections[0].name_str(), "12345678");
}

#[test]
fn byte_source_keeps_what_was_saved() {
    let bytes = serialize(&mock::document()).unwrap();
    let mut source = ByteSource::new(bytes.clone());
    assert_eq!(source.bytes(), &bytes[..]);
    assert!(source.saved_bytes().is_empty());
    let doc = source.load().unwrap();
    source.save(&doc).unwrap();
    assert_eq!(source.saved_bytes(), bytes);
}

#[test]
fn file_facade_loads_edits_and_saves() {
    let bytes = serialize(&mock::document()).unwrap();
    let mut file = PeFile::from_bytes(bytes).unwrap();
    assert_eq!(file.doc().arch(), Arch::Bit64);
    file.doc_mut().optional.set_address_of_entry_point(Rva(0x1010));
    assert_eq!(file.doc().optional.address_of_entry_point(), Rva(0x1010));
    file.save().unwrap();

    let mut mocked = PeFile::from_source(MockSource::new()).unwrap();
    assert_eq!(mocked.doc(), &mock::document());
    mocked.save().unwrap();

    assert!(matches!(PeFile::from_bytes(vec![0; 10]), Err(PeError::Malformed(_))));
}

#[test]
fn pe32_documents_are_written_as_pe32() {
    let mut doc = mock::document();
    doc.arch = Arch::Bit32;
    let OptionalHeader::Bit64(h) = doc.optional else {
        panic!("the mock is 64-bit");
    };
    doc.optional = OptionalHeader::Bit32(pe_edit::domain::optional::OptionalHeader32 {
        magic: 0x10b,
        major_linker_version: 1,
        minor_linker_version: 2,
        size_of_code: 3,
        size_of_initialized_data: 4,
        size_of_uninitialized_data: 5,
        address_of_entry_point: h.address_of_entry_point,
        base_of_code: h.base_of_code,
        base_of_data: Rva(0x2000),
        image_base: 0x40_0000,
        section_alignment: 0x1000,
        file_alignment: 0x200,
        major_operating_system_version: 6,
        minor_operating_system_version: 0,
        major_image_version: 0,
        minor_image_version: 0,
        major_subsystem_version: 6,
        minor_subsystem_version: 0,
        win32_version_value: 0,
        size_of_image: 0,
        size_of_headers: 0,
        checksum: 0,
        subsystem: 3,
        dll_characteristics: 0,
        size_of_stack_reserve: 1,
        size_of_stack_commit: 2,
        size_of_heap_reserve: 3,
        size_of_heap_commit: 4,
        loader_flags: 0,
        number_of_rva_and_sizes: 16,
    });
    // Forms that do not fit the 64-bit layout of the mock's directories.
    doc.tls = None;
    doc.load_config = None;
    let back = reread(&doc);
    assert_eq!(back.arch, Arch::Bit32);
    assert_eq!(back.optional.image_base(), 0x40_0000);
    assert_eq!(back.imports, doc.imports);
    assert_eq!(back.exports, doc.exports);
}

fn nested(depth: usize) -> ResourceDirectory {
    let entries = if depth == 0 {
        vec![]
    } else {
        vec![ResourceEntry {
            name: ResourceName::Id(1),
            data: ResourceEntryData::Directory(nested(depth - 1)),
        }]
    };
    ResourceDirectory { entries }
}

#[test]
fn resources_that_cannot_be_rendered_are_refused() {
    let mut doc = mock::document();
    doc.set_resources(Some(nested(8)));
    assert!(serialize(&doc).is_ok());
    doc.set_resources(Some(nested(9)));
    assert_eq!(
        serialize(&doc).unwrap_err().message(),
        "invalid argument: resource tree too deep"
    );
    let mut doc = mock::document();
    let long = "x".repeat(0x1_0000);
    doc.add_resource_data(6, ResourceName::Named(long), 0, vec![1]).unwrap();
    assert_eq!(
        serialize(&doc).unwrap_err().message(),
        "invalid argument: resource name too long"
    );
}

#[test]
fn tables_past_the_address_space_are_refused() {
    let mut doc = mock::document();
    doc.optional.set_section_alignment(1);
    doc.sections[2].header.virtual_address = Rva(0xffff_0000);
    doc.sections[2].data.resize(0xfff0, 0);
    assert_eq!(
        serialize(&doc).unwrap_err().message(),
        "invalid argument: import table too large"
    );
    doc.imports.clear();
    assert_eq!(
        serialize(&doc).unwrap_err().message(),
        "invalid argument: export table too large"
    );
}

fn export(ordinal: u16, name: &str) -> ExportSymbol {
    ExportSymbol {
        name: Some(name.to_string()),
        ordinal,
        rva: Rva(0x1010),
        forwarder: None,
    }
}

#[test]
fn exports_with_gaps_are_numbered_again() {
    let mut doc = mock::document();
    doc.add_export(export(9, "Ninth")).unwrap();
    doc.add_export(export(5, "Fifth")).unwrap();
    let first = serialize(&doc).unwrap();
    let back = parse(&first).unwrap();
    let exports = back.exports.as_ref().unwrap();
    let names: Vec<_> = exports.symbols.iter().map(|s| s.name.as_deref().unwrap()).collect();
    assert_eq!(&names[2..], ["Fifth", "Ninth"]);
    let ordinals: Vec<u16> = exports.symbols.iter().map(|s| s.ordinal).collect();
    assert_eq!(ordinals, [1, 2, 3, 4]);
    assert_eq!(exports.symbols[3].rva, Rva(0x1010));
    assert_eq!(serialize(&back).unwrap(), first);
}

#[test]
fn odd_directories_leave_the_rest_alone() {
    let mut doc = mock::document();
    doc.set_tls(None);
    doc.data_directories[DataDirectoryIndex::Tls.to_usize()].rva = Rva(0x90_0000);
    doc.data_directories[DataDirectoryIndex::Tls.to_usize()].size = 3;
    doc.add_relocation_block(
        Rva(0x2001),
        vec![RelocationEntry { reloc_type: 17, offset: 0x1fff }],
    )
    .unwrap();
    doc.add_import("ws2_32.dll", &[ImportFunction::by_name("send")]).unwrap();
    doc.add_export(export(3, "Third")).unwrap();
    let first = serialize(&doc).unwrap();
    let back = parse(&first).unwrap();
    assert_ne!(back.relocations, doc.relocations);
    assert_eq!(back.imports, doc.imports);
    assert_eq!(back.exports, doc.exports);
    for (a, b) in doc.sections.iter().zip(&back.sections) {
        assert_eq!(a.header.name, b.header.name);
        assert_eq!(a.data, b.data);
    }
    assert_eq!(back.data_directories.len(), 16);
    assert_eq!(serialize(&back).unwrap(), first);
}

#[test]
fn export_table_without_symbols_is_rendered_each_time() {
    let mut doc = mock::document();
    doc.exports.as_mut().unwrap().symbols.clear();
    let first = serialize(&doc).unwrap();
    let back = parse(&first).unwrap();
    assert_eq!(back.exports.as_ref().unwrap().symbols.len(), 0);
    assert_ne!(serialize(&back).unwrap(), first);
}
