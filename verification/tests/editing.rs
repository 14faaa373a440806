//! The capability traits on a document.

use pe_edit::api::{
    DirectoryEditor, ExportTableEditor, ImportTableEditor, PeEditor, PeViewer,
};
use pe_edit::domain::{
    DataDirectoryIndex, ExportSymbol, ExportTable, ImportDescriptor, ImportFunction, RawOffset,
    RelocationTable, ResourceDataEntry, ResourceDirectory, ResourceEntry, ResourceEntryData,
    ResourceName, Rva,
};
use pe_edit::io::mock;
use pe_edit::io::pe::{parse, serialize};
use pe_edit::PeError;

fn text(e: PeError) -> String {
    e.message()
}

fn symbol(ordinal: u16, name: &str) -> ExportSymbol {
    ExportSymbol {
        name: Some(name.to_string()),
        ordinal,
        rva: Rva(0x1000),
        forwarder: None,
    }
}

#[test]
fn viewer_shows_the_parts_of_the_document() {
    let doc = mock::document();
    assert_eq!(doc.dos_header().e_magic, 0x5a4d);
    assert_eq!(doc.coff_header().number_of_sections, 3);
    assert_eq!(doc.optional_header().section_alignment(), 0x1000);
    assert_eq!(PeViewer::sections(&doc).len(), 3);
    assert_eq!(PeViewer::imports(&doc)[1].name, "user32.dll");
    assert_eq!(PeViewer::exports(&doc).unwrap().symbols.len(), 2);
    assert_eq!(PeViewer::resources(&doc).unwrap().entries.len(), 1);
    assert_eq!(PeViewer::relocations(&doc).unwrap().blocks.len(), 1);
    assert_eq!(PeViewer::tls(&doc).unwrap().size_of_zero_fill, 0);
    assert_eq!(PeViewer::load_config(&doc).unwrap().guard_cf_function_count, 5);
    assert_eq!(doc.rva_to_raw(Rva(0x1004)).unwrap(), RawOffset(0x204));
    assert_eq!(doc.raw_to_rva(RawOffset(0x404)).unwrap(), Rva(0x2004));
    assert_eq!(PeViewer::read(&doc, Rva(0x1000), 2).unwrap(), &[0xff, 0x15]);
}

#[test]
fn unmapped_places_are_reported() {
    let mut doc = mock::document();
    assert_eq!(
        text(doc.rva_to_raw(Rva(0x9000)).unwrap_err()),
        "invalid argument: rva_to_raw: RVA 0x9000 not mapped"
    );
    assert_eq!(
        text(doc.raw_to_rva(RawOffset(0x9000)).unwrap_err()),
        "invalid argument: raw_to_rva: offset 0x9000 not mapped"
    );
    assert_eq!(
        text(doc.read(Rva(0x9000), 1).unwrap_err()),
        "invalid argument: read: RVA 0x9000 not mapped"
    );
    assert_eq!(
        text(doc.read(Rva(0x10ff), 2).unwrap_err()),
        "invalid argument: read: RVA 0x10ff len 2 exceeds section"
    );
    assert_eq!(
        text(doc.write(Rva(0x10ff), &[1, 2]).unwrap_err()),
        "invalid argument: write: RVA 0x10ff len 2 exceeds section"
    );
    doc.data_directories.clear();
    assert_eq!(
        text(doc.data_directory(DataDirectoryIndex::BaseReloc).unwrap_err()),
        "invalid argument: data_directory: no entry for BaseReloc"
    );
}

#[test]
fn what_is_written_is_read() {
    let mut doc = mock::document();
    doc.write(Rva(0x2010), &[9, 8, 7]).unwrap();
    assert_eq!(doc.read(Rva(0x2010), 3).unwrap(), &[9, 8, 7]);
    assert_eq!(doc.read(Rva(0x2013), 1).unwrap(), &[0]);
}

#[test]
fn sections_are_added_and_removed() {
    let mut doc = mock::document();
    let before = doc.sections.clone();
    let id = doc.add_section(*b".new\0\0\0\0", 0x4000_0040, vec![1, 2, 3]).unwrap();
    assert_eq!(id, 3);
    let new = &doc.sections[3];
    assert_eq!(new.header.virtual_address, Rva(0x4000));
    assert_eq!(new.header.virtual_size, 3);
    assert_eq!(new.header.size_of_raw_data, 0);
    assert_eq!(new.data, vec![1, 2, 3]);
    doc.remove_section(3).unwrap();
    assert_eq!(doc.sections, before);
    assert_eq!(
        text(doc.remove_section(3).unwrap_err()),
        "invalid argument: remove_section: no section #3"
    );
    doc.remove_section(2).unwrap();
    doc.remove_section(1).unwrap();
    assert_eq!(
        text(doc.remove_section(0).unwrap_err()),
        "invalid argument: remove_section: cannot remove the last section"
    );
}

#[test]
fn allocation_appends_zeros() {
    let mut doc = mock::document();
    let rva = doc.allocate(0x10, 0x1000).unwrap();
    assert_eq!(rva, Rva(0x4000));
    assert_eq!(doc.read(rva, 0x10).unwrap(), &[0; 0x10]);
    assert_eq!(doc.sections[3].name_str(), ".pefix");
}

#[test]
fn data_directories_grow_when_set() {
    let mut doc = mock::document();
    doc.data_directories.clear();
    doc.set_data_directory(DataDirectoryIndex::Resource, Rva(0x10), 0x20).unwrap();
    assert_eq!(doc.data_directories.len(), 3);
    let dd = doc.data_directory(DataDirectoryIndex::Resource).unwrap();
    assert_eq!((dd.rva, dd.size), (Rva(0x10), 0x20));
    assert_eq!(doc.data_directories[0].rva, Rva(0));
}

#[test]
fn exports_are_added_replaced_and_removed() {
    let mut doc = mock::document();
    doc.set_exports(None).unwrap();
    assert_eq!(
        text(doc.remove_export(1).unwrap_err()),
        "not found: remove_export: no export table"
    );
    doc.add_export(symbol(5, "five")).unwrap();
    doc.add_export(symbol(6, "six")).unwrap();
    doc.add_export(symbol(5, "cinq")).unwrap();
    let table: &ExportTable = doc.exports.as_ref().unwrap();
    assert_eq!(table.number_of_functions, 2);
    assert_eq!(table.base, 0);
    assert_eq!(table.symbols[0].name.as_deref(), Some("cinq"));
    assert_eq!(
        text(doc.remove_export(7).unwrap_err()),
        "not found: remove_export: no export at ordinal 7"
    );
    doc.remove_export(5).unwrap();
    assert_eq!(doc.exports.as_ref().unwrap().symbols.len(), 1);
    doc.remove_export(6).unwrap();
    assert_eq!(doc.exports, None);
}

#[test]
fn imports_are_merged_without_duplicates() {
    let mut doc = mock::document();
    assert_eq!(
        text(doc.add_import("", &[]).unwrap_err()),
        "invalid argument: add_import: empty module name"
    );
    let more = [
        ImportFunction::by_name("MessageBoxA"),
        ImportFunction::by_name("MessageBoxW"),
        ImportFunction::by_name("MessageBoxW"),
    ];
    doc.add_import("user32.dll", &more).unwrap();
    assert_eq!(doc.imports[1].functions.len(), 2);
    let once = doc.imports.clone();
    doc.add_import("user32.dll", &more).unwrap();
    assert_eq!(doc.imports, once);
    doc.add_import("USER32.dll", &more).unwrap();
    assert_eq!(doc.imports.len(), 3);
    doc.remove_import("user32.dll").unwrap();
    assert_eq!(doc.imports.len(), 2);
    assert_eq!(
        text(doc.remove_import("user32.dll").unwrap_err()),
        "invalid argument: remove_import: no import 'user32.dll'"
    );
}

#[test]
fn rebuilt_import_table_stands_in_the_image() {
    let mut doc = mock::document();
    assert_eq!(
        text(doc.rebuild_import_table(&[]).unwrap_err()),
        "invalid argument: rebuild_import_table: no descriptors"
    );
    let descriptors = vec![ImportDescriptor::new(
        "a.dll",
        vec![ImportFunction::by_name("f"), ImportFunction::by_ordinal(7)],
    )];
    let table = doc.rebuild_import_table(&descriptors).unwrap();
    assert_eq!(table.rva, Rva(0x4000));
    assert_eq!(doc.imports, descriptors);
    let dir = doc.data_directory(DataDirectoryIndex::Import).unwrap();
    assert_eq!((dir.rva, dir.size), (table.rva, table.size));
    let iat = doc.data_directory(DataDirectoryIndex::Iat).unwrap();
    assert_eq!((iat.rva, iat.size), (table.iat_rva, table.iat_size));
    assert_eq!(table.iat_size, 24);
    assert_eq!(table.thunk_values.len(), 2);
    assert_eq!(table.thunk_values[1], 0x8000_0000_0000_0007);
    let hint = doc.read(Rva(table.thunk_values[0] as u32), 4).unwrap();
    assert_eq!(hint, &[0, 0, b'f', 0]);
}

#[test]
fn import_table_is_rebuilt_over_existing_slots() {
    let mut doc = mock::document();
    let descriptors = vec![
        ImportDescriptor::new("a.dll", vec![ImportFunction::by_name("f")]),
        ImportDescriptor::new("b.dll", vec![ImportFunction::by_ordinal(2)]),
    ];
    doc.sections[1].header.characteristics = 0x4000_0040;
    let slots = vec![vec![Rva(0x2080)], vec![Rva(0x2090)]];
    let table = doc.rebuild_import_table_in_place(&descriptors, &slots).unwrap();
    assert_eq!(table.iat_rva, Rva(0x2080));
    assert_eq!(table.iat_size, 16);
    let first = doc.read(Rva(0x2080), 8).unwrap();
    assert_eq!(first, &table.thunk_values[0].to_le_bytes());
    let second = doc.read(Rva(0x2090), 8).unwrap();
    assert_eq!(second, &0x8000_0000_0000_0002u64.to_le_bytes());
    // FirstThunk of the second descriptor.
    let field = doc.read(Rva(table.rva.get() + 36), 4).unwrap();
    assert_eq!(field, &0x2090u32.to_le_bytes());
    assert_eq!(doc.sections[1].header.characteristics, 0xc000_0040);
    // The table stands in the image, so that saving renders no other.
    let back = parse(&serialize(&doc).unwrap()).unwrap();
    assert_eq!(back.imports, descriptors);
    assert!(back.sections.iter().all(|s| s.name_str() != ".peimp"));
}

#[test]
fn rebuilding_over_slots_needs_matching_counts() {
    let mut doc = mock::document();
    assert_eq!(
        text(doc.rebuild_import_table_in_place(&[], &[]).unwrap_err()),
        "invalid argument: rebuild_import_table_in_place: no descriptors"
    );
    let descriptors = vec![ImportDescriptor::new("a.dll", vec![ImportFunction::by_name("f")])];
    assert_eq!(
        text(doc.rebuild_import_table_in_place(&descriptors, &[]).unwrap_err()),
        "invalid argument: rebuild_import_table_in_place: descriptor/slot count mismatch"
    );
}

#[test]
fn relocation_blocks_are_added_and_removed() {
    let mut doc = mock::document();
    assert_eq!(
        text(doc.remove_relocation_block(1).unwrap_err()),
        "invalid argument: remove_relocation_block: no block #1"
    );
    doc.remove_relocation_block(0).unwrap();
    assert_eq!(doc.relocations, Some(RelocationTable { blocks: vec![] }));
    doc.set_relocations(None);
    assert_eq!(
        text(doc.remove_relocation_block(0).unwrap_err()),
        "not found: no relocation table"
    );
    doc.add_relocation_block(Rva(0x1000), vec![]).unwrap();
    assert_eq!(doc.relocations_mut().unwrap().blocks[0].page_rva, Rva(0x1000));
}

#[test]
fn directories_can_be_edited_in_place() {
    let mut doc = mock::document();
    doc.tls_mut().unwrap().size_of_zero_fill = 9;
    assert_eq!(doc.tls.unwrap().size_of_zero_fill, 9);
    doc.load_config_mut().unwrap().guard_flags = 1;
    assert_eq!(doc.load_config.unwrap().guard_flags, 1);
    doc.resources_mut().unwrap().entries.clear();
    assert!(doc.resources.as_ref().unwrap().entries.is_empty());
    doc.set_tls(None);
    assert!(doc.tls_mut().is_none());
}

#[test]
fn resources_are_added_and_replaced() {
    let mut doc = mock::document();
    assert_eq!(
        text(doc.add_resource_data(1, ResourceName::Id(1), 0, vec![]).unwrap_err()),
        "invalid argument: add_resource_data: empty data"
    );
    let first = doc.add_resource_data(3, ResourceName::Id(1), 0x409, vec![1, 2]).unwrap();
    let second = doc.add_resource_data(3, ResourceName::Id(1), 0x409, vec![3, 4, 5]).unwrap();
    assert_ne!(first, second);
    assert_eq!(doc.read(second, 3).unwrap(), &[3, 4, 5]);
    let root = doc.resources.as_ref().unwrap();
    assert_eq!(root.entries.len(), 2);
    let ResourceEntryData::Directory(names) = &root.entries[1].data else {
        panic!("a type is a directory");
    };
    let ResourceEntryData::Directory(langs) = &names.entries[0].data else {
        panic!("a name is a directory");
    };
    assert_eq!(langs.entries.len(), 1);
    let leaf = ResourceDataEntry { rva: second, size: 3, code_page: 0 };
    assert_eq!(langs.entries[0].data, ResourceEntryData::Leaf(leaf));
}

#[test]
fn resources_of_the_wrong_shape_are_refused() {
    let leaf = ResourceEntryData::Leaf(ResourceDataEntry { rva: Rva(0), size: 0, code_page: 0 });
    let entry = |name: u32, data| ResourceEntry { name: ResourceName::Id(name), data };
    let mut doc = mock::document();
    doc.set_resources(Some(ResourceDirectory { entries: vec![entry(3, leaf)] }));
    assert_eq!(
        text(doc.add_resource_data(3, ResourceName::Id(1), 0, vec![1]).unwrap_err()),
        "invalid argument: resource name already a leaf"
    );
    assert_eq!(
        text(doc.remove_resource(3, &ResourceName::Id(1)).unwrap_err()),
        "invalid argument: resource type entry is a leaf"
    );
    let empty = || ResourceEntryData::Directory(ResourceDirectory { entries: vec![] });
    let lang = ResourceDirectory { entries: vec![entry(0, empty())] };
    let name = ResourceDirectory { entries: vec![entry(1, ResourceEntryData::Directory(lang))] };
    doc.set_resources(Some(ResourceDirectory {
        entries: vec![entry(3, ResourceEntryData::Directory(name))],
    }));
    assert_eq!(
        text(doc.add_resource_data(3, ResourceName::Id(1), 0, vec![1]).unwrap_err()),
        "invalid argument: resource name already a directory"
    );
}

#[test]
fn resources_are_removed_with_their_empty_type() {
    let mut doc = mock::document();
    doc.add_resource_data(24, ResourceName::Named("a\"b".to_string()), 0, vec![1]).unwrap();
    assert_eq!(
        text(doc.remove_resource(9, &ResourceName::Id(1)).unwrap_err()),
        "not found: resource type 9 not found"
    );
    assert_eq!(
        text(doc.remove_resource(24, &ResourceName::Id(2)).unwrap_err()),
        "not found: resource Id(2) not found under type 24"
    );
    assert_eq!(
        text(doc.remove_resource(24, &ResourceName::Named("c\"d".to_string())).unwrap_err()),
        "not found: resource Named(\"c\\\"d\") not found under type 24"
    );
    doc.remove_resource(24, &ResourceName::Id(1)).unwrap();
    assert_eq!(doc.resources.as_ref().unwrap().entries.len(), 1);
    doc.remove_resource(24, &ResourceName::Named("a\"b".to_string())).unwrap();
    assert!(doc.resources.as_ref().unwrap().entries.is_empty());
    doc.set_resources(None);
    assert_eq!(
        text(doc.remove_resource(24, &ResourceName::Id(1)).unwrap_err()),
        "not found: no resource table"
    );
}

#[test]
fn errors_name_their_kind() {
    assert_eq!(PeError::NotImplemented("x").message(), "not implemented yet: x");
    assert_eq!(PeError::Unsupported("x".to_string()).message(), "unsupported: x");
    assert_eq!(PeError::Io("x".to_string()).message(), "I/O error: x");
}
