//! Scanning for an IAT and moving it.

use pe_edit::api::iat_scanner::{find_displacement, find_new_slot, find_target, keep_length};
use pe_edit::api::{IatScanner, ImportResolver};
use pe_edit::disasm::{Insn, InsnKind};
use pe_edit::domain::{
    DataDirectoryIndex, IatEntry, IatTable, PeDocument, Rva, ScanMethod, ScanOptions,
};
use pe_edit::io::mock;
use pe_edit::io::{MockResolver, MOCK_APIS_BASE, MOCK_IAT_RVA};

fn with(method: ScanMethod) -> ScanOptions {
    ScanOptions {
        method,
        ..ScanOptions::default()
    }
}

fn expected() -> Vec<IatEntry> {
    (0..6u64)
        .map(|i| IatEntry {
            rva: Rva(MOCK_IAT_RVA + 8 * i as u32),
            value: MOCK_APIS_BASE + 0x100 * i,
        })
        .collect()
}

fn failure(doc: &PeDocument, options: &ScanOptions) -> String {
    doc.scan(&MockResolver::new(), options).unwrap_err().message()
}

#[test]
fn resolver_hands_out_addresses_in_order() {
    let r = MockResolver::new();
    assert_eq!(r.address_of("kernel32.dll", "GetProcAddress"), Some(MOCK_APIS_BASE));
    assert_eq!(r.address_of("user32.dll", "MessageBoxA"), Some(MOCK_APIS_BASE + 0x500));
    assert_eq!(r.address_of("user32.dll", "GetProcAddress"), None);
    let found = r.resolve(MOCK_APIS_BASE + 0x500).unwrap();
    assert_eq!(found.module, "user32.dll");
    assert_eq!(found.function.name(), Some("MessageBoxA"));
    assert!(r.resolve(MOCK_APIS_BASE + 0x501).is_none());
    assert!(r.resolve(MOCK_APIS_BASE + 0x600).is_none());
    assert!(r.resolve(MOCK_APIS_BASE - 0x100).is_none());
}

#[test]
fn resolver_scan_finds_the_run() {
    let scan = mock::document()
        .scan(&MockResolver::new(), &with(ScanMethod::Resolver))
        .unwrap();
    assert_eq!(scan.base_rva, Rva(MOCK_IAT_RVA));
    assert_eq!(scan.size, 6);
    assert_eq!(scan.entries, expected());
}

#[test]
fn resolver_scan_needs_enough_entries() {
    let options = ScanOptions {
        min_entries: 7,
        ..ScanOptions::default()
    };
    assert!(failure(&mock::document(), &options)
        .starts_with("not found: no IAT run with >= 7"));
    let mut empty = mock::document();
    empty.sections.clear();
    assert_eq!(
        failure(&empty, &ScanOptions::default()),
        "not found: image has no mappable data"
    );
}

#[test]
fn code_scan_finds_the_referenced_slots() {
    let scan = mock::document()
        .scan(&MockResolver::new(), &with(ScanMethod::CodeReference))
        .unwrap();
    assert_eq!(scan.base_rva, Rva(MOCK_IAT_RVA));
    assert_eq!(scan.entries, expected());
}

#[test]
fn code_scan_reports_too_few_slots() {
    let mut doc = mock::document();
    doc.sections[0].data = vec![0x90; 0x100];
    assert_eq!(
        failure(&doc, &with(ScanMethod::CodeReference)),
        "not found: no IAT slot referenced by code (and resolvable)"
    );
    let options = ScanOptions {
        min_entries: 7,
        ..with(ScanMethod::CodeReference)
    };
    assert!(failure(&mock::document(), &options)
        .starts_with("not found: only 6 IAT slots referenced by code (need >= 7"));
}

#[test]
fn reflection_scan_reads_the_iat_directory() {
    let mut doc = mock::document();
    doc.data_directories[DataDirectoryIndex::Import.to_usize()].rva = Rva(0);
    let scan = doc
        .scan(&MockResolver::new(), &with(ScanMethod::Reflection))
        .unwrap();
    assert_eq!(scan.entries, expected());
    doc.data_directories[DataDirectoryIndex::Iat.to_usize()].rva = Rva(0);
    assert_eq!(
        failure(&doc, &with(ScanMethod::Reflection)),
        "not found: neither an import directory nor an IAT data directory to reflect"
    );
}

#[test]
fn moved_slots_are_followed_by_the_code() {
    let mut doc = mock::document();
    let before = doc.sections.clone();
    let mapping = [
        (Rva(MOCK_IAT_RVA), Rva(0x2040)),
        (Rva(MOCK_IAT_RVA + 8), Rva(0x2048)),
        (Rva(0x7777_0000), Rva(0x2050)),
    ];
    assert_eq!(doc.remap_iat_references(&mapping).unwrap(), 2);
    let text = &doc.sections[0].data;
    assert_eq!(text.len(), before[0].data.len());
    // call [rip+disp]: the displacement counts from the next instruction.
    assert_eq!(&text[..2], &[0xff, 0x15]);
    assert_eq!(&text[2..6], &(0x2040u32 - 0x1006).to_le_bytes());
    assert_eq!(&text[8..11], &[0x48, 0x8b, 0x05]);
    assert_eq!(&text[11..15], &(0x2048u32 - 0x100f).to_le_bytes());
    // The other references stay.
    assert_eq!(&text[16..], &before[0].data[16..]);
    assert_eq!(doc.sections[1], before[1]);
}

#[test]
fn moving_no_slot_changes_nothing() {
    let mut doc = mock::document();
    assert_eq!(doc.remap_iat_references(&[]).unwrap(), 0);
    assert_eq!(doc, mock::document());
    assert_eq!(
        doc.remap_iat_references(&[(Rva(0x5000), Rva(0x6000))]).unwrap(),
        0
    );
    assert_eq!(doc, mock::document());
}

#[test]
fn curated_table_collects_and_sorts_entries() {
    let doc = mock::document();
    let mut table = IatTable::new();
    table.add_region(&doc, Rva(MOCK_IAT_RVA), 16).unwrap();
    assert_eq!(table.entries(), &expected()[..2]);
    table.add(IatEntry { rva: Rva(0x10), value: 1 });
    table.add(IatEntry { rva: Rva(0x10), value: 2 });
    let scan = table.to_scan();
    assert_eq!(scan.base_rva, Rva(0x10));
    assert_eq!(scan.entries.len(), 3);
    table.remove(Rva(0x10));
    assert_eq!(table.len(), 3);
    table.remove(Rva(0x10));
    table.remove(Rva(0x10));
    assert_eq!(table.len(), 2);
    table.clear();
    assert!(table.is_empty());
    assert_eq!(
        table.add_region(&doc, Rva(0xffff_fff8), 24).unwrap_err().message(),
        "invalid argument: read: RVA 0xfffffff8 not mapped"
    );
    // A region that runs over the top of the address space.
    let mut high = mock::document();
    high.sections[2].header.virtual_address = Rva(0xffff_ffc0);
    assert_eq!(
        table.add_region(&high, Rva(0xffff_ffe0), 48).unwrap_err().message(),
        "invalid argument: add_region: region RVA overflow"
    );
}

fn instruction(kind: InsnKind) -> Insn {
    Insn {
        len: 6,
        kind,
        ip_relative: true,
        ip_target: 0x2080,
        memory_operands: vec![true],
        has_base: false,
        has_index: false,
        displacement: 0x2080,
    }
}

#[test]
fn references_name_their_slot() {
    let base = 0x40_0000;
    assert_eq!(find_target(&instruction(InsnKind::Call), base), Some(0x2080));
    assert_eq!(find_target(&instruction(InsnKind::Other), base), None);
    let far = Insn { ip_target: 0x1_0000_0000, ..instruction(InsnKind::Jmp) };
    assert_eq!(find_target(&far, base), None);
    let absolute = |displacement, has_base| Insn {
        ip_relative: false,
        displacement,
        has_base,
        ..instruction(InsnKind::Mov)
    };
    assert_eq!(find_target(&absolute(0x40_2080, false), base), Some(0x2080));
    assert_eq!(find_target(&absolute(0x40_2080, true), base), None);
    assert_eq!(find_target(&absolute(0x2080, false), base), None);
    let register = Insn { memory_operands: vec![false], ..absolute(0x40_2080, false) };
    assert_eq!(find_target(&register, base), None);
}

#[test]
fn moved_references_get_the_new_address() {
    let mapping = [(Rva(0x2080), Rva(1)), (Rva(0x2088), Rva(2)), (Rva(0x2080), Rva(3))];
    assert_eq!(find_new_slot(&mapping, 0x2080), Some(3));
    assert_eq!(find_new_slot(&mapping, 0x2090), None);
    let relative = instruction(InsnKind::Lea);
    assert_eq!(find_displacement(&relative, 0x40_0000, &mapping), Some(3));
    let absolute = Insn { ip_relative: false, displacement: 0x40_2088, ..relative };
    assert_eq!(find_displacement(&absolute, 0x40_0000, &mapping), Some(0x40_0002));
    assert_eq!(keep_length(Some(vec![1, 2]), 2), Some(vec![1, 2]));
    assert_eq!(keep_length(Some(vec![1, 2]), 3), None);
    assert_eq!(keep_length(None, 0), None);
}

#[test]
fn slots_have_to_be_aligned_data_that_resolves() {
    let doc = mock::document();
    let resolver = MockResolver::new();
    let options = ScanOptions::default();
    assert_eq!(doc.find_slot(MOCK_IAT_RVA, &resolver, &options), Some(expected()[0]));
    assert_eq!(doc.find_slot(MOCK_IAT_RVA + 1, &resolver, &options), None);
    assert_eq!(doc.find_slot(0x1000, &resolver, &options), None);
    assert_eq!(doc.find_slot(0x2000, &resolver, &options), None);
    let lenient = ScanOptions { validate_slots: false, ..options };
    let zero = IatEntry { rva: Rva(0x2000), value: 0 };
    assert_eq!(doc.find_slot(0x2000, &resolver, &lenient), Some(zero));
}

#[test]
fn resolver_scan_prefers_the_first_of_the_longest_runs() {
    let a = MOCK_APIS_BASE;
    let mut doc = mock::document();
    let base = doc.sections[2].header.virtual_address;
    let slots = [a, a, 0, 0, a, 1, a, a, a, 1, a, a, a];
    doc.sections[2].data = slots.iter().flat_map(|v| v.to_le_bytes()).collect();
    let options = |gap| ScanOptions {
        region: Some((base, 8 * slots.len())),
        min_entries: 3,
        max_null_gap: gap,
        ..with(ScanMethod::Resolver)
    };
    let found = |gap| -> Vec<u32> {
        let scan = doc.scan(&MockResolver::new(), &options(gap)).unwrap();
        assert_eq!(scan.base_rva, scan.entries[0].rva);
        scan.entries.iter().map(|e| (e.rva.get() - base.get()) / 8).collect()
    };
    assert_eq!(found(2), vec![0, 1, 4]);
    assert_eq!(found(1), vec![6, 7, 8]);
    assert_eq!(found(0), vec![6, 7, 8]);
}
