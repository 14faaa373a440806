//! The fixed records of the PE format, as the widths of their fields in file
//! order.

use crate::bytes::{layout_ok, layout_size};
use vstd::prelude::*;

verus! {

/// The fields of IMAGE_DOS_HEADER.
pub open spec fn dos_fields() -> Seq<u8> {
    seq![
        2u8, 2u8, 2u8, 2u8, 2u8, 2u8, 2u8, 2u8, 2u8, 2u8, 2u8, 2u8, 2u8, 2u8, 2u8, 2u8, 2u8, 2u8,
        2u8, 2u8, 2u8, 2u8, 2u8, 2u8, 2u8, 2u8, 2u8, 2u8, 2u8, 2u8, 4u8,
    ]
}

pub fn dos_layout() -> (r: [u8; 31])
    ensures
        r@ == dos_fields(),
        layout_ok(dos_fields()),
        layout_size(dos_fields()) == 64,
{
    let r: [u8; 31] = [
        2, 2, 2, 2, 2, 2, 2, 2, 2, 2, 2, 2, 2, 2, 2, 2, 2, 2, 2, 2, 2, 2, 2, 2, 2, 2, 2, 2, 2, 2, 4,
    ];
    proof {
        assert(r@ =~= dos_fields());
        lemma_dos_size();
    }
    r
}

pub proof fn lemma_dos_size()
    ensures
        layout_ok(dos_fields()),
        dos_fields().len() == 31,
        layout_size(dos_fields()) == 64,
{
    let ws = dos_fields();
    assert(layout_size(ws.take(0)) == 0);
    lemma_take_size(ws, 0);
    lemma_take_size(ws, 1);
    lemma_take_size(ws, 2);
    lemma_take_size(ws, 3);
    lemma_take_size(ws, 4);
    lemma_take_size(ws, 5);
    lemma_take_size(ws, 6);
    lemma_take_size(ws, 7);
    lemma_take_size(ws, 8);
    lemma_take_size(ws, 9);
    lemma_take_size(ws, 10);
    lemma_take_size(ws, 11);
    lemma_take_size(ws, 12);
    lemma_take_size(ws, 13);
    lemma_take_size(ws, 14);
    lemma_take_size(ws, 15);
    lemma_take_size(ws, 16);
    lemma_take_size(ws, 17);
    lemma_take_size(ws, 18);
    lemma_take_size(ws, 19);
    lemma_take_size(ws, 20);
    lemma_take_size(ws, 21);
    lemma_take_size(ws, 22);
    lemma_take_size(ws, 23);
    lemma_take_size(ws, 24);
    lemma_take_size(ws, 25);
    lemma_take_size(ws, 26);
    lemma_take_size(ws, 27);
    lemma_take_size(ws, 28);
    lemma_take_size(ws, 29);
    lemma_take_size(ws, 30);
    assert(ws.take(31) =~= ws);
}

/// The fields of IMAGE_FILE_HEADER.
pub open spec fn coff_fields() -> Seq<u8> {
    seq![2u8, 2u8, 4u8, 4u8, 4u8, 2u8, 2u8]
}

pub fn coff_layout() -> (r: [u8; 7])
    ensures
        r@ == coff_fields(),
        layout_ok(coff_fields()),
        layout_size(coff_fields()) == 20,
{
    let r: [u8; 7] = [2, 2, 4, 4, 4, 2, 2];
    proof {
        assert(r@ =~= coff_fields());
        lemma_coff_size();
    }
    r
}

pub proof fn lemma_coff_size()
    ensures
        layout_ok(coff_fields()),
        coff_fields().len() == 7,
        layout_size(coff_fields()) == 20,
{
    let ws = coff_fields();
    assert(layout_size(ws.take(0)) == 0);
    lemma_take_size(ws, 0);
    lemma_take_size(ws, 1);
    lemma_take_size(ws, 2);
    lemma_take_size(ws, 3);
    lemma_take_size(ws, 4);
    lemma_take_size(ws, 5);
    lemma_take_size(ws, 6);
    assert(ws.take(7) =~= ws);
}

/// The fields of IMAGE_OPTIONAL_HEADER32 up to its data directories.
pub open spec fn optional32_fields() -> Seq<u8> {
    seq![
        2u8, 1u8, 1u8, 4u8, 4u8, 4u8, 4u8, 4u8, 4u8, 4u8, 4u8, 4u8, 2u8, 2u8, 2u8, 2u8, 2u8, 2u8,
        4u8, 4u8, 4u8, 4u8, 2u8, 2u8, 4u8, 4u8, 4u8, 4u8, 4u8, 4u8,
    ]
}

pub fn optional32_layout() -> (r: [u8; 30])
    ensures
        r@ == optional32_fields(),
        layout_ok(optional32_fields()),
        layout_size(optional32_fields()) == 96,
{
    let r: [u8; 30] = [
        2, 1, 1, 4, 4, 4, 4, 4, 4, 4, 4, 4, 2, 2, 2, 2, 2, 2, 4, 4, 4, 4, 2, 2, 4, 4, 4, 4, 4, 4,
    ];
    proof {
        assert(r@ =~= optional32_fields());
        lemma_optional32_size();
    }
    r
}

pub proof fn lemma_optional32_size()
    ensures
        layout_ok(optional32_fields()),
        optional32_fields().len() == 30,
        layout_size(optional32_fields()) == 96,
{
    let ws = optional32_fields();
    assert(layout_size(ws.take(0)) == 0);
    lemma_take_size(ws, 0);
    lemma_take_size(ws, 1);
    lemma_take_size(ws, 2);
    lemma_take_size(ws, 3);
    lemma_take_size(ws, 4);
    lemma_take_size(ws, 5);
    lemma_take_size(ws, 6);
    lemma_take_size(ws, 7);
    lemma_take_size(ws, 8);
    lemma_take_size(ws, 9);
    lemma_take_size(ws, 10);
    lemma_take_size(ws, 11);
    lemma_take_size(ws, 12);
    lemma_take_size(ws, 13);
    lemma_take_size(ws, 14);
    lemma_take_size(ws, 15);
    lemma_take_size(ws, 16);
    lemma_take_size(ws, 17);
    lemma_take_size(ws, 18);
    lemma_take_size(ws, 19);
    lemma_take_size(ws, 20);
    lemma_take_size(ws, 21);
    lemma_take_size(ws, 22);
    lemma_take_size(ws, 23);
    lemma_take_size(ws, 24);
    lemma_take_size(ws, 25);
    lemma_take_size(ws, 26);
    lemma_take_size(ws, 27);
    lemma_take_size(ws, 28);
    lemma_take_size(ws, 29);
    assert(ws.take(30) =~= ws);
}

/// The fields of IMAGE_OPTIONAL_HEADER64 up to its data directories.
pub open spec fn optional64_fields() -> Seq<u8> {
    seq![
        2u8, 1u8, 1u8, 4u8, 4u8, 4u8, 4u8, 4u8, 8u8, 4u8, 4u8, 2u8, 2u8, 2u8, 2u8, 2u8, 2u8, 4u8,
        4u8, 4u8, 4u8, 2u8, 2u8, 8u8, 8u8, 8u8, 8u8, 4u8, 4u8,
    ]
}

pub fn optional64_layout() -> (r: [u8; 29])
    ensures
        r@ == optional64_fields(),
        layout_ok(optional64_fields()),
        layout_size(optional64_fields()) == 112,
{
    let r: [u8; 29] = [
        2, 1, 1, 4, 4, 4, 4, 4, 8, 4, 4, 2, 2, 2, 2, 2, 2, 4, 4, 4, 4, 2, 2, 8, 8, 8, 8, 4, 4,
    ];
    proof {
        assert(r@ =~= optional64_fields());
        lemma_optional64_size();
    }
    r
}

pub proof fn lemma_optional64_size()
    ensures
        layout_ok(optional64_fields()),
        optional64_fields().len() == 29,
        layout_size(optional64_fields()) == 112,
{
    let ws = optional64_fields();
    assert(layout_size(ws.take(0)) == 0);
    lemma_take_size(ws, 0);
    lemma_take_size(ws, 1);
    lemma_take_size(ws, 2);
    lemma_take_size(ws, 3);
    lemma_take_size(ws, 4);
    lemma_take_size(ws, 5);
    lemma_take_size(ws, 6);
    lemma_take_size(ws, 7);
    lemma_take_size(ws, 8);
    lemma_take_size(ws, 9);
    lemma_take_size(ws, 10);
    lemma_take_size(ws, 11);
    lemma_take_size(ws, 12);
    lemma_take_size(ws, 13);
    lemma_take_size(ws, 14);
    lemma_take_size(ws, 15);
    lemma_take_size(ws, 16);
    lemma_take_size(ws, 17);
    lemma_take_size(ws, 18);
    lemma_take_size(ws, 19);
    lemma_take_size(ws, 20);
    lemma_take_size(ws, 21);
    lemma_take_size(ws, 22);
    lemma_take_size(ws, 23);
    lemma_take_size(ws, 24);
    lemma_take_size(ws, 25);
    lemma_take_size(ws, 26);
    lemma_take_size(ws, 27);
    lemma_take_size(ws, 28);
    assert(ws.take(29) =~= ws);
}

/// The fields of the sixteen IMAGE_DATA_DIRECTORY entries.
pub open spec fn directories_fields() -> Seq<u8> {
    seq![
        4u8, 4u8, 4u8, 4u8, 4u8, 4u8, 4u8, 4u8, 4u8, 4u8, 4u8, 4u8, 4u8, 4u8, 4u8, 4u8, 4u8, 4u8,
        4u8, 4u8, 4u8, 4u8, 4u8, 4u8, 4u8, 4u8, 4u8, 4u8, 4u8, 4u8, 4u8, 4u8,
    ]
}

pub fn directories_layout() -> (r: [u8; 32])
    ensures
        r@ == directories_fields(),
        layout_ok(directories_fields()),
        layout_size(directories_fields()) == 128,
{
    let r: [u8; 32] = [
        4, 4, 4, 4, 4, 4, 4, 4, 4, 4, 4, 4, 4, 4, 4, 4, 4, 4, 4, 4, 4, 4, 4, 4, 4, 4, 4, 4, 4, 4, 4,
        4,
    ];
    proof {
        assert(r@ =~= directories_fields());
        lemma_directories_size();
    }
    r
}

pub proof fn lemma_directories_size()
    ensures
        layout_ok(directories_fields()),
        directories_fields().len() == 32,
        layout_size(directories_fields()) == 128,
{
    let ws = directories_fields();
    assert(layout_size(ws.take(0)) == 0);
    lemma_take_size(ws, 0);
    lemma_take_size(ws, 1);
    lemma_take_size(ws, 2);
    lemma_take_size(ws, 3);
    lemma_take_size(ws, 4);
    lemma_take_size(ws, 5);
    lemma_take_size(ws, 6);
    lemma_take_size(ws, 7);
    lemma_take_size(ws, 8);
    lemma_take_size(ws, 9);
    lemma_take_size(ws, 10);
    lemma_take_size(ws, 11);
    lemma_take_size(ws, 12);
    lemma_take_size(ws, 13);
    lemma_take_size(ws, 14);
    lemma_take_size(ws, 15);
    lemma_take_size(ws, 16);
    lemma_take_size(ws, 17);
    lemma_take_size(ws, 18);
    lemma_take_size(ws, 19);
    lemma_take_size(ws, 20);
    lemma_take_size(ws, 21);
    lemma_take_size(ws, 22);
    lemma_take_size(ws, 23);
    lemma_take_size(ws, 24);
    lemma_take_size(ws, 25);
    lemma_take_size(ws, 26);
    lemma_take_size(ws, 27);
    lemma_take_size(ws, 28);
    lemma_take_size(ws, 29);
    lemma_take_size(ws, 30);
    lemma_take_size(ws, 31);
    assert(ws.take(32) =~= ws);
}

/// The fields of IMAGE_SECTION_HEADER.
pub open spec fn section_fields() -> Seq<u8> {
    seq![1u8, 1u8, 1u8, 1u8, 1u8, 1u8, 1u8, 1u8, 4u8, 4u8, 4u8, 4u8, 4u8, 4u8, 2u8, 2u8, 4u8]
}

pub fn section_layout() -> (r: [u8; 17])
    ensures
        r@ == section_fields(),
        layout_ok(section_fields()),
        layout_size(section_fields()) == 40,
{
    let r: [u8; 17] = [1, 1, 1, 1, 1, 1, 1, 1, 4, 4, 4, 4, 4, 4, 2, 2, 4];
    proof {
        assert(r@ =~= section_fields());
        lemma_section_size();
    }
    r
}

pub proof fn lemma_section_size()
    ensures
        layout_ok(section_fields()),
        section_fields().len() == 17,
        layout_size(section_fields()) == 40,
{
    let ws = section_fields();
    assert(layout_size(ws.take(0)) == 0);
    lemma_take_size(ws, 0);
    lemma_take_size(ws, 1);
    lemma_take_size(ws, 2);
    lemma_take_size(ws, 3);
    lemma_take_size(ws, 4);
    lemma_take_size(ws, 5);
    lemma_take_size(ws, 6);
    lemma_take_size(ws, 7);
    lemma_take_size(ws, 8);
    lemma_take_size(ws, 9);
    lemma_take_size(ws, 10);
    lemma_take_size(ws, 11);
    lemma_take_size(ws, 12);
    lemma_take_size(ws, 13);
    lemma_take_size(ws, 14);
    lemma_take_size(ws, 15);
    lemma_take_size(ws, 16);
    assert(ws.take(17) =~= ws);
}

/// The fields of IMAGE_IMPORT_DESCRIPTOR.
pub open spec fn import_fields() -> Seq<u8> {
    seq![4u8, 4u8, 4u8, 4u8, 4u8]
}

pub fn import_layout() -> (r: [u8; 5])
    ensures
        r@ == import_fields(),
        layout_ok(import_fields()),
        layout_size(import_fields()) == 20,
{
    let r: [u8; 5] = [4, 4, 4, 4, 4];
    proof {
        assert(r@ =~= import_fields());
        lemma_import_size();
    }
    r
}

pub proof fn lemma_import_size()
    ensures
        layout_ok(import_fields()),
        import_fields().len() == 5,
        layout_size(import_fields()) == 20,
{
    let ws = import_fields();
    assert(layout_size(ws.take(0)) == 0);
    lemma_take_size(ws, 0);
    lemma_take_size(ws, 1);
    lemma_take_size(ws, 2);
    lemma_take_size(ws, 3);
    lemma_take_size(ws, 4);
    assert(ws.take(5) =~= ws);
}

/// The fields of IMAGE_EXPORT_DIRECTORY.
pub open spec fn export_fields() -> Seq<u8> {
    seq![4u8, 4u8, 2u8, 2u8, 4u8, 4u8, 4u8, 4u8, 4u8, 4u8, 4u8]
}

pub fn export_layout() -> (r: [u8; 11])
    ensures
        r@ == export_fields(),
        layout_ok(export_fields()),
        layout_size(export_fields()) == 40,
{
    let r: [u8; 11] = [4, 4, 2, 2, 4, 4, 4, 4, 4, 4, 4];
    proof {
        assert(r@ =~= export_fields());
        lemma_export_size();
    }
    r
}

pub proof fn lemma_export_size()
    ensures
        layout_ok(export_fields()),
        export_fields().len() == 11,
        layout_size(export_fields()) == 40,
{
    let ws = export_fields();
    assert(layout_size(ws.take(0)) == 0);
    lemma_take_size(ws, 0);
    lemma_take_size(ws, 1);
    lemma_take_size(ws, 2);
    lemma_take_size(ws, 3);
    lemma_take_size(ws, 4);
    lemma_take_size(ws, 5);
    lemma_take_size(ws, 6);
    lemma_take_size(ws, 7);
    lemma_take_size(ws, 8);
    lemma_take_size(ws, 9);
    lemma_take_size(ws, 10);
    assert(ws.take(11) =~= ws);
}

/// The fields of IMAGE_RESOURCE_DIRECTORY.
pub open spec fn resource_dir_fields() -> Seq<u8> {
    seq![4u8, 4u8, 2u8, 2u8, 2u8, 2u8]
}

pub fn resource_dir_layout() -> (r: [u8; 6])
    ensures
        r@ == resource_dir_fields(),
        layout_ok(resource_dir_fields()),
        layout_size(resource_dir_fields()) == 16,
{
    let r: [u8; 6] = [4, 4, 2, 2, 2, 2];
    proof {
        assert(r@ =~= resource_dir_fields());
        lemma_resource_dir_size();
    }
    r
}

pub proof fn lemma_resource_dir_size()
    ensures
        layout_ok(resource_dir_fields()),
        resource_dir_fields().len() == 6,
        layout_size(resource_dir_fields()) == 16,
{
    let ws = resource_dir_fields();
    assert(layout_size(ws.take(0)) == 0);
    lemma_take_size(ws, 0);
    lemma_take_size(ws, 1);
    lemma_take_size(ws, 2);
    lemma_take_size(ws, 3);
    lemma_take_size(ws, 4);
    lemma_take_size(ws, 5);
    assert(ws.take(6) =~= ws);
}

/// The fields of IMAGE_RESOURCE_DIRECTORY_ENTRY.
pub open spec fn resource_entry_fields() -> Seq<u8> {
    seq![4u8, 4u8]
}

pub fn resource_entry_layout() -> (r: [u8; 2])
    ensures
        r@ == resource_entry_fields(),
        layout_ok(resource_entry_fields()),
        layout_size(resource_entry_fields()) == 8,
{
    let r: [u8; 2] = [4, 4];
    proof {
        assert(r@ =~= resource_entry_fields());
        lemma_resource_entry_size();
    }
    r
}

pub proof fn lemma_resource_entry_size()
    ensures
        layout_ok(resource_entry_fields()),
        resource_entry_fields().len() == 2,
        layout_size(resource_entry_fields()) == 8,
{
    let ws = resource_entry_fields();
    assert(layout_size(ws.take(0)) == 0);
    lemma_take_size(ws, 0);
    lemma_take_size(ws, 1);
    assert(ws.take(2) =~= ws);
}

/// The fields of IMAGE_RESOURCE_DATA_ENTRY.
pub open spec fn resource_data_fields() -> Seq<u8> {
    seq![4u8, 4u8, 4u8, 4u8]
}

pub fn resource_data_layout() -> (r: [u8; 4])
    ensures
        r@ == resource_data_fields(),
        layout_ok(resource_data_fields()),
        layout_size(resource_data_fields()) == 16,
{
    let r: [u8; 4] = [4, 4, 4, 4];
    proof {
        assert(r@ =~= resource_data_fields());
        lemma_resource_data_size();
    }
    r
}

pub proof fn lemma_resource_data_size()
    ensures
        layout_ok(resource_data_fields()),
        resource_data_fields().len() == 4,
        layout_size(resource_data_fields()) == 16,
{
    let ws = resource_data_fields();
    assert(layout_size(ws.take(0)) == 0);
    lemma_take_size(ws, 0);
    lemma_take_size(ws, 1);
    lemma_take_size(ws, 2);
    lemma_take_size(ws, 3);
    assert(ws.take(4) =~= ws);
}

/// The fields of IMAGE_BASE_RELOCATION.
pub open spec fn reloc_fields() -> Seq<u8> {
    seq![4u8, 4u8]
}

pub fn reloc_layout() -> (r: [u8; 2])
    ensures
        r@ == reloc_fields(),
        layout_ok(reloc_fields()),
        layout_size(reloc_fields()) == 8,
{
    let r: [u8; 2] = [4, 4];
    proof {
        assert(r@ =~= reloc_fields());
        lemma_reloc_size();
    }
    r
}

pub proof fn lemma_reloc_size()
    ensures
        layout_ok(reloc_fields()),
        reloc_fields().len() == 2,
        layout_size(reloc_fields()) == 8,
{
    let ws = reloc_fields();
    assert(layout_size(ws.take(0)) == 0);
    lemma_take_size(ws, 0);
    lemma_take_size(ws, 1);
    assert(ws.take(2) =~= ws);
}

/// The fields of IMAGE_TLS_DIRECTORY32.
pub open spec fn tls32_fields() -> Seq<u8> {
    seq![4u8, 4u8, 4u8, 4u8, 4u8, 4u8]
}

pub fn tls32_layout() -> (r: [u8; 6])
    ensures
        r@ == tls32_fields(),
        layout_ok(tls32_fields()),
        layout_size(tls32_fields()) == 24,
{
    let r: [u8; 6] = [4, 4, 4, 4, 4, 4];
    proof {
        assert(r@ =~= tls32_fields());
        lemma_tls32_size();
    }
    r
}

pub proof fn lemma_tls32_size()
    ensures
        layout_ok(tls32_fields()),
        tls32_fields().len() == 6,
        layout_size(tls32_fields()) == 24,
{
    let ws = tls32_fields();
    assert(layout_size(ws.take(0)) == 0);
    lemma_take_size(ws, 0);
    lemma_take_size(ws, 1);
    lemma_take_size(ws, 2);
    lemma_take_size(ws, 3);
    lemma_take_size(ws, 4);
    lemma_take_size(ws, 5);
    assert(ws.take(6) =~= ws);
}

/// The fields of IMAGE_TLS_DIRECTORY64.
pub open spec fn tls64_fields() -> Seq<u8> {
    seq![8u8, 8u8, 8u8, 8u8, 4u8, 4u8]
}

pub fn tls64_layout() -> (r: [u8; 6])
    ensures
        r@ == tls64_fields(),
        layout_ok(tls64_fields()),
        layout_size(tls64_fields()) == 40,
{
    let r: [u8; 6] = [8, 8, 8, 8, 4, 4];
    proof {
        assert(r@ =~= tls64_fields());
        lemma_tls64_size();
    }
    r
}

pub proof fn lemma_tls64_size()
    ensures
        layout_ok(tls64_fields()),
        tls64_fields().len() == 6,
        layout_size(tls64_fields()) == 40,
{
    let ws = tls64_fields();
    assert(layout_size(ws.take(0)) == 0);
    lemma_take_size(ws, 0);
    lemma_take_size(ws, 1);
    lemma_take_size(ws, 2);
    lemma_take_size(ws, 3);
    lemma_take_size(ws, 4);
    lemma_take_size(ws, 5);
    assert(ws.take(6) =~= ws);
}

/// The fields of IMAGE_LOAD_CONFIG_DIRECTORY32.
pub open spec fn load_config32_fields() -> Seq<u8> {
    seq![
        4u8, 4u8, 2u8, 2u8, 4u8, 4u8, 4u8, 4u8, 4u8, 4u8, 4u8, 4u8, 4u8, 4u8, 2u8, 2u8, 4u8, 4u8,
        4u8, 4u8, 4u8, 4u8, 4u8, 4u8, 4u8, 2u8, 2u8, 4u8, 4u8, 4u8, 4u8, 4u8, 4u8, 4u8, 4u8, 4u8,
        4u8, 4u8, 2u8, 2u8, 4u8, 4u8, 4u8, 4u8, 4u8, 4u8, 4u8, 4u8, 4u8, 4u8, 4u8, 4u8,
    ]
}

pub fn load_config32_layout() -> (r: [u8; 52])
    ensures
        r@ == load_config32_fields(),
        layout_ok(load_config32_fields()),
        layout_size(load_config32_fields()) == 192,
{
    let r: [u8; 52] = [
        4, 4, 2, 2, 4, 4, 4, 4, 4, 4, 4, 4, 4, 4, 2, 2, 4, 4, 4, 4, 4, 4, 4, 4, 4, 2, 2, 4, 4, 4, 4,
        4, 4, 4, 4, 4, 4, 4, 2, 2, 4, 4, 4, 4, 4, 4, 4, 4, 4, 4, 4, 4,
    ];
    proof {
        assert(r@ =~= load_config32_fields());
        lemma_load_config32_size();
    }
    r
}

pub proof fn lemma_load_config32_size()
    ensures
        layout_ok(load_config32_fields()),
        load_config32_fields().len() == 52,
        layout_size(load_config32_fields()) == 192,
{
    let ws = load_config32_fields();
    assert(layout_size(ws.take(0)) == 0);
    lemma_take_size(ws, 0);
    lemma_take_size(ws, 1);
    lemma_take_size(ws, 2);
    lemma_take_size(ws, 3);
    lemma_take_size(ws, 4);
    lemma_take_size(ws, 5);
    lemma_take_size(ws, 6);
    lemma_take_size(ws, 7);
    lemma_take_size(ws, 8);
    lemma_take_size(ws, 9);
    lemma_take_size(ws, 10);
    lemma_take_size(ws, 11);
    lemma_take_size(ws, 12);
    lemma_take_size(ws, 13);
    lemma_take_size(ws, 14);
    lemma_take_size(ws, 15);
    lemma_take_size(ws, 16);
    lemma_take_size(ws, 17);
    lemma_take_size(ws, 18);
    lemma_take_size(ws, 19);
    lemma_take_size(ws, 20);
    lemma_take_size(ws, 21);
    lemma_take_size(ws, 22);
    lemma_take_size(ws, 23);
    lemma_take_size(ws, 24);
    lemma_take_size(ws, 25);
    lemma_take_size(ws, 26);
    lemma_take_size(ws, 27);
    lemma_take_size(ws, 28);
    lemma_take_size(ws, 29);
    lemma_take_size(ws, 30);
    lemma_take_size(ws, 31);
    lemma_take_size(ws, 32);
    lemma_take_size(ws, 33);
    lemma_take_size(ws, 34);
    lemma_take_size(ws, 35);
    lemma_take_size(ws, 36);
    lemma_take_size(ws, 37);
    lemma_take_size(ws, 38);
    lemma_take_size(ws, 39);
    lemma_take_size(ws, 40);
    lemma_take_size(ws, 41);
    lemma_take_size(ws, 42);
    lemma_take_size(ws, 43);
    lemma_take_size(ws, 44);
    lemma_take_size(ws, 45);
    lemma_take_size(ws, 46);
    lemma_take_size(ws, 47);
    lemma_take_size(ws, 48);
    lemma_take_size(ws, 49);
    lemma_take_size(ws, 50);
    lemma_take_size(ws, 51);
    assert(ws.take(52) =~= ws);
}

/// The fields of IMAGE_LOAD_CONFIG_DIRECTORY64.
pub open spec fn load_config64_fields() -> Seq<u8> {
    seq![
        4u8, 4u8, 2u8, 2u8, 4u8, 4u8, 4u8, 8u8, 8u8, 8u8, 8u8, 8u8, 8u8, 4u8, 2u8, 2u8, 8u8, 8u8,
        8u8, 8u8, 8u8, 8u8, 8u8, 8u8, 4u8, 2u8, 2u8, 4u8, 4u8, 8u8, 8u8, 8u8, 8u8, 8u8, 8u8, 8u8,
        8u8, 4u8, 2u8, 2u8, 8u8, 4u8, 4u8, 8u8, 8u8, 8u8, 8u8, 8u8, 8u8, 8u8, 8u8, 8u8,
    ]
}

pub fn load_config64_layout() -> (r: [u8; 52])
    ensures
        r@ == load_config64_fields(),
        layout_ok(load_config64_fields()),
        layout_size(load_config64_fields()) == 320,
{
    let r: [u8; 52] = [
        4, 4, 2, 2, 4, 4, 4, 8, 8, 8, 8, 8, 8, 4, 2, 2, 8, 8, 8, 8, 8, 8, 8, 8, 4, 2, 2, 4, 4, 8, 8,
        8, 8, 8, 8, 8, 8, 4, 2, 2, 8, 4, 4, 8, 8, 8, 8, 8, 8, 8, 8, 8,
    ];
    proof {
        assert(r@ =~= load_config64_fields());
        lemma_load_config64_size();
    }
    r
}

pub proof fn lemma_load_config64_size()
    ensures
        layout_ok(load_config64_fields()),
        load_config64_fields().len() == 52,
        layout_size(load_config64_fields()) == 320,
{
    let ws = load_config64_fields();
    assert(layout_size(ws.take(0)) == 0);
    lemma_take_size(ws, 0);
    lemma_take_size(ws, 1);
    lemma_take_size(ws, 2);
    lemma_take_size(ws, 3);
    lemma_take_size(ws, 4);
    lemma_take_size(ws, 5);
    lemma_take_size(ws, 6);
    lemma_take_size(ws, 7);
    lemma_take_size(ws, 8);
    lemma_take_size(ws, 9);
    lemma_take_size(ws, 10);
    lemma_take_size(ws, 11);
    lemma_take_size(ws, 12);
    lemma_take_size(ws, 13);
    lemma_take_size(ws, 14);
    lemma_take_size(ws, 15);
    lemma_take_size(ws, 16);
    lemma_take_size(ws, 17);
    lemma_take_size(ws, 18);
    lemma_take_size(ws, 19);
    lemma_take_size(ws, 20);
    lemma_take_size(ws, 21);
    lemma_take_size(ws, 22);
    lemma_take_size(ws, 23);
    lemma_take_size(ws, 24);
    lemma_take_size(ws, 25);
    lemma_take_size(ws, 26);
    lemma_take_size(ws, 27);
    lemma_take_size(ws, 28);
    lemma_take_size(ws, 29);
    lemma_take_size(ws, 30);
    lemma_take_size(ws, 31);
    lemma_take_size(ws, 32);
    lemma_take_size(ws, 33);
    lemma_take_size(ws, 34);
    lemma_take_size(ws, 35);
    lemma_take_size(ws, 36);
    lemma_take_size(ws, 37);
    lemma_take_size(ws, 38);
    lemma_take_size(ws, 39);
    lemma_take_size(ws, 40);
    lemma_take_size(ws, 41);
    lemma_take_size(ws, 42);
    lemma_take_size(ws, 43);
    lemma_take_size(ws, 44);
    lemma_take_size(ws, 45);
    lemma_take_size(ws, 46);
    lemma_take_size(ws, 47);
    lemma_take_size(ws, 48);
    lemma_take_size(ws, 49);
    lemma_take_size(ws, 50);
    lemma_take_size(ws, 51);
    assert(ws.take(52) =~= ws);
}

proof fn lemma_take_size(ws: Seq<u8>, i: int)
    requires
        0 <= i < ws.len(),
    ensures
        layout_size(ws.take(i + 1)) == layout_size(ws.take(i)) + ws[i],
{
    assert(ws.take(i + 1).drop_last() =~= ws.take(i));
}

} // verus!
