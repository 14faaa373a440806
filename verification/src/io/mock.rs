//! Mock adapter: a deterministic in-memory PE and resolver, used to exercise
//! the outer API without a real file.
//!
//! [`MockSource`] serves a 64-bit [`PeDocument`] with three sections (`.text`,
//! `.idata`, `.rsrc`), a known import table and a contiguous IAT pointer array
//! at a known RVA. [`MockResolver`] maps a fixed address range to those
//! imports. Tests reference the public constants here instead of hardcoding
//! values.

use crate::api::importer::function_total;
use crate::api::resolver::{ImportResolver, ResolvedImport, ResolvedImportModel};
use crate::bytes::{le_bytes, lemma_le_bytes_len, patch, push_le, splice, zero_bytes, zeros};
use crate::domain::coff::{CoffHeader, IMAGE_FILE_EXECUTABLE_IMAGE};
use crate::domain::data_directory::DataDirectory;
use crate::domain::document::{DocModel, PeDocument};
use crate::domain::dos::{DosHeader, DosModel, DOS_MAGIC};
use crate::domain::export::{ExportSymbol, ExportSymbolModel, ExportTable, ExportTableModel};
use crate::domain::import::{
    lemma_views_push, views, ImportDescriptor, ImportDescriptorModel, ImportFunction,
    ImportFunctionModel,
};
use crate::domain::load_config::{
    LoadConfigDirectory, IMAGE_GUARD_CF_ENABLE_EXPORT_SUPPRESSION,
    IMAGE_GUARD_CF_FUNCTION_TABLE_PRESENT, IMAGE_GUARD_CF_INSTRUMENTED,
};
use crate::domain::optional::{
    OptionalHeader, OptionalHeader64, IMAGE_SUBSYSTEM_WINDOWS_CUI, PE32_PLUS_MAGIC,
};
use crate::domain::relocation::{
    RelocationBlock, RelocationBlockModel, RelocationEntry, RelocationTable,
    IMAGE_REL_BASED_HIGHLOW,
};
use crate::domain::resource::{
    ResourceDataEntry, ResourceDataModel, ResourceDirectory, ResourceEntry, ResourceEntryData,
    ResourceEntryModel, ResourceName, ResourceNameModel, RT_MANIFEST,
};
use crate::domain::section::{
    Section, SectionHeader, SectionModel, IMAGE_SCN_CNT_CODE, IMAGE_SCN_CNT_INITIALIZED_DATA,
    IMAGE_SCN_MEM_EXECUTE, IMAGE_SCN_MEM_READ, IMAGE_SCN_MEM_WRITE,
};
use crate::domain::tls::TlsDirectory;
use crate::domain::types::{Arch, Machine, RawOffset, Rva};
use crate::error::{PeErrorModel, PeResult};
use crate::io::pe::directory_render::{load_config_bytes, render_load_config};
use crate::io::source::PeSource;
use vstd::prelude::*;
use vstd::string::*;

verus! {

/// Image base of the mock executable.
pub const MOCK_IMAGE_BASE: u64 = 0x1400_0000;

/// First address handed out by the mock resolver.
pub const MOCK_APIS_BASE: u64 = 0x1800_0000;

/// RVA of the `.text` section.
pub const MOCK_TEXT_RVA: u32 = 0x1000;

/// RVA of the `.idata` section.
pub const MOCK_IDATA_RVA: u32 = 0x2000;

/// Offset of the IAT array inside `.idata`.
pub const MOCK_IAT_OFFSET_IN_IDATA: usize = 0x80;

/// RVA of the first IAT slot.
pub const MOCK_IAT_RVA: u32 = 0x2080;

pub const MOCK_SECTION_ALIGNMENT: u32 = 0x1000;

pub const MOCK_FILE_ALIGNMENT: u32 = 0x200;

/// RVA of the `.rsrc` section (holds resource / relocation / TLS data).
pub const MOCK_RSRC_RVA: u32 = 0x3000;

/// An import by name, with hint 0.
pub open spec fn named(name: Seq<char>) -> ImportFunctionModel {
    ImportFunctionModel::Name(0, name)
}

/// The functions the mock document imports from its first module.
pub open spec fn mock_kernel_functions() -> Seq<ImportFunctionModel> {
    seq![
        named("GetProcAddress"@),
        named("LoadLibraryA"@),
        named("VirtualAlloc"@),
        named("WriteProcessMemory"@),
        named("ExitProcess"@),
    ]
}

/// The canonical import table the mock document carries.
#[verifier::opaque]
pub open spec fn mock_import_table() -> Seq<ImportDescriptorModel> {
    seq![
        ImportDescriptorModel {
            name: "kernel32.dll"@,
            functions: mock_kernel_functions(),
        },
        ImportDescriptorModel { name: "user32.dll"@, functions: seq![named("MessageBoxA"@)] },
    ]
}

/// The canonical import table the mock document carries.
pub fn mock_imports() -> (r: Vec<ImportDescriptor>)
    ensures
        views(r@) == mock_import_table(),
{
    proof {
        reveal(mock_import_table);
    }
    let mut kernel: Vec<ImportFunction> = Vec::new();
    kernel.push(ImportFunction::by_name("GetProcAddress"));
    kernel.push(ImportFunction::by_name("LoadLibraryA"));
    kernel.push(ImportFunction::by_name("VirtualAlloc"));
    kernel.push(ImportFunction::by_name("WriteProcessMemory"));
    kernel.push(ImportFunction::by_name("ExitProcess"));
    assert(views(kernel@) =~= mock_kernel_functions());
    let mut user: Vec<ImportFunction> = Vec::new();
    user.push(ImportFunction::by_name("MessageBoxA"));
    assert(views(user@) =~= seq![named("MessageBoxA"@)]);
    let mut r: Vec<ImportDescriptor> = Vec::new();
    r.push(ImportDescriptor::new("kernel32.dll", kernel));
    r.push(ImportDescriptor::new("user32.dll", user));
    assert(views(r@) =~= mock_import_table());
    r
}

/// A module's functions as `(module, function)` pairs.
pub open spec fn module_pairs(d: ImportDescriptorModel) -> Seq<ResolvedImportModel> {
    Seq::new(
        d.functions.len(),
        |k: int| ResolvedImportModel { module: d.name, function: d.functions[k] },
    )
}

/// The first `n` modules as flattened `(module, function)` pairs, in order.
pub open spec fn flattened(im: Seq<ImportDescriptorModel>, n: nat) -> Seq<ResolvedImportModel>
    decreases n,
{
    if n == 0 {
        Seq::empty()
    } else {
        flattened(im, (n - 1) as nat) + module_pairs(im[n - 1])
    }
}

/// There is one pair for every function.
pub proof fn flattened_len(im: Seq<ImportDescriptorModel>, n: nat)
    ensures
        flattened(im, n).len() == function_total(im, n),
    decreases n,
{
    if n > 0 {
        flattened_len(im, (n - 1) as nat);
    }
}

/// An import table as flattened `(module, function)` pairs, in the same order
/// the resolver hands out addresses.
fn flatten(imports: &[ImportDescriptor]) -> (r: Vec<ResolvedImport>)
    ensures
        views(r@) == flattened(views(imports@), imports@.len()),
{
    let ghost im = views(imports@);
    let mut r: Vec<ResolvedImport> = Vec::new();
    let mut m: usize = 0;
    assert(views(r@) =~= Seq::empty());
    while m < imports.len()
        invariant
            m <= imports.len(),
            im == views(imports@),
            views(r@) == flattened(im, m as nat),
        decreases imports.len() - m,
    {
        let d: &ImportDescriptor = &imports[m];
        assert(im[m as int] == d@);
        let ghost before = views(r@);
        let mut k: usize = 0;
        assert(before + module_pairs(d@).take(0) =~= before);
        while k < d.functions.len()
            invariant
                k <= d.functions.len(),
                views(r@) == before + module_pairs(d@).take(k as int),
            decreases d.functions.len() - k,
        {
            let x = ResolvedImport {
                module: d.name.clone(),
                function: d.functions[k].clone(),
            };
            proof {
                lemma_views_push(r@, x);
                assert(module_pairs(d@)[k as int] == x@);
            }
            r.push(x);
            k = k + 1;
            assert(views(r@) =~= before + module_pairs(d@).take(k as int));
        }
        assert(module_pairs(d@).take(k as int) =~= module_pairs(d@));
        m = m + 1;
    }
    r
}

/// Overwrite `w` bytes at `off` with a number.
fn put(b: &mut Vec<u8>, off: usize, w: usize, v: u64)
    requires
        w <= 8,
        off + w <= old(b)@.len(),
    ensures
        final(b)@ == splice(old(b)@, off as int, le_bytes(w as nat, v as nat)),
        final(b)@.len() == old(b)@.len(),
{
    let mut n: Vec<u8> = Vec::new();
    push_le(&mut n, w, v);
    proof {
        assert(n@ =~= le_bytes(w as nat, v as nat));
        lemma_le_bytes_len(w as nat, v as nat);
    }
    patch(b, off, n.as_slice());
}

/// The instruction that refers to IAT slot `i`: `call [rip+disp]` for even
/// slots, `mov rax, [rip+disp]` for odd ones. It stands 8 bytes after that of
/// the slot before, as the slots do.
pub open spec fn mock_instruction(i: int) -> Seq<u8> {
    let distance = MOCK_IAT_RVA - MOCK_TEXT_RVA;
    if i % 2 == 0 {
        seq![0xffu8, 0x15] + le_bytes(4, (distance - 6) as nat)
    } else {
        seq![0x48u8, 0x8b, 0x05] + le_bytes(4, (distance - 7) as nat)
    }
}

/// The bytes of `.text` with the first `n` instructions: a NOP sled with
/// instructions that reference the IAT slots, so the code-reference scanner can
/// locate the IAT from code references.
#[verifier::opaque]
pub open spec fn mock_text_bytes(n: nat) -> Seq<u8>
    decreases n,
{
    if n == 0 {
        Seq::new(0x100, |i: int| 0x90u8)
    } else {
        splice(mock_text_bytes((n - 1) as nat), 8 * (n - 1), mock_instruction(n - 1))
    }
}

/// The bytes of `.idata` with the first `n` IAT slots.
#[verifier::opaque]
pub open spec fn mock_idata_bytes(n: nat) -> Seq<u8>
    decreases n,
{
    if n == 0 {
        zeros(0x100)
    } else {
        splice(
            mock_idata_bytes((n - 1) as nat),
            MOCK_IAT_OFFSET_IN_IDATA + 8 * (n - 1),
            le_bytes(8, (MOCK_APIS_BASE + 0x100 * (n - 1)) as nat),
        )
    }
}

/// The manifest resource's text as bytes.
pub open spec fn mock_manifest() -> Seq<u8> {
    seq![
        0x3cu8, 0x61, 0x73, 0x73, 0x65, 0x6d, 0x62, 0x6c, 0x79, 0x20, 0x6d, 0x61,
        0x6e, 0x69, 0x66, 0x65, 0x73, 0x74, 0x56, 0x65, 0x72, 0x73, 0x69, 0x6f,
        0x6e, 0x3d, 0x22, 0x31, 0x2e, 0x30, 0x22, 0x3e, 0x3c, 0x2f, 0x61, 0x73,
        0x73, 0x65, 0x6d, 0x62, 0x6c, 0x79, 0x3e,
    ]
}

/// The load configuration the mock document carries.
#[verifier::opaque]
pub open spec fn mock_load_config() -> LoadConfigDirectory {
    LoadConfigDirectory {
        size: 0x140,
        time_date_stamp: 0x5c0a_1234,
        major_version: 0,
        minor_version: 0,
        global_flags_clear: 0,
        global_flags_set: 0x8000_0000,
        security_cookie: 0x1400_2000,
        se_handler_table: 0,
        se_handler_count: 0,
        guard_cf_check_function_pointer: 0x1400_3000,
        guard_cf_dispatch_function_pointer: 0x1400_3008,
        guard_cf_function_table: 0x1400_3100,
        guard_cf_function_count: 5,
        guard_flags: IMAGE_GUARD_CF_INSTRUMENTED | IMAGE_GUARD_CF_FUNCTION_TABLE_PRESENT
            | IMAGE_GUARD_CF_ENABLE_EXPORT_SUPPRESSION,
        guard_address_taken_iat_entry_table: 0x1400_3120,
        guard_address_taken_iat_entry_count: 2,
        guard_long_jump_target_table: 0x1400_3140,
        guard_long_jump_target_count: 3,
        guard_eh_continuation_table: 0x1400_3160,
        guard_eh_continuation_count: 4,
        guard_xfg_check_function_pointer: 0x1400_3180,
        guard_xfg_dispatch_function_pointer: 0x1400_3188,
        chpe_metadata_pointer: 0,
        hot_patch_table_offset: 0x100,
    }
}

/// The front of `.rsrc`: a resource tree with the manifest as its one leaf.
/// Each directory has one entry, whose type, name and language stand behind
/// the directory's header.
#[verifier::opaque]
pub open spec fn mock_resource_tree_bytes() -> Seq<u8> {
    let b = zeros(0x300);
    let b = splice(b, 0xe, le_bytes(2, 1));
    let b = splice(b, 0x10, le_bytes(4, RT_MANIFEST as nat));
    let b = splice(b, 0x14, le_bytes(4, 0x8000_0020));
    let b = splice(b, 0x2e, le_bytes(2, 1));
    let b = splice(b, 0x30, le_bytes(4, 1));
    let b = splice(b, 0x34, le_bytes(4, 0x8000_0040));
    let b = splice(b, 0x4e, le_bytes(2, 1));
    let b = splice(b, 0x50, le_bytes(4, 0x409));
    let b = splice(b, 0x54, le_bytes(4, 0x60));
    let b = splice(b, 0x60, le_bytes(4, (MOCK_RSRC_RVA + 0x70) as nat));
    let b = splice(b, 0x64, le_bytes(4, 43));
    splice(b, 0x70, mock_manifest())
}

/// The bytes of `.rsrc`: the resource tree, a base relocation block with one
/// HIGHLOW entry at 0xa0, the TLS directory at 0xc0 with its template at 0x100
/// and its index slot at 0x110, and the load configuration at 0x140.
#[verifier::opaque]
pub open spec fn mock_rsrc_bytes() -> Seq<u8> {
    let b = mock_resource_tree_bytes();
    let b = splice(b, 0xa0, le_bytes(4, 0x1000));
    let b = splice(b, 0xa4, le_bytes(4, 10));
    let b = splice(b, 0xa8, le_bytes(2, 0x3010));
    let b = splice(b, 0xc0, le_bytes(8, (MOCK_IMAGE_BASE + MOCK_RSRC_RVA + 0x100) as nat));
    let b = splice(b, 0xc8, le_bytes(8, (MOCK_IMAGE_BASE + MOCK_RSRC_RVA + 0x104) as nat));
    let b = splice(b, 0xd0, le_bytes(8, (MOCK_IMAGE_BASE + MOCK_RSRC_RVA + 0x110) as nat));
    let b = splice(b, 0x100, le_bytes(4, 0x2a));
    splice(b, 0x140, load_config_bytes(mock_load_config(), Arch::Bit64))
}

/// The bytes of `.text`.
fn text_section_bytes() -> (b: Vec<u8>)
    ensures
        b@ == mock_text_bytes(6),
        b@.len() == 0x100,
{
    proof {
        reveal(mock_text_bytes);
    }
    let mut b: Vec<u8> = vec![0x90u8; 0x100];
    assert(b@ =~= mock_text_bytes(0));
    let mut i: usize = 0;
    while i < 6
        invariant
            i <= 6,
            b@ == mock_text_bytes(i as nat),
            b@.len() == 0x100,
        decreases 6 - i,
    {
        let mut insn: Vec<u8> = Vec::new();
        if i % 2 == 0 {
            insn.push(0xff);
            insn.push(0x15);
            push_le(&mut insn, 4, (MOCK_IAT_RVA - MOCK_TEXT_RVA - 6) as u64);
        } else {
            insn.push(0x48);
            insn.push(0x8b);
            insn.push(0x05);
            push_le(&mut insn, 4, (MOCK_IAT_RVA - MOCK_TEXT_RVA - 7) as u64);
        }
        proof {
            lemma_le_bytes_len(4, (MOCK_IAT_RVA - MOCK_TEXT_RVA - 6) as nat);
            lemma_le_bytes_len(4, (MOCK_IAT_RVA - MOCK_TEXT_RVA - 7) as nat);
            assert(insn@ =~= mock_instruction(i as int));
        }
        reveal(mock_text_bytes);
        patch(&mut b, 8 * i, insn.as_slice());
        i = i + 1;
    }
    b
}

/// The bytes of `.idata`.
fn idata_section_bytes(slots: usize) -> (b: Vec<u8>)
    requires
        slots <= 16,
    ensures
        b@ == mock_idata_bytes(slots as nat),
        b@.len() == 0x100,
{
    proof {
        reveal(mock_idata_bytes);
    }
    let mut b: Vec<u8> = zero_bytes(0x100);
    let mut i: usize = 0;
    while i < slots
        invariant
            i <= slots,
            slots <= 16,
            b@ == mock_idata_bytes(i as nat),
            b@.len() == 0x100,
        decreases slots - i,
    {
        reveal(mock_idata_bytes);
        put(&mut b, MOCK_IAT_OFFSET_IN_IDATA + 8 * i, 8, MOCK_APIS_BASE + 0x100 * i as u64);
        i = i + 1;
    }
    b
}

/// The load configuration the mock document carries.
fn load_config() -> (r: LoadConfigDirectory)
    ensures
        r == mock_load_config(),
{
    proof {
        reveal(mock_load_config);
    }
    LoadConfigDirectory {
        size: 0x140,
        time_date_stamp: 0x5c0a_1234,
        major_version: 0,
        minor_version: 0,
        global_flags_clear: 0,
        global_flags_set: 0x8000_0000,
        security_cookie: 0x1400_2000,
        se_handler_table: 0,
        se_handler_count: 0,
        guard_cf_check_function_pointer: 0x1400_3000,
        guard_cf_dispatch_function_pointer: 0x1400_3008,
        guard_cf_function_table: 0x1400_3100,
        guard_cf_function_count: 5,
        guard_flags: IMAGE_GUARD_CF_INSTRUMENTED | IMAGE_GUARD_CF_FUNCTION_TABLE_PRESENT
            | IMAGE_GUARD_CF_ENABLE_EXPORT_SUPPRESSION,
        guard_address_taken_iat_entry_table: 0x1400_3120,
        guard_address_taken_iat_entry_count: 2,
        guard_long_jump_target_table: 0x1400_3140,
        guard_long_jump_target_count: 3,
        guard_eh_continuation_table: 0x1400_3160,
        guard_eh_continuation_count: 4,
        guard_xfg_check_function_pointer: 0x1400_3180,
        guard_xfg_dispatch_function_pointer: 0x1400_3188,
        chpe_metadata_pointer: 0,
        hot_patch_table_offset: 0x100,
    }
}

/// The front of `.rsrc`.
fn resource_tree_bytes() -> (b: Vec<u8>)
    ensures
        b@ == mock_resource_tree_bytes(),
        b@.len() == 0x300,
{
    proof {
        reveal(mock_resource_tree_bytes);
    }
    let manifest: [u8; 43] = [
        0x3c, 0x61, 0x73, 0x73, 0x65, 0x6d, 0x62, 0x6c, 0x79, 0x20, 0x6d, 0x61,
        0x6e, 0x69, 0x66, 0x65, 0x73, 0x74, 0x56, 0x65, 0x72, 0x73, 0x69, 0x6f,
        0x6e, 0x3d, 0x22, 0x31, 0x2e, 0x30, 0x22, 0x3e, 0x3c, 0x2f, 0x61, 0x73,
        0x73, 0x65, 0x6d, 0x62, 0x6c, 0x79, 0x3e,
    ];
    assert(manifest@ =~= mock_manifest());
    let mut b: Vec<u8> = zero_bytes(0x300);
    put(&mut b, 0xe, 2, 1);
    put(&mut b, 0x10, 4, RT_MANIFEST as u64);
    put(&mut b, 0x14, 4, 0x8000_0020);
    put(&mut b, 0x2e, 2, 1);
    put(&mut b, 0x30, 4, 1);
    put(&mut b, 0x34, 4, 0x8000_0040);
    put(&mut b, 0x4e, 2, 1);
    put(&mut b, 0x50, 4, 0x409);
    put(&mut b, 0x54, 4, 0x60);
    put(&mut b, 0x60, 4, MOCK_RSRC_RVA as u64 + 0x70);
    put(&mut b, 0x64, 4, 43);
    patch(&mut b, 0x70, &manifest);
    b
}

/// The bytes of `.rsrc`.
fn rsrc_section_bytes() -> (b: Vec<u8>)
    ensures
        b@ == mock_rsrc_bytes(),
        b@.len() == 0x300,
{
    proof {
        reveal(mock_rsrc_bytes);
    }
    let mut b: Vec<u8> = resource_tree_bytes();
    put(&mut b, 0xa0, 4, 0x1000);
    put(&mut b, 0xa4, 4, 10);
    put(&mut b, 0xa8, 2, 0x3010);
    put(&mut b, 0xc0, 8, MOCK_IMAGE_BASE + MOCK_RSRC_RVA as u64 + 0x100);
    put(&mut b, 0xc8, 8, MOCK_IMAGE_BASE + MOCK_RSRC_RVA as u64 + 0x104);
    put(&mut b, 0xd0, 8, MOCK_IMAGE_BASE + MOCK_RSRC_RVA as u64 + 0x110);
    put(&mut b, 0x100, 4, 0x2a);
    let lc = render_load_config(&load_config(), Arch::Bit64);
    patch(&mut b, 0x140, lc.as_slice());
    b
}

/// The three sections of the mock document.
#[verifier::opaque]
pub open spec fn mock_sections() -> Seq<SectionModel> {
    seq![
        SectionModel {
            header: SectionHeader {
                name: [46, 116, 101, 120, 116, 0, 0, 0],
                virtual_size: 0x100,
                virtual_address: Rva(MOCK_TEXT_RVA),
                size_of_raw_data: 0x200,
                pointer_to_raw_data: RawOffset(0x200),
                characteristics: IMAGE_SCN_CNT_CODE | IMAGE_SCN_MEM_EXECUTE | IMAGE_SCN_MEM_READ,
            },
            data: mock_text_bytes(6),
        },
        SectionModel {
            header: SectionHeader {
                name: [46, 105, 100, 97, 116, 97, 0, 0],
                virtual_size: 0x100,
                virtual_address: Rva(MOCK_IDATA_RVA),
                size_of_raw_data: 0x200,
                pointer_to_raw_data: RawOffset(0x400),
                characteristics: IMAGE_SCN_CNT_INITIALIZED_DATA | IMAGE_SCN_MEM_READ
                    | IMAGE_SCN_MEM_WRITE,
            },
            data: mock_idata_bytes(6),
        },
        SectionModel {
            header: SectionHeader {
                name: [46, 114, 115, 114, 99, 0, 0, 0],
                virtual_size: 0x300,
                virtual_address: Rva(MOCK_RSRC_RVA),
                size_of_raw_data: 0x200,
                pointer_to_raw_data: RawOffset(0x600),
                characteristics: IMAGE_SCN_CNT_INITIALIZED_DATA | IMAGE_SCN_MEM_READ,
            },
            data: mock_rsrc_bytes(),
        },
    ]
}

fn sections() -> (r: Vec<Section>)
    ensures
        views(r@) == mock_sections(),
{
    proof {
        reveal(mock_sections);
    }
    let text_name: [u8; 8] = [46, 116, 101, 120, 116, 0, 0, 0];
    let idata_name: [u8; 8] = [46, 105, 100, 97, 116, 97, 0, 0];
    let rsrc_name: [u8; 8] = [46, 114, 115, 114, 99, 0, 0, 0];
    let text = Section {
        header: SectionHeader {
            name: text_name,
            virtual_size: 0x100,
            virtual_address: Rva(MOCK_TEXT_RVA),
            size_of_raw_data: 0x200,
            pointer_to_raw_data: RawOffset(0x200),
            characteristics: IMAGE_SCN_CNT_CODE | IMAGE_SCN_MEM_EXECUTE | IMAGE_SCN_MEM_READ,
        },
        data: text_section_bytes(),
    };
    let idata = Section {
        header: SectionHeader {
            name: idata_name,
            virtual_size: 0x100,
            virtual_address: Rva(MOCK_IDATA_RVA),
            size_of_raw_data: 0x200,
            pointer_to_raw_data: RawOffset(0x400),
            characteristics: IMAGE_SCN_CNT_INITIALIZED_DATA | IMAGE_SCN_MEM_READ
                | IMAGE_SCN_MEM_WRITE,
        },
        data: idata_section_bytes(6),
    };
    let rsrc = Section {
        header: SectionHeader {
            name: rsrc_name,
            virtual_size: 0x300,
            virtual_address: Rva(MOCK_RSRC_RVA),
            size_of_raw_data: 0x200,
            pointer_to_raw_data: RawOffset(0x600),
            characteristics: IMAGE_SCN_CNT_INITIALIZED_DATA | IMAGE_SCN_MEM_READ,
        },
        data: rsrc_section_bytes(),
    };
    let mut r: Vec<Section> = Vec::new();
    r.push(text);
    r.push(idata);
    r.push(rsrc);
    proof {
        let wanted: [u8; 8] = [46, 116, 101, 120, 116, 0, 0, 0];
        assert(text_name =~= wanted);
        let wanted: [u8; 8] = [46, 105, 100, 97, 116, 97, 0, 0];
        assert(idata_name =~= wanted);
        let wanted: [u8; 8] = [46, 114, 115, 114, 99, 0, 0, 0];
        assert(rsrc_name =~= wanted);
        assert(views(r@) =~= mock_sections());
    }
    r
}

/// One directory entry.
pub open spec fn entry(rva: u32, size: u32) -> DataDirectory {
    DataDirectory { rva: Rva(rva), size }
}

/// The data directories of the mock document.
#[verifier::opaque]
pub open spec fn mock_directories() -> Seq<DataDirectory> {
    seq![
        entry(0, 0),
        entry(0x2000, 0x80),
        entry(0x3000, 0x80),
        entry(0, 0),
        entry(0, 0),
        entry(0x30a0, 0x1c),
        entry(0, 0),
        entry(0, 0),
        entry(0, 0),
        entry(0x30c0, 0x30),
        entry(0x3140, 0x140),
        entry(0, 0),
        entry(0x2080, 48),
        entry(0, 0),
        entry(0, 0),
        entry(0, 0),
    ]
}

fn directories() -> (r: Vec<DataDirectory>)
    ensures
        r@ == mock_directories(),
{
    proof {
        reveal(mock_directories);
    }
    let mut r: Vec<DataDirectory> = vec![DataDirectory { rva: Rva(0), size: 0 }; 16];
    r.set(1, DataDirectory { rva: Rva(MOCK_IDATA_RVA), size: 0x80 });
    r.set(12, DataDirectory { rva: Rva(MOCK_IAT_RVA), size: 48 });
    r.set(2, DataDirectory { rva: Rva(MOCK_RSRC_RVA), size: 0x80 });
    r.set(5, DataDirectory { rva: Rva(MOCK_RSRC_RVA + 0xa0), size: 0x1c });
    r.set(9, DataDirectory { rva: Rva(MOCK_RSRC_RVA + 0xc0), size: 0x30 });
    r.set(10, DataDirectory { rva: Rva(MOCK_RSRC_RVA + 0x140), size: 0x140 });
    assert(r@ =~= mock_directories());
    r
}

/// The exports of the mock document.
#[verifier::opaque]
pub open spec fn mock_exports() -> ExportTableModel {
    ExportTableModel {
        module_name: Some("mock.exe"@),
        base: 1,
        number_of_functions: 2,
        symbols: seq![
            ExportSymbolModel {
                name: Some("Start"@),
                ordinal: 1,
                rva: Rva(MOCK_TEXT_RVA),
                forwarder: None,
            },
            ExportSymbolModel {
                name: Some("DumpMe"@),
                ordinal: 2,
                rva: Rva(0x1010),
                forwarder: None,
            },
        ],
    }
}

fn exports() -> (r: ExportTable)
    ensures
        r@ == mock_exports(),
{
    proof {
        reveal(mock_exports);
    }
    let mut symbols: Vec<ExportSymbol> = Vec::new();
    symbols.push(
        ExportSymbol {
            name: Some("Start".to_owned()),
            ordinal: 1,
            rva: Rva(MOCK_TEXT_RVA),
            forwarder: None,
        },
    );
    symbols.push(
        ExportSymbol {
            name: Some("DumpMe".to_owned()),
            ordinal: 2,
            rva: Rva(MOCK_TEXT_RVA + 0x10),
            forwarder: None,
        },
    );
    assert(views(symbols@) =~= mock_exports().symbols);
    ExportTable {
        module_name: Some("mock.exe".to_owned()),
        base: 1,
        number_of_functions: 2,
        symbols,
    }
}

/// A directory with one entry.
pub open spec fn only(id: u32, data: ResourceDataModel) -> Seq<ResourceEntryModel> {
    seq![ResourceEntryModel { name: ResourceNameModel::Id(id), data }]
}

/// The resources of the mock document.
#[verifier::opaque]
pub open spec fn mock_resources() -> Seq<ResourceEntryModel> {
    let leaf = ResourceDataModel::Leaf(
        ResourceDataEntry { rva: Rva(0x3070), size: 43, code_page: 0 },
    );
    only(
        RT_MANIFEST,
        ResourceDataModel::Directory(only(1, ResourceDataModel::Directory(only(0x409, leaf)))),
    )
}

/// A directory with one entry.
fn only_entry(id: u32, data: ResourceEntryData) -> (r: ResourceDirectory)
    ensures
        r@ == only(id, data@),
{
    let mut entries: Vec<ResourceEntry> = Vec::new();
    entries.push(ResourceEntry { name: ResourceName::Id(id), data });
    let r = ResourceDirectory { entries };
    assert(r@ =~= only(id, data@));
    r
}

fn resources() -> (r: ResourceDirectory)
    ensures
        r@ == mock_resources(),
{
    proof {
        reveal(mock_resources);
    }
    let leaf = ResourceEntryData::Leaf(
        ResourceDataEntry { rva: Rva(MOCK_RSRC_RVA + 0x70), size: 43, code_page: 0 },
    );
    let lang = ResourceEntryData::Directory(only_entry(0x409, leaf));
    let name = ResourceEntryData::Directory(only_entry(1, lang));
    only_entry(RT_MANIFEST, name)
}

/// The base relocations of the mock document.
#[verifier::opaque]
pub open spec fn mock_relocations() -> Seq<RelocationBlockModel> {
    seq![
        RelocationBlockModel {
            page_rva: Rva(0x1000),
            entries: seq![
                RelocationEntry { reloc_type: IMAGE_REL_BASED_HIGHLOW, offset: 0x10 },
            ],
        },
    ]
}

fn relocations() -> (r: RelocationTable)
    ensures
        r@ == mock_relocations(),
{
    proof {
        reveal(mock_relocations);
    }
    let mut entries: Vec<RelocationEntry> = Vec::new();
    entries.push(RelocationEntry { reloc_type: IMAGE_REL_BASED_HIGHLOW, offset: 0x10 });
    let b = RelocationBlock { page_rva: Rva(0x1000), entries };
    assert(b@ =~= mock_relocations()[0]);
    let mut blocks: Vec<RelocationBlock> = Vec::new();
    blocks.push(b);
    let r = RelocationTable { blocks };
    assert(r@ =~= mock_relocations());
    r
}

/// The COFF header of the mock document.
pub open spec fn mock_coff() -> CoffHeader {
    CoffHeader {
        machine: Machine::Amd64,
        number_of_sections: 3,
        time_date_stamp: 0x5c0a_1234,
        pointer_to_symbol_table: 0,
        number_of_symbols: 0,
        size_of_optional_header: 0xf0,
        characteristics: IMAGE_FILE_EXECUTABLE_IMAGE,
    }
}

/// The optional header of the mock document.
#[verifier::opaque]
pub open spec fn mock_optional() -> OptionalHeader {
    OptionalHeader::Bit64(
        OptionalHeader64 {
            magic: PE32_PLUS_MAGIC,
            major_linker_version: 14,
            minor_linker_version: 0,
            size_of_code: 0x100,
            size_of_initialized_data: 0x100,
            size_of_uninitialized_data: 0,
            address_of_entry_point: Rva(MOCK_TEXT_RVA),
            base_of_code: Rva(MOCK_TEXT_RVA),
            image_base: MOCK_IMAGE_BASE,
            section_alignment: MOCK_SECTION_ALIGNMENT,
            file_alignment: MOCK_FILE_ALIGNMENT,
            major_operating_system_version: 6,
            minor_operating_system_version: 0,
            major_image_version: 0,
            minor_image_version: 0,
            major_subsystem_version: 6,
            minor_subsystem_version: 0,
            win32_version_value: 0,
            size_of_image: 0x4000,
            size_of_headers: 0x200,
            checksum: 0,
            subsystem: IMAGE_SUBSYSTEM_WINDOWS_CUI,
            dll_characteristics: 0,
            size_of_stack_reserve: 0x100000,
            size_of_stack_commit: 0x1000,
            size_of_heap_reserve: 0x100000,
            size_of_heap_commit: 0x1000,
            loader_flags: 0,
            number_of_rva_and_sizes: 16,
        },
    )
}

/// The TLS directory of the mock document.
pub open spec fn mock_tls() -> TlsDirectory {
    TlsDirectory {
        start_address_of_raw_data: 0x1400_3100,
        end_address_of_raw_data: 0x1400_3104,
        address_of_index: 0x1400_3110,
        address_of_callbacks: 0,
        size_of_zero_fill: 0,
        characteristics: 0,
    }
}

/// The document the mock serves.
pub open spec fn mock_document() -> DocModel {
    DocModel {
        arch: Arch::Bit64,
        dos: DosModel {
            words: Seq::new(30, |i: int| 0u16).update(0, DOS_MAGIC),
            e_lfanew: 0x40,
            stub: Seq::empty(),
        },
        coff: mock_coff(),
        optional: mock_optional(),
        sections: mock_sections(),
        data_directories: mock_directories(),
        imports: mock_import_table(),
        exports: Some(mock_exports()),
        resources: Some(mock_resources()),
        relocations: Some(mock_relocations()),
        tls: Some(mock_tls()),
        load_config: Some(mock_load_config()),
    }
}

fn optional_header() -> (r: OptionalHeader)
    ensures
        r == mock_optional(),
{
    proof {
        reveal(mock_optional);
    }
    OptionalHeader::Bit64(
        OptionalHeader64 {
            magic: PE32_PLUS_MAGIC,
            major_linker_version: 14,
            minor_linker_version: 0,
            size_of_code: 0x100,
            size_of_initialized_data: 0x100,
            size_of_uninitialized_data: 0,
            address_of_entry_point: Rva(MOCK_TEXT_RVA),
            base_of_code: Rva(MOCK_TEXT_RVA),
            image_base: MOCK_IMAGE_BASE,
            section_alignment: MOCK_SECTION_ALIGNMENT,
            file_alignment: MOCK_FILE_ALIGNMENT,
            major_operating_system_version: 6,
            minor_operating_system_version: 0,
            major_image_version: 0,
            minor_image_version: 0,
            major_subsystem_version: 6,
            minor_subsystem_version: 0,
            win32_version_value: 0,
            size_of_image: 0x4000,
            size_of_headers: 0x200,
            checksum: 0,
            subsystem: IMAGE_SUBSYSTEM_WINDOWS_CUI,
            dll_characteristics: 0,
            size_of_stack_reserve: 0x100000,
            size_of_stack_commit: 0x1000,
            size_of_heap_reserve: 0x100000,
            size_of_heap_commit: 0x1000,
            loader_flags: 0,
            number_of_rva_and_sizes: 16,
        },
    )
}

/// Build the deterministic `PeDocument` the mock serves.
pub fn document() -> (r: PeDocument)
    ensures
        r@ == mock_document(),
{
    let mut dos: DosHeader = DosHeader::default();
    let ghost blank = dos@;
    dos.e_magic = DOS_MAGIC;
    dos.e_lfanew = 0x40;
    proof {
        assert(dos@.words =~= blank.words.update(0, DOS_MAGIC));
        assert(dos@.stub =~= Seq::empty());
    }
    PeDocument {
        arch: Arch::Bit64,
        dos,
        coff: CoffHeader {
            machine: Machine::Amd64,
            number_of_sections: 3,
            time_date_stamp: 0x5c0a_1234,
            pointer_to_symbol_table: 0,
            number_of_symbols: 0,
            size_of_optional_header: 0xf0,
            characteristics: IMAGE_FILE_EXECUTABLE_IMAGE,
        },
        optional: optional_header(),
        sections: sections(),
        data_directories: directories(),
        imports: mock_imports(),
        exports: Some(exports()),
        resources: Some(resources()),
        relocations: Some(relocations()),
        tls: Some(
            TlsDirectory {
                start_address_of_raw_data: MOCK_IMAGE_BASE + MOCK_RSRC_RVA as u64 + 0x100,
                end_address_of_raw_data: MOCK_IMAGE_BASE + MOCK_RSRC_RVA as u64 + 0x104,
                address_of_index: MOCK_IMAGE_BASE + MOCK_RSRC_RVA as u64 + 0x110,
                address_of_callbacks: 0,
                size_of_zero_fill: 0,
                characteristics: 0,
            },
        ),
        load_config: Some(load_config()),
    }
}

/// `PeSource` that serves the deterministic document above and whose `save`
/// is a no-op (mock documents are never serialized).
pub struct MockSource;

impl MockSource {
    pub fn new() -> (r: Self)
        ensures
            r == MockSource,
    {
        MockSource
    }

    pub fn document() -> (r: PeDocument)
        ensures
            r@ == mock_document(),
    {
        document()
    }
}

impl Default for MockSource {
    fn default() -> (r: MockSource)
        ensures
            r == MockSource,
    {
        MockSource
    }
}

impl PeSource for MockSource {
    open spec fn may_load(&self, r: Result<DocModel, PeErrorModel>) -> bool {
        r == Ok::<DocModel, PeErrorModel>(mock_document())
    }

    open spec fn can_save(&self, d: DocModel) -> bool {
        true
    }

    open spec fn may_save(self, d: DocModel, after: Self, e: Option<PeErrorModel>) -> bool {
        e is None && after == self
    }

    fn load(&self) -> (r: PeResult<PeDocument>) {
        Ok(document())
    }

    fn save(&mut self, _doc: &PeDocument) -> (r: PeResult<()>) {
        Ok(())
    }
}

/// Resolves addresses to an import table. Addresses are handed out in flattened
/// `(module, function)` order starting at [`MOCK_APIS_BASE`], one every `0x100`
/// bytes.
pub struct MockResolver {
    pairs: Vec<ResolvedImport>,
}

impl View for MockResolver {
    type V = Seq<ResolvedImportModel>;

    closed spec fn view(&self) -> Seq<ResolvedImportModel> {
        views(self.pairs@)
    }
}

/// The address handed out to pair `i`.
pub open spec fn api_address(i: int) -> int {
    MOCK_APIS_BASE + 0x100 * i
}

/// What an address was handed out for.
pub open spec fn api_at(pairs: Seq<ResolvedImportModel>, address: u64) -> Option<
    ResolvedImportModel,
> {
    let i = (address - MOCK_APIS_BASE) / 0x100;
    if address >= MOCK_APIS_BASE && api_address(i) == address && i < pairs.len() {
        Some(pairs[i])
    } else {
        None
    }
}

/// Whether a pair is the named function of the module.
pub open spec fn is_api(p: ResolvedImportModel, module: Seq<char>, name: Seq<char>) -> bool {
    p.module == module && (p.function matches ImportFunctionModel::Name(_, n) && n == name)
}

impl MockResolver {
    /// A resolver for the mock document's imports.
    pub fn new() -> (r: Self)
        ensures
            r@ == flattened(mock_import_table(), 2),
    {
        let imports = mock_imports();
        proof {
            reveal(mock_import_table);
            assert(views(imports@).len() == 2);
            reveal_with_fuel(function_total, 3);
            assert(mock_import_table()[0].functions.len() == 5);
            assert(mock_import_table()[1].functions.len() == 1);
            assert(function_total(views(imports@), 2) == 6);
        }
        Self::from_imports(&imports)
    }

    /// A resolver for any import table whose addresses fit.
    pub fn from_imports(imports: &[ImportDescriptor]) -> (r: Self)
        requires
            api_address(function_total(views(imports@), imports@.len()) as int) <= u64::MAX,
        ensures
            r@ == flattened(views(imports@), imports@.len()),
            api_address(r@.len() as int) <= u64::MAX,
    {
        proof {
            flattened_len(views(imports@), imports@.len());
        }
        MockResolver { pairs: flatten(imports) }
    }

    /// The first address this resolver assigned to a given import, if any.
    pub fn address_of(&self, module: &str, name: &str) -> (r: Option<u64>)
        requires
            api_address(self@.len() as int) <= u64::MAX,
        ensures
            match r {
                Some(a) => exists|i: int|
                    0 <= i < self@.len() && #[trigger] api_address(i) == a && is_api(
                        self@[i],
                        module@,
                        name@,
                    ) && forall|j: int| 0 <= j < i ==> !is_api(#[trigger] self@[j], module@, name@),
                None => forall|j: int|
                    0 <= j < self@.len() ==> !is_api(#[trigger] self@[j], module@, name@),
            },
    {
        let m: String = module.to_owned();
        let n: String = name.to_owned();
        let mut i: usize = 0;
        while i < self.pairs.len()
            invariant
                i <= self.pairs.len(),
                m@ == module@,
                n@ == name@,
                api_address(self@.len() as int) <= u64::MAX,
                forall|j: int| 0 <= j < i ==> !is_api(#[trigger] self@[j], module@, name@),
            decreases self.pairs.len() - i,
        {
            let p: &ResolvedImport = &self.pairs[i];
            assert(self@[i as int] == p@);
            if p.module == m {
                if let ImportFunction::Name { hint: _, name: f } = &p.function {
                    if *f == n {
                        assert(api_address(i as int) <= api_address(self@.len() as int));
                        return Some(MOCK_APIS_BASE + 0x100 * i as u64);
                    }
                }
            }
            i = i + 1;
        }
        None
    }
}

impl Default for MockResolver {
    fn default() -> (r: MockResolver)
        ensures
            r@ == flattened(mock_import_table(), 2),
    {
        MockResolver::new()
    }
}

impl ImportResolver for MockResolver {
    open spec fn target(&self, address: u64) -> Option<ResolvedImportModel> {
        api_at(self@, address)
    }

    fn resolve(&self, address: u64) -> (r: Option<ResolvedImport>) {
        if address < MOCK_APIS_BASE || (address - MOCK_APIS_BASE) % 0x100 != 0 {
            return None;
        }
        let i: u64 = (address - MOCK_APIS_BASE) / 0x100;
        if i >= self.pairs.len() as u64 {
            return None;
        }
        assert(self@[i as int] == self.pairs@[i as int]@);
        Some(self.pairs[i as usize].clone())
    }
}

/// Resolving the address handed out to an import gives that import.
pub proof fn handed_out_address_resolves(pairs: Seq<ResolvedImportModel>, i: int)
    requires
        0 <= i < pairs.len(),
        api_address(i) <= u64::MAX,
    ensures
        api_at(pairs, api_address(i) as u64) == Some(pairs[i]),
{
}

} // verus!
