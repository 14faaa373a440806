//! What a PE file's bytes mean: the document a file stands for, as
//! mathematical functions of its bytes.

use crate::bytes::{decode_fields, layout_size, le_value, zeros};
use crate::domain::coff::CoffHeader;
use crate::domain::data_directory::{
    directory_slot, empty_directory, DataDirectory, DataDirectoryIndex,
};
use crate::domain::document::{image_read, DocModel};
use crate::domain::dos::{DosModel, DOS_MAGIC};
use crate::domain::export::{ExportSymbolModel, ExportTableModel};
use crate::domain::import::{ImportDescriptorModel, ImportFunctionModel};
use crate::domain::load_config::LoadConfigDirectory;
use crate::domain::optional::{
    header_arch, header_number_of_rva_and_sizes, OptionalHeader, OptionalHeader32, OptionalHeader64,
    PE32_MAGIC, PE32_PLUS_MAGIC,
};
use crate::domain::relocation::{RelocationBlockModel, RelocationEntry};
use crate::domain::resource::{
    ResourceDataEntry, ResourceDataModel, ResourceEntryModel, ResourceNameModel,
};
use crate::domain::section::{SectionHeader, SectionModel};
use crate::domain::tls::TlsDirectory;
use crate::domain::types::{machine_of, pointer_size, Arch, RawOffset, Rva};
use crate::error::PeErrorModel;
use crate::io::pe::layout::{
    coff_fields, directories_fields, dos_fields, export_fields, import_fields, load_config32_fields,
    load_config64_fields, optional32_fields, optional64_fields, reloc_fields, resource_data_fields,
    resource_dir_fields, resource_entry_fields, section_fields, tls32_fields, tls64_fields,
};
use crate::text::{dec_text, hex_text, utf16_decode, utf8_text};
use vstd::prelude::*;

verus! {

/// Upper bound for zero-padding a section to its virtual size.
pub const MAX_SECTION_SIZE: u32 = 0x1000_0000;

/// Deepest resource directory that is followed.
pub const MAX_RESOURCE_DEPTH: usize = 8;

/// Longest string that is read.
pub const MAX_STRING: u32 = 4096;

/// The error for a file that ends inside a structure.
pub open spec fn truncated(off: nat, n: nat) -> PeErrorModel {
    PeErrorModel::Malformed(
        "truncated at file offset "@ + hex_text(off) + " (need "@ + dec_text(n) + " bytes)"@,
    )
}

/// The fields of the record at `off`.
pub open spec fn record_at(bytes: Seq<u8>, off: nat, ws: Seq<u8>) -> Result<
    Seq<u64>,
    PeErrorModel,
> {
    if off + layout_size(ws) <= bytes.len() {
        Ok(decode_fields(ws, bytes.subrange(off as int, (off + layout_size(ws)) as int)))
    } else {
        Err(truncated(off, layout_size(ws)))
    }
}

/// A DOS header from its fields and the file it stands in. The stub runs from
/// offset 64 to the signature offset, where that is a position in the file.
pub open spec fn dos_of(v: Seq<u64>, bytes: Seq<u8>) -> DosModel {
    let lfanew = v[30] as u32;
    DosModel {
        words: Seq::new(30, |i: int| v[i] as u16),
        e_lfanew: lfanew,
        stub: if lfanew < 0x8000_0000 && 64 <= lfanew <= bytes.len() {
            bytes.subrange(64, lfanew as int)
        } else {
            Seq::empty()
        },
    }
}

pub open spec fn coff_of(v: Seq<u64>) -> CoffHeader {
    CoffHeader {
        machine: machine_of(v[0] as u16),
        number_of_sections: v[1] as u16,
        time_date_stamp: v[2] as u32,
        pointer_to_symbol_table: v[3] as u32,
        number_of_symbols: v[4] as u32,
        size_of_optional_header: v[5] as u16,
        characteristics: v[6] as u16,
    }
}

pub open spec fn optional32_of(v: Seq<u64>) -> OptionalHeader32 {
    OptionalHeader32 {
        magic: v[0] as u16,
        major_linker_version: v[1] as u8,
        minor_linker_version: v[2] as u8,
        size_of_code: v[3] as u32,
        size_of_initialized_data: v[4] as u32,
        size_of_uninitialized_data: v[5] as u32,
        address_of_entry_point: Rva(v[6] as u32),
        base_of_code: Rva(v[7] as u32),
        base_of_data: Rva(v[8] as u32),
        image_base: v[9] as u32,
        section_alignment: v[10] as u32,
        file_alignment: v[11] as u32,
        major_operating_system_version: v[12] as u16,
        minor_operating_system_version: v[13] as u16,
        major_image_version: v[14] as u16,
        minor_image_version: v[15] as u16,
        major_subsystem_version: v[16] as u16,
        minor_subsystem_version: v[17] as u16,
        win32_version_value: v[18] as u32,
        size_of_image: v[19] as u32,
        size_of_headers: v[20] as u32,
        checksum: v[21] as u32,
        subsystem: v[22] as u16,
        dll_characteristics: v[23] as u16,
        size_of_stack_reserve: v[24] as u32,
        size_of_stack_commit: v[25] as u32,
        size_of_heap_reserve: v[26] as u32,
        size_of_heap_commit: v[27] as u32,
        loader_flags: v[28] as u32,
        number_of_rva_and_sizes: v[29] as u32,
    }
}

pub open spec fn optional64_of(v: Seq<u64>) -> OptionalHeader64 {
    OptionalHeader64 {
        magic: v[0] as u16,
        major_linker_version: v[1] as u8,
        minor_linker_version: v[2] as u8,
        size_of_code: v[3] as u32,
        size_of_initialized_data: v[4] as u32,
        size_of_uninitialized_data: v[5] as u32,
        address_of_entry_point: Rva(v[6] as u32),
        base_of_code: Rva(v[7] as u32),
        image_base: v[8],
        section_alignment: v[9] as u32,
        file_alignment: v[10] as u32,
        major_operating_system_version: v[11] as u16,
        minor_operating_system_version: v[12] as u16,
        major_image_version: v[13] as u16,
        minor_image_version: v[14] as u16,
        major_subsystem_version: v[15] as u16,
        minor_subsystem_version: v[16] as u16,
        win32_version_value: v[17] as u32,
        size_of_image: v[18] as u32,
        size_of_headers: v[19] as u32,
        checksum: v[20] as u32,
        subsystem: v[21] as u16,
        dll_characteristics: v[22] as u16,
        size_of_stack_reserve: v[23],
        size_of_stack_commit: v[24],
        size_of_heap_reserve: v[25],
        size_of_heap_commit: v[26],
        loader_flags: v[27] as u32,
        number_of_rva_and_sizes: v[28] as u32,
    }
}

/// The sixteen data directories from their thirty-two fields.
pub open spec fn directories_of(v: Seq<u64>) -> Seq<DataDirectory> {
    Seq::new(
        16,
        |i: int| DataDirectory { rva: Rva(v[2 * i] as u32), size: v[2 * i + 1] as u32 },
    )
}

/// The optional header and the raw data directories at `off`; `size` is the
/// header size that the file header states.
pub open spec fn optional_at(bytes: Seq<u8>, off: nat, size: nat) -> Result<
    (OptionalHeader, Seq<DataDirectory>),
    PeErrorModel,
> {
    if size < 96 {
        Err(PeErrorModel::Malformed("optional header too small"@))
    } else if off + 2 > bytes.len() {
        Err(truncated(off, 2))
    } else {
        let magic = le_value(bytes.subrange(off as int, off as int + 2)) as u16;
        if magic == PE32_MAGIC {
            if off + 224 > bytes.len() {
                Err(truncated(off, 224))
            } else {
                Ok(
                    (
                        OptionalHeader::Bit32(
                            optional32_of(
                                decode_fields(
                                    optional32_fields(),
                                    bytes.subrange(off as int, off as int + 96),
                                ),
                            ),
                        ),
                        directories_of(
                            decode_fields(directories_fields(), bytes.subrange(off as int + 96, off as int + 224)),
                        ),
                    ),
                )
            }
        } else if magic == PE32_PLUS_MAGIC {
            if off + 240 > bytes.len() {
                Err(truncated(off, 240))
            } else {
                Ok(
                    (
                        OptionalHeader::Bit64(
                            optional64_of(
                                decode_fields(
                                    optional64_fields(),
                                    bytes.subrange(off as int, off as int + 112),
                                ),
                            ),
                        ),
                        directories_of(
                            decode_fields(
                                directories_fields(),
                                bytes.subrange(off as int + 112, off as int + 240),
                            ),
                        ),
                    ),
                )
            }
        } else {
            Err(
                PeErrorModel::Malformed(
                    "unknown optional header magic "@ + hex_text(magic as nat),
                ),
            )
        }
    }
}

pub open spec fn section_header_of(v: Seq<u64>) -> SectionHeader {
    SectionHeader {
        name: [
            v[0] as u8,
            v[1] as u8,
            v[2] as u8,
            v[3] as u8,
            v[4] as u8,
            v[5] as u8,
            v[6] as u8,
            v[7] as u8,
        ],
        virtual_size: v[8] as u32,
        virtual_address: Rva(v[9] as u32),
        size_of_raw_data: v[10] as u32,
        pointer_to_raw_data: RawOffset(v[11] as u32),
        characteristics: v[16] as u32,
    }
}

/// The bytes a section has in memory: its raw data as far as the file holds
/// it, cut or zero-filled to the virtual size where the header states one.
/// Padding beyond [`MAX_SECTION_SIZE`] is left out.
pub open spec fn loaded(raw: Seq<u8>, virtual_size: u32) -> Seq<u8> {
    if virtual_size == 0 {
        raw
    } else if raw.len() > virtual_size {
        raw.take(virtual_size as int)
    } else if raw.len() < virtual_size && virtual_size <= MAX_SECTION_SIZE {
        raw + zeros((virtual_size - raw.len()) as nat)
    } else {
        raw
    }
}

/// The raw bytes of a section, as far as the file holds them.
pub open spec fn raw_data(bytes: Seq<u8>, h: SectionHeader) -> Seq<u8> {
    let ptr = h.pointer_to_raw_data.0 as int;
    let raw = h.size_of_raw_data as int;
    if ptr >= bytes.len() {
        Seq::empty()
    } else if ptr + raw <= bytes.len() {
        bytes.subrange(ptr, ptr + raw)
    } else {
        bytes.subrange(ptr, bytes.len() as int)
    }
}

/// The section a header describes.
pub open spec fn section_of(bytes: Seq<u8>, h: SectionHeader) -> SectionModel {
    SectionModel { header: h, data: loaded(raw_data(bytes, h), h.virtual_size) }
}

/// The first `n` sections of the table at `off`.
pub open spec fn sections_at(bytes: Seq<u8>, off: nat, n: nat) -> Result<
    Seq<SectionModel>,
    PeErrorModel,
>
    decreases n,
{
    if n == 0 {
        Ok(Seq::empty())
    } else {
        match sections_at(bytes, off, (n - 1) as nat) {
            Err(e) => Err(e),
            Ok(s) => match record_at(bytes, (off + 40 * (n - 1)) as nat, section_fields()) {
                Err(e) => Err(e),
                Ok(v) => Ok(s.push(section_of(bytes, section_header_of(v)))),
            },
        }
    }
}

/// The data directories that count: the first `n`, the rest empty.
pub open spec fn counted_directories(dirs: Seq<DataDirectory>, n: u32) -> Seq<DataDirectory> {
    Seq::new(
        16,
        |i: int|
            if i < n {
                dirs[i]
            } else {
                empty_directory()
            },
    )
}

/// The document of a file's headers and sections, before its directories are
/// read.
pub open spec fn skeleton(bytes: Seq<u8>) -> Result<DocModel, PeErrorModel> {
    match record_at(bytes, 0, dos_fields()) {
        Err(e) => Err(e),
        Ok(dv) => {
            let dos = dos_of(dv, bytes);
            let pe = dos.e_lfanew as nat;
            if dos.words[0] != DOS_MAGIC {
                Err(PeErrorModel::Malformed("bad DOS magic"@))
            } else if pe + 4 > bytes.len() {
                Err(truncated(pe, 4))
            } else if bytes.subrange(pe as int, pe as int + 4) != seq![80u8, 69u8, 0u8, 0u8] {
                Err(PeErrorModel::Malformed("missing PE signature at "@ + hex_text(pe)))
            } else {
                match record_at(bytes, pe + 4, coff_fields()) {
                    Err(e) => Err(e),
                    Ok(cv) => {
                        let coff = coff_of(cv);
                        let size = coff.size_of_optional_header as nat;
                        match optional_at(bytes, pe + 24, size) {
                            Err(e) => Err(e),
                            Ok((optional, dirs)) => match sections_at(
                                bytes,
                                pe + 24 + size,
                                coff.number_of_sections as nat,
                            ) {
                                Err(e) => Err(e),
                                Ok(sections) => Ok(
                                    DocModel {
                                        arch: header_arch(optional),
                                        dos,
                                        coff,
                                        optional,
                                        sections,
                                        data_directories: counted_directories(
                                            dirs,
                                            header_number_of_rva_and_sizes(optional),
                                        ),
                                        imports: Seq::empty(),
                                        exports: None,
                                        resources: None,
                                        relocations: None,
                                        tls: None,
                                        load_config: None,
                                    },
                                ),
                            },
                        }
                    },
                }
            }
        },
    }
}

/// The bytes from `r + i` up to the next NUL, when there is one among the
/// first [`MAX_STRING`] bytes and all of them can be read.
pub open spec fn cstring_from(sections: Seq<SectionModel>, r: u32, i: nat) -> Option<Seq<u8>>
    decreases MAX_STRING - i,
{
    if i >= MAX_STRING || r + i > u32::MAX {
        None
    } else {
        match image_read(sections, (r + i) as u32, 1) {
            None => None,
            Some(b) => if b[0] == 0 {
                Some(Seq::empty())
            } else {
                match cstring_from(sections, r, i + 1) {
                    None => None,
                    Some(rest) => Some(seq![b[0]] + rest),
                }
            },
        }
    }
}

/// The NUL-terminated text at `r`.
pub open spec fn cstring(sections: Seq<SectionModel>, r: u32) -> Option<Seq<char>> {
    match cstring_from(sections, r, 0) {
        None => None,
        Some(b) => Some(utf8_text(b)),
    }
}

/// The fields of the record at `r` in the image.
pub open spec fn image_record(sections: Seq<SectionModel>, r: u32, ws: Seq<u8>) -> Option<
    Seq<u64>,
> {
    match image_read(sections, r, layout_size(ws)) {
        None => None,
        Some(b) => Some(decode_fields(ws, b)),
    }
}

/// The bit of a thunk that marks an import by ordinal.
pub open spec fn ordinal_flag(ps: nat) -> nat {
    if ps == 8 {
        0x8000_0000_0000_0000
    } else {
        0x8000_0000
    }
}

/// The import a thunk value stands for.
pub open spec fn thunk_function(sections: Seq<SectionModel>, v: nat, ps: nat) -> Option<
    ImportFunctionModel,
> {
    if v >= ordinal_flag(ps) {
        Some(ImportFunctionModel::Ordinal((v % 0x1_0000) as u16))
    } else {
        let r = (v % 0x1_0000_0000) as u32;
        match image_read(sections, r, 2) {
            None => None,
            Some(h) => if r + 2 > u32::MAX {
                None
            } else {
                match cstring(sections, (r + 2) as u32) {
                    None => None,
                    Some(name) => Some(ImportFunctionModel::Name(le_value(h) as u16, name)),
                }
            },
        }
    }
}

/// The imports of the thunk array that begins at `addr`: up to a zero thunk or
/// the end of what can be read.
pub open spec fn thunks_from(sections: Seq<SectionModel>, addr: int, ps: nat) -> Option<
    Seq<ImportFunctionModel>,
>
    decreases 0x1_0000_0020 - addr,
{
    if addr > u32::MAX || ps == 0 || ps > 8 {
        Some(Seq::empty())
    } else {
        match image_read(sections, addr as u32, ps) {
            None => Some(Seq::empty()),
            Some(b) => if le_value(b) == 0 {
                Some(Seq::empty())
            } else {
                match thunk_function(sections, le_value(b), ps) {
                    None => None,
                    Some(f) => match thunks_from(sections, addr + ps, ps) {
                        None => None,
                        Some(rest) => Some(seq![f] + rest),
                    },
                }
            },
        }
    }
}

/// The thunk array of a descriptor: the original one, or the bound one where
/// the original is gone.
pub open spec fn descriptor_thunks(d: Seq<u64>) -> u32 {
    if d[0] as u32 != 0 {
        d[0] as u32
    } else {
        d[4] as u32
    }
}

/// Whether a descriptor ends the table.
pub open spec fn ends_imports(d: Seq<u64>) -> bool {
    descriptor_thunks(d) == 0
}

/// What the import descriptor at an address stands for.
pub enum ImportStep {
    /// The table ends here.
    End,
    /// A name or a thunk that belongs to the descriptor cannot be read.
    Broken,
    /// A module with its imports.
    Item(ImportDescriptorModel),
}

/// The descriptor at `addr`.
pub open spec fn import_step(sections: Seq<SectionModel>, addr: u32, ps: nat) -> ImportStep {
    match image_record(sections, addr, import_fields()) {
        None => ImportStep::End,
        Some(d) => if ends_imports(d) {
            ImportStep::End
        } else {
            match cstring(sections, d[3] as u32) {
                None => ImportStep::Broken,
                Some(name) => match thunks_from(sections, descriptor_thunks(d) as int, ps) {
                    None => ImportStep::Broken,
                    Some(functions) => ImportStep::Item(ImportDescriptorModel { name, functions }),
                },
            }
        },
    }
}

/// The import table whose descriptors begin at `addr`. `None` when a name or a
/// thunk that belongs to it cannot be read.
pub open spec fn imports_from(sections: Seq<SectionModel>, addr: int, ps: nat) -> Option<
    Seq<ImportDescriptorModel>,
>
    decreases 0x1_0000_0020 - addr,
{
    if addr > u32::MAX {
        Some(Seq::empty())
    } else {
        match import_step(sections, addr as u32, ps) {
            ImportStep::End => Some(Seq::empty()),
            ImportStep::Broken => None,
            ImportStep::Item(d) => match imports_from(sections, addr + 20, ps) {
                None => None,
                Some(rest) => Some(seq![d] + rest),
            },
        }
    }
}

/// The number at `r + step * i`, `step` bytes wide.
pub open spec fn table_entry(sections: Seq<SectionModel>, r: u32, i: nat, step: nat) -> Option<
    nat,
> {
    if r + step * i > u32::MAX {
        None
    } else {
        match image_read(sections, (r + step * i) as u32, step) {
            None => None,
            Some(b) => Some(le_value(b)),
        }
    }
}

/// The address just past a directory, held at the top of the address space.
pub open spec fn directory_end(dd: DataDirectory) -> u32 {
    if dd.rva.0 + dd.size <= u32::MAX {
        (dd.rva.0 + dd.size) as u32
    } else {
        u32::MAX
    }
}

/// The ordinal of the function at index `idx` of a table with base `base`.
pub open spec fn export_ordinal(base: u32, idx: nat) -> u16 {
    if base + idx <= u32::MAX {
        (base + idx) as u32 as u16
    } else {
        0
    }
}

/// The symbol that entry `i` of the name table stands for. An address inside
/// the export directory itself is a forwarder string.
pub open spec fn export_symbol(
    sections: Seq<SectionModel>,
    dd: DataDirectory,
    d: Seq<u64>,
    i: nat,
) -> Option<ExportSymbolModel> {
    match table_entry(sections, d[9] as u32, i, 4) {
        None => None,
        Some(name_rva) => match table_entry(sections, d[10] as u32, i, 2) {
            None => None,
            Some(idx) => match table_entry(sections, d[8] as u32, idx, 4) {
                None => None,
                Some(func) => match cstring(sections, name_rva as u32) {
                    None => None,
                    Some(name) => {
                        let ordinal = export_ordinal(d[5] as u32, idx);
                        if dd.rva.0 <= func < directory_end(dd) {
                            match cstring(sections, func as u32) {
                                None => None,
                                Some(f) => Some(
                                    ExportSymbolModel {
                                        name: Some(name),
                                        ordinal,
                                        rva: Rva(func as u32),
                                        forwarder: Some(f),
                                    },
                                ),
                            }
                        } else {
                            Some(
                                ExportSymbolModel {
                                    name: Some(name),
                                    ordinal,
                                    rva: Rva(func as u32),
                                    forwarder: None,
                                },
                            )
                        }
                    },
                },
            },
        },
    }
}

/// The first `n` named symbols.
pub open spec fn export_symbols(
    sections: Seq<SectionModel>,
    dd: DataDirectory,
    d: Seq<u64>,
    n: nat,
) -> Option<Seq<ExportSymbolModel>>
    decreases n,
{
    if n == 0 {
        Some(Seq::empty())
    } else {
        match export_symbols(sections, dd, d, (n - 1) as nat) {
            None => None,
            Some(s) => match export_symbol(sections, dd, d, (n - 1) as nat) {
                None => None,
                Some(x) => Some(s.push(x)),
            },
        }
    }
}

/// The export table that the directory entry `dd` describes.
pub open spec fn exports_at(sections: Seq<SectionModel>, dd: DataDirectory) -> Option<
    ExportTableModel,
> {
    match image_record(sections, dd.rva.0, export_fields()) {
        None => None,
        Some(d) => match export_symbols(sections, dd, d, d[7] as u32 as nat) {
            None => None,
            Some(symbols) => Some(
                ExportTableModel {
                    module_name: cstring(sections, d[4] as u32),
                    base: d[5] as u32,
                    number_of_functions: d[6] as u32,
                    symbols,
                },
            ),
        },
    }
}

/// The code units in a byte string, two bytes each.
pub open spec fn units_of(b: Seq<u8>) -> Seq<u16> {
    Seq::new(b.len() / 2, |i: int| le_value(b.subrange(2 * i, 2 * i + 2)) as u16)
}

/// The length-prefixed UTF-16 name at `base + offset`.
pub open spec fn resource_name_at(sections: Seq<SectionModel>, base: u32, offset: int) -> Option<
    Seq<char>,
> {
    if base + offset > u32::MAX {
        None
    } else {
        match image_read(sections, (base + offset) as u32, 2) {
            None => None,
            Some(b) => {
                let len = le_value(b);
                if len > 0x1000 || base + offset + 2 > u32::MAX {
                    None
                } else {
                    match image_read(sections, (base + offset + 2) as u32, len * 2) {
                        None => None,
                        Some(u) => Some(utf16_decode(units_of(u))),
                    }
                }
            },
        }
    }
}

/// The leaf at `base + offset`.
pub open spec fn resource_leaf_at(sections: Seq<SectionModel>, base: u32, offset: int) -> Option<
    ResourceDataEntry,
> {
    if base + offset > u32::MAX {
        None
    } else {
        match image_record(sections, (base + offset) as u32, resource_data_fields()) {
            None => None,
            Some(v) => Some(
                ResourceDataEntry {
                    rva: Rva(v[0] as u32),
                    size: v[1] as u32,
                    code_page: v[2] as u32,
                },
            ),
        }
    }
}

/// The name that the first field of a resource entry stands for.
pub open spec fn resource_name_of(sections: Seq<SectionModel>, base: u32, f: u32) -> Option<
    ResourceNameModel,
> {
    if f >= 0x8000_0000 {
        match resource_name_at(sections, base, f - 0x8000_0000) {
            None => None,
            Some(s) => Some(ResourceNameModel::Named(s)),
        }
    } else {
        Some(ResourceNameModel::Id(f))
    }
}

/// The resource directory at `dir`, with offsets relative to `base`.
pub open spec fn resources_at(sections: Seq<SectionModel>, base: u32, dir: u32, depth: nat) -> Option<
    Seq<ResourceEntryModel>,
>
    decreases MAX_RESOURCE_DEPTH + 1 - depth, 0nat,
{
    if depth > MAX_RESOURCE_DEPTH {
        None
    } else {
        match image_record(sections, dir, resource_dir_fields()) {
            None => None,
            Some(h) => resource_entries(
                sections,
                base,
                dir,
                depth,
                (h[4] as u16 + h[5] as u16) as nat,
            ),
        }
    }
}

/// The first `n` entries of the resource directory at `dir`.
pub open spec fn resource_entries(
    sections: Seq<SectionModel>,
    base: u32,
    dir: u32,
    depth: nat,
    n: nat,
) -> Option<Seq<ResourceEntryModel>>
    decreases MAX_RESOURCE_DEPTH - depth, n,
    when depth <= MAX_RESOURCE_DEPTH
{
    if n == 0 {
        Some(Seq::empty())
    } else {
        match resource_entries(sections, base, dir, depth, (n - 1) as nat) {
            None => None,
            Some(s) => if dir + 16 + 8 * (n - 1) > u32::MAX {
                None
            } else {
                match image_record(
                    sections,
                    (dir + 16 + 8 * (n - 1)) as u32,
                    resource_entry_fields(),
                ) {
                    None => None,
                    Some(v) => match resource_name_of(sections, base, v[0] as u32) {
                        None => None,
                        Some(name) => {
                            let f = v[1] as u32;
                            if f >= 0x8000_0000 {
                                if base + (f - 0x8000_0000) > u32::MAX {
                                    None
                                } else {
                                    match resources_at(
                                        sections,
                                        base,
                                        (base + (f - 0x8000_0000)) as u32,
                                        depth + 1,
                                    ) {
                                        None => None,
                                        Some(sub) => Some(
                                            s.push(
                                                ResourceEntryModel {
                                                    name,
                                                    data: ResourceDataModel::Directory(sub),
                                                },
                                            ),
                                        ),
                                    }
                                }
                            } else {
                                match resource_leaf_at(sections, base, f as int) {
                                    None => None,
                                    Some(leaf) => Some(
                                        s.push(
                                            ResourceEntryModel {
                                                name,
                                                data: ResourceDataModel::Leaf(leaf),
                                            },
                                        ),
                                    ),
                                }
                            }
                        },
                    },
                }
            },
        }
    }
}

/// The relocation entry a 16-bit value stands for: the type in its top four
/// bits, the offset in the rest.
pub open spec fn reloc_entry(v: u16) -> RelocationEntry {
    RelocationEntry { reloc_type: (v / 0x1000) as u8, offset: v % 0x1000 }
}

/// The relocation entries in a byte string, two bytes each.
pub open spec fn reloc_entries(b: Seq<u8>) -> Seq<RelocationEntry> {
    Seq::new(b.len() / 2, |i: int| reloc_entry(units_of(b)[i]))
}

/// How many bytes of relocation blocks a directory holds; an unstated size
/// stands for one page.
pub open spec fn reloc_extent(dd: DataDirectory) -> nat {
    if dd.size != 0 {
        dd.size as nat
    } else {
        0x1000
    }
}

/// The relocation blocks from offset `off` of the directory on.
pub open spec fn relocs_from(sections: Seq<SectionModel>, dd: DataDirectory, off: nat) -> Option<
    Seq<RelocationBlockModel>,
>
    decreases reloc_extent(dd) + 0x1_0000_0000 - off,
{
    if off + 8 > reloc_extent(dd) {
        Some(Seq::empty())
    } else if dd.rva.0 + off > u32::MAX {
        None
    } else {
        match image_record(sections, (dd.rva.0 + off) as u32, reloc_fields()) {
            None => None,
            Some(h) => {
                let page = h[0] as u32;
                let size = h[1] as u32;
                if size < 8 {
                    Some(Seq::empty())
                } else if dd.rva.0 + off + 8 > u32::MAX {
                    None
                } else {
                    match image_read(
                        sections,
                        (dd.rva.0 + off + 8) as u32,
                        (size - 8) as nat,
                    ) {
                        None => None,
                        Some(b) => match relocs_from(sections, dd, off + size as nat) {
                            None => None,
                            Some(rest) => Some(
                                seq![
                                    RelocationBlockModel {
                                        page_rva: Rva(page),
                                        entries: reloc_entries(b),
                                    },
                                ] + rest,
                            ),
                        },
                    }
                }
            },
        }
    }
}

pub open spec fn tls_of(v: Seq<u64>) -> TlsDirectory {
    TlsDirectory {
        start_address_of_raw_data: v[0],
        end_address_of_raw_data: v[1],
        address_of_index: v[2],
        address_of_callbacks: v[3],
        size_of_zero_fill: v[4] as u32,
        characteristics: v[5] as u32,
    }
}

/// The fields of a TLS directory.
pub open spec fn tls_fields(arch: Arch) -> Seq<u8> {
    match arch {
        Arch::Bit64 => tls64_fields(),
        Arch::Bit32 => tls32_fields(),
    }
}

/// The TLS directory that the directory entry `dd` describes.
pub open spec fn tls_at(sections: Seq<SectionModel>, arch: Arch, dd: DataDirectory) -> Option<
    TlsDirectory,
> {
    match image_record(sections, dd.rva.0, tls_fields(arch)) {
        None => None,
        Some(v) => Some(tls_of(v)),
    }
}

/// The fields of a load configuration directory.
pub open spec fn load_config_fields(arch: Arch) -> Seq<u8> {
    match arch {
        Arch::Bit64 => load_config64_fields(),
        Arch::Bit32 => load_config32_fields(),
    }
}

pub open spec fn load_config_of(v: Seq<u64>) -> LoadConfigDirectory {
    LoadConfigDirectory {
        size: v[0] as u32,
        time_date_stamp: v[1] as u32,
        major_version: v[2] as u16,
        minor_version: v[3] as u16,
        global_flags_clear: v[4] as u32,
        global_flags_set: v[5] as u32,
        security_cookie: v[17],
        se_handler_table: v[18],
        se_handler_count: v[19],
        guard_cf_check_function_pointer: v[20],
        guard_cf_dispatch_function_pointer: v[21],
        guard_cf_function_table: v[22],
        guard_cf_function_count: v[23],
        guard_flags: v[24] as u32,
        guard_address_taken_iat_entry_table: v[29],
        guard_address_taken_iat_entry_count: v[30],
        guard_long_jump_target_table: v[31],
        guard_long_jump_target_count: v[32],
        guard_eh_continuation_table: v[45],
        guard_eh_continuation_count: v[46],
        guard_xfg_check_function_pointer: v[47],
        guard_xfg_dispatch_function_pointer: v[48],
        chpe_metadata_pointer: v[34],
        hot_patch_table_offset: v[41] as u32,
    }
}

/// How many bytes of a load configuration are present: what its own size field
/// says, up to the full structure.
pub open spec fn load_config_extent(size: u32, arch: Arch) -> nat {
    if size <= layout_size(load_config_fields(arch)) {
        size as nat
    } else {
        layout_size(load_config_fields(arch))
    }
}

/// The load configuration that the directory entry `dd` describes. What lies
/// beyond the stated size is zero.
pub open spec fn load_config_at(
    sections: Seq<SectionModel>,
    arch: Arch,
    dd: DataDirectory,
) -> Option<LoadConfigDirectory> {
    match image_read(sections, dd.rva.0, 4) {
        None => None,
        Some(s) => {
            let n = load_config_extent(le_value(s) as u32, arch);
            match image_read(sections, dd.rva.0, n) {
                None => None,
                Some(b) => Some(
                    load_config_of(
                        decode_fields(
                            load_config_fields(arch),
                            b + zeros((layout_size(load_config_fields(arch)) - n) as nat),
                        ),
                    ),
                ),
            }
        },
    }
}

/// The directory entry for `index` when the document has one and it is not empty.
pub open spec fn present_directory(
    dirs: Seq<DataDirectory>,
    index: DataDirectoryIndex,
) -> Option<DataDirectory> {
    let i = directory_slot(index);
    if i < dirs.len() && dirs[i].rva.0 != 0 {
        Some(dirs[i])
    } else {
        None
    }
}

/// The import table of an image; an unreadable one counts as empty.
pub open spec fn imports_of(d: DocModel) -> Seq<ImportDescriptorModel> {
    match present_directory(d.data_directories, DataDirectoryIndex::Import) {
        None => Seq::empty(),
        Some(dd) => match imports_from(d.sections, dd.rva.0 as int, pointer_size(d.arch)) {
            Some(im) => im,
            None => Seq::empty(),
        },
    }
}

pub open spec fn exports_of(d: DocModel) -> Option<ExportTableModel> {
    match present_directory(d.data_directories, DataDirectoryIndex::Export) {
        None => None,
        Some(dd) => exports_at(d.sections, dd),
    }
}

pub open spec fn resources_of(d: DocModel) -> Option<Seq<ResourceEntryModel>> {
    match present_directory(d.data_directories, DataDirectoryIndex::Resource) {
        None => None,
        Some(dd) => resources_at(d.sections, dd.rva.0, dd.rva.0, 0),
    }
}

pub open spec fn relocations_of(d: DocModel) -> Option<Seq<RelocationBlockModel>> {
    match present_directory(d.data_directories, DataDirectoryIndex::BaseReloc) {
        None => None,
        Some(dd) => relocs_from(d.sections, dd, 0),
    }
}

pub open spec fn tls_in(d: DocModel) -> Option<TlsDirectory> {
    match present_directory(d.data_directories, DataDirectoryIndex::Tls) {
        None => None,
        Some(dd) => tls_at(d.sections, d.arch, dd),
    }
}

pub open spec fn load_config_in(d: DocModel) -> Option<LoadConfigDirectory> {
    match present_directory(d.data_directories, DataDirectoryIndex::LoadConfig) {
        None => None,
        Some(dd) => load_config_at(d.sections, d.arch, dd),
    }
}

/// The document with its rich forms read from its own image. Reading is
/// lenient: a broken directory yields an empty table instead of an error.
pub open spec fn enriched(d: DocModel) -> DocModel {
    DocModel {
        imports: imports_of(d),
        exports: exports_of(d),
        resources: resources_of(d),
        relocations: relocations_of(d),
        tls: tls_in(d),
        load_config: load_config_in(d),
        ..d
    }
}

/// The document a file stands for, or why it stands for none.
pub open spec fn parsed(bytes: Seq<u8>) -> Result<DocModel, PeErrorModel> {
    match skeleton(bytes) {
        Err(e) => Err(e),
        Ok(d) => Ok(enriched(d)),
    }
}

} // verus!
