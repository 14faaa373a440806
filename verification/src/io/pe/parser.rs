//! The PE parser: bytes to [`PeDocument`].

use crate::bytes::{
    layout_len, layout_ok, le_value, lemma_le_value_bound, lemma_pow256_values, push_bytes,
    read_fields, read_le, resize_zero, zeros,
};
use crate::domain::coff::CoffHeader;
use crate::domain::data_directory::{DataDirectory, DataDirectoryIndex};
use crate::domain::document::{image_read, PeDocument};
use crate::domain::dos::{DosHeader, DOS_MAGIC};
use crate::domain::export::{opt_text, ExportSymbol, ExportTable};
use crate::domain::import::{
    lemma_views_push, views, ImportDescriptor, ImportDescriptorModel, ImportFunction,
    ImportFunctionModel,
};
use crate::domain::load_config::LoadConfigDirectory;
use crate::domain::optional::{
    OptionalHeader, OptionalHeader32, OptionalHeader64, PE32_MAGIC, PE32_PLUS_MAGIC,
};
use crate::domain::relocation::{
    RelocationBlock, RelocationBlockModel, RelocationEntry, RelocationTable,
};
use crate::domain::resource::{
    ResourceDataEntry, ResourceDirectory, ResourceEntry, ResourceEntryData, ResourceName,
    ResourceEntryModel,
};
use crate::domain::section::{Section, SectionHeader, SectionModel};
use crate::domain::tls::TlsDirectory;
use crate::domain::types::{pointer_size, ptr_size, Arch, Machine, RawOffset, Rva};
use crate::error::{malformed, result_view, PeError, PeResult};
use crate::io::pe::decode::{
    coff_of, counted_directories, cstring, cstring_from, directories_of, dos_of, exports_at,
    export_symbol, export_symbols, image_record, import_step, imports_from, ImportStep,
    load_config_at, load_config_of, loaded, optional_at, parsed, present_directory, raw_data,
    record_at, reloc_entries, reloc_extent, relocs_from, resource_entries, resource_leaf_at,
    resource_name_at, resource_name_of, resources_at, section_header_of, section_of, sections_at,
    skeleton, table_entry, thunk_function, thunks_from, tls_at, truncated, units_of,
    MAX_RESOURCE_DEPTH, MAX_SECTION_SIZE, MAX_STRING,
};
use crate::io::pe::layout::{
    coff_fields, coff_layout, directories_layout, dos_fields, dos_layout, export_fields,
    export_layout, import_layout, load_config32_layout, load_config64_layout, optional32_layout,
    optional64_layout, reloc_layout, resource_data_layout, resource_dir_layout,
    resource_entry_layout, section_layout, tls32_layout, tls64_layout,
};
use crate::text::{push_dec, push_hex, text_of_utf16, text_of_utf8};
use vstd::prelude::*;
use vstd::slice::slice_subrange;
use vstd::string::*;

verus! {

/// The truncation error for `n` bytes at `off`.
fn truncation(off: u64, n: usize) -> (e: PeError)
    ensures
        e@ == truncated(off as nat, n as nat),
{
    let mut m: String = "truncated at file offset ".to_owned();
    push_hex(&mut m, off);
    m.append(" (need ");
    push_dec(&mut m, n as u64);
    m.append(" bytes)");
    PeError::Malformed(m)
}

/// Read the record with the field widths `ws` at `off`.
fn read_record(bytes: &[u8], off: u64, ws: &[u8]) -> (r: PeResult<Vec<u64>>)
    requires
        layout_ok(ws@),
        off <= 0x2_0000_0000,
    ensures
        result_view(r) == record_at(bytes@, off as nat, ws@),
        r matches Ok(v) ==> v@.len() == ws@.len(),
{
    let n: usize = layout_len(ws);
    proof {
        crate::bytes::lemma_layout_bound(ws@);
    }
    if off + n as u64 > bytes.len() as u64 {
        return Err(truncation(off, n));
    }
    Ok(read_fields(bytes, off as usize, ws))
}

fn parse_dos(bytes: &[u8]) -> (r: PeResult<DosHeader>)
    ensures
        match r {
            Ok(d) => record_at(bytes@, 0, dos_fields()) is Ok && d@ == dos_of(
                record_at(bytes@, 0, dos_fields())->Ok_0,
                bytes@,
            ) && d.e_magic == d@.words[0],
            Err(e) => record_at(bytes@, 0, dos_fields()) is Err && record_at(
                bytes@,
                0,
                dos_fields(),
            )->Err_0 == e@,
        },
{
    let v = match read_record(bytes, 0, &dos_layout()) {
        Ok(v) => v,
        Err(e) => return Err(e),
    };
    let lfanew: u32 = v[30] as u32;
    let mut stub: Vec<u8> = Vec::new();
    if lfanew < 0x8000_0000 && 64 <= lfanew && lfanew as u64 <= bytes.len() as u64 {
        push_bytes(&mut stub, slice_subrange(bytes, 64, lfanew as usize));
    }
    let d = DosHeader {
        e_magic: v[0] as u16,
        e_cblp: v[1] as u16,
        e_cp: v[2] as u16,
        e_crlc: v[3] as u16,
        e_cparhdr: v[4] as u16,
        e_minalloc: v[5] as u16,
        e_maxalloc: v[6] as u16,
        e_ss: v[7] as u16,
        e_sp: v[8] as u16,
        e_csum: v[9] as u16,
        e_ip: v[10] as u16,
        e_cs: v[11] as u16,
        e_lfarlc: v[12] as u16,
        e_ovno: v[13] as u16,
        e_res: [v[14] as u16, v[15] as u16, v[16] as u16, v[17] as u16],
        e_oemid: v[18] as u16,
        e_oeminfo: v[19] as u16,
        e_res2: [
            v[20] as u16,
            v[21] as u16,
            v[22] as u16,
            v[23] as u16,
            v[24] as u16,
            v[25] as u16,
            v[26] as u16,
            v[27] as u16,
            v[28] as u16,
            v[29] as u16,
        ],
        e_lfanew: lfanew,
        stub,
    };
    proof {
        assert(d@.words =~= dos_of(v@, bytes@).words);
        assert(d@.stub =~= dos_of(v@, bytes@).stub);
    }
    Ok(d)
}

fn parse_coff(bytes: &[u8], off: u64) -> (r: PeResult<CoffHeader>)
    requires
        off <= 0x2_0000_0000,
    ensures
        match r {
            Ok(c) => record_at(bytes@, off as nat, coff_fields()) is Ok && c
                == coff_of(record_at(bytes@, off as nat, coff_fields())->Ok_0),
            Err(e) => record_at(bytes@, off as nat, coff_fields()) is Err && record_at(
                bytes@,
                off as nat,
                coff_fields(),
            )->Err_0 == e@,
        },
{
    let v = match read_record(bytes, off, &coff_layout()) {
        Ok(v) => v,
        Err(e) => return Err(e),
    };
    Ok(
        CoffHeader {
            machine: Machine::from_u16(v[0] as u16),
            number_of_sections: v[1] as u16,
            time_date_stamp: v[2] as u32,
            pointer_to_symbol_table: v[3] as u32,
            number_of_symbols: v[4] as u32,
            size_of_optional_header: v[5] as u16,
            characteristics: v[6] as u16,
        },
    )
}

/// The sixteen data directories from their fields.
fn directories_from(v: &[u64]) -> (r: Vec<DataDirectory>)
    requires
        v@.len() == 32,
    ensures
        r@ == directories_of(v@),
{
    let mut r: Vec<DataDirectory> = Vec::new();
    let mut i: usize = 0;
    while i < 16
        invariant
            i <= 16,
            v@.len() == 32,
            r@ == directories_of(v@).take(i as int),
        decreases 16 - i,
    {
        r.push(DataDirectory { rva: Rva(v[2 * i] as u32), size: v[2 * i + 1] as u32 });
        i = i + 1;
        assert(r@ =~= directories_of(v@).take(i as int));
    }
    assert(directories_of(v@).take(16) =~= directories_of(v@));
    r
}

fn parse_optional(bytes: &[u8], off: u64, size: u16) -> (r: PeResult<
    (OptionalHeader, Vec<DataDirectory>),
>)
    requires
        off <= 0x2_0000_0000,
    ensures
        match r {
            Ok((h, d)) => optional_at(bytes@, off as nat, size as nat) is Ok && optional_at(
                bytes@,
                off as nat,
                size as nat,
            )->Ok_0 == (h, d@),
            Err(e) => optional_at(bytes@, off as nat, size as nat) is Err && optional_at(
                bytes@,
                off as nat,
                size as nat,
            )->Err_0 == e@,
        },
{
    if size < 96 {
        return Err(malformed("optional header too small"));
    }
    let len: u64 = bytes.len() as u64;
    if off + 2 > len {
        return Err(truncation(off, 2));
    }
    let o: usize = off as usize;
    let magic: u16 = read_le(bytes, o, 2) as u16;
    if magic == PE32_MAGIC {
        if off + 224 > len {
            return Err(truncation(off, 224));
        }
        let v = read_fields(bytes, o, &optional32_layout());
        let dv = read_fields(bytes, o + 96, &directories_layout());
        let h = OptionalHeader32 {
            magic: v[0] as u16,
            major_linker_version: v[1] as u8,
            minor_linker_version: v[2] as u8,
            size_of_code: v[3] as u32,
            size_of_initialized_data: v[4] as u32,
            size_of_uninitialized_data: v[5] as u32,
            address_of_entry_point: Rva(v[6] as u32),
            base_of_code: Rva(v[7] as u32),
            base_of_data: Rva(v[8] as u32),
            image_base: v[9] as u32,
            section_alignment: v[10] as u32,
            file_alignment: v[11] as u32,
            major_operating_system_version: v[12] as u16,
            minor_operating_system_version: v[13] as u16,
            major_image_version: v[14] as u16,
            minor_image_version: v[15] as u16,
            major_subsystem_version: v[16] as u16,
            minor_subsystem_version: v[17] as u16,
            win32_version_value: v[18] as u32,
            size_of_image: v[19] as u32,
            size_of_headers: v[20] as u32,
            checksum: v[21] as u32,
            subsystem: v[22] as u16,
            dll_characteristics: v[23] as u16,
            size_of_stack_reserve: v[24] as u32,
            size_of_stack_commit: v[25] as u32,
            size_of_heap_reserve: v[26] as u32,
            size_of_heap_commit: v[27] as u32,
            loader_flags: v[28] as u32,
            number_of_rva_and_sizes: v[29] as u32,
        };
        Ok((OptionalHeader::Bit32(h), directories_from(&dv)))
    } else if magic == PE32_PLUS_MAGIC {
        if off + 240 > len {
            return Err(truncation(off, 240));
        }
        let v = read_fields(bytes, o, &optional64_layout());
        let dv = read_fields(bytes, o + 112, &directories_layout());
        let h = OptionalHeader64 {
            magic: v[0] as u16,
            major_linker_version: v[1] as u8,
            minor_linker_version: v[2] as u8,
            size_of_code: v[3] as u32,
            size_of_initialized_data: v[4] as u32,
            size_of_uninitialized_data: v[5] as u32,
            address_of_entry_point: Rva(v[6] as u32),
            base_of_code: Rva(v[7] as u32),
            image_base: v[8],
            section_alignment: v[9] as u32,
            file_alignment: v[10] as u32,
            major_operating_system_version: v[11] as u16,
            minor_operating_system_version: v[12] as u16,
            major_image_version: v[13] as u16,
            minor_image_version: v[14] as u16,
            major_subsystem_version: v[15] as u16,
            minor_subsystem_version: v[16] as u16,
            win32_version_value: v[17] as u32,
            size_of_image: v[18] as u32,
            size_of_headers: v[19] as u32,
            checksum: v[20] as u32,
            subsystem: v[21] as u16,
            dll_characteristics: v[22] as u16,
            size_of_stack_reserve: v[23],
            size_of_stack_commit: v[24],
            size_of_heap_reserve: v[25],
            size_of_heap_commit: v[26],
            loader_flags: v[27] as u32,
            number_of_rva_and_sizes: v[28] as u32,
        };
        Ok((OptionalHeader::Bit64(h), directories_from(&dv)))
    } else {
        let mut m: String = "unknown optional header magic ".to_owned();
        push_hex(&mut m, magic as u64);
        Err(PeError::Malformed(m))
    }
}

fn read_section(bytes: &[u8], sh: SectionHeader) -> (r: Section)
    ensures
        r@ == section_of(bytes@, sh),
{
    let len: u64 = bytes.len() as u64;
    let ptr: u64 = sh.pointer_to_raw_data.get() as u64;
    let raw: u64 = sh.size_of_raw_data as u64;
    let mut data: Vec<u8> = Vec::new();
    if ptr < len {
        let end: u64 = if ptr + raw <= len {
            ptr + raw
        } else {
            len
        };
        push_bytes(&mut data, slice_subrange(bytes, ptr as usize, end as usize));
    }
    assert(data@ =~= raw_data(bytes@, sh));
    let vs: u32 = sh.virtual_size;
    if vs != 0 {
        let n: u64 = data.len() as u64;
        if n > vs as u64 {
            data.truncate(vs as usize);
        } else if n < vs as u64 && vs <= MAX_SECTION_SIZE {
            resize_zero(&mut data, vs as usize);
        }
    }
    assert(data@ =~= loaded(raw_data(bytes@, sh), vs));
    Section { header: sh, data }
}

fn parse_sections(bytes: &[u8], off: u64, n: u16) -> (r: PeResult<Vec<Section>>)
    requires
        off <= 0x1_0001_0020,
    ensures
        match r {
            Ok(s) => sections_at(bytes@, off as nat, n as nat) is Ok && sections_at(
                bytes@,
                off as nat,
                n as nat,
            )->Ok_0 == views(s@),
            Err(e) => sections_at(bytes@, off as nat, n as nat) is Err && sections_at(
                bytes@,
                off as nat,
                n as nat,
            )->Err_0 == e@,
        },
{
    let mut out: Vec<Section> = Vec::new();
    let mut i: u16 = 0;
    assert(views(out@) =~= Seq::empty());
    while i < n
        invariant
            i <= n,
            off <= 0x1_0001_0020,
            sections_at(bytes@, off as nat, i as nat) is Ok,
            sections_at(bytes@, off as nat, i as nat)->Ok_0 == views(out@),
        decreases n - i,
    {
        let v = match read_record(bytes, off + 40 * (i as u64), &section_layout()) {
            Ok(v) => v,
            Err(e) => {
                proof {
                    lemma_sections_err(bytes@, off as nat, (i + 1) as nat, n as nat);
                }
                return Err(e);
            },
        };
        let h = SectionHeader {
            name: [
                v[0] as u8,
                v[1] as u8,
                v[2] as u8,
                v[3] as u8,
                v[4] as u8,
                v[5] as u8,
                v[6] as u8,
                v[7] as u8,
            ],
            virtual_size: v[8] as u32,
            virtual_address: Rva(v[9] as u32),
            size_of_raw_data: v[10] as u32,
            pointer_to_raw_data: RawOffset(v[11] as u32),
            characteristics: v[16] as u32,
        };
        proof {
            assert(h.name =~= section_header_of(v@).name);
            assert(h == section_header_of(v@));
        }
        let s = read_section(bytes, h);
        proof {
            lemma_views_push(out@, s);
        }
        out.push(s);
        i = i + 1;
    }
    Ok(out)
}

proof fn lemma_sections_err(bytes: Seq<u8>, off: nat, i: nat, n: nat)
    requires
        i <= n,
        sections_at(bytes, off, i) is Err,
    ensures
        sections_at(bytes, off, n) == sections_at(bytes, off, i),
    decreases n,
{
    if i < n {
        lemma_sections_err(bytes, off, i, (n - 1) as nat);
    }
}

/// Keep the first `n` directories.
fn count_directories(dirs: &[DataDirectory], n: u32) -> (r: Vec<DataDirectory>)
    requires
        dirs@.len() == 16,
    ensures
        r@ == counted_directories(dirs@, n),
{
    let mut r: Vec<DataDirectory> = Vec::new();
    let mut i: usize = 0;
    while i < 16
        invariant
            i <= 16,
            dirs@.len() == 16,
            r@ == counted_directories(dirs@, n).take(i as int),
        decreases 16 - i,
    {
        if (i as u32) < n {
            r.push(dirs[i]);
        } else {
            r.push(DataDirectory { rva: Rva(0), size: 0 });
        }
        i = i + 1;
        assert(r@ =~= counted_directories(dirs@, n).take(i as int));
    }
    assert(counted_directories(dirs@, n).take(16) =~= counted_directories(dirs@, n));
    r
}

/// The document of a file's headers and sections.
fn parse_skeleton(bytes: &[u8]) -> (r: PeResult<PeDocument>)
    ensures
        result_view(r) == skeleton(bytes@),
{
    let dos = match parse_dos(bytes) {
        Ok(d) => d,
        Err(e) => return Err(e),
    };
    if dos.e_magic != DOS_MAGIC {
        return Err(malformed("bad DOS magic"));
    }
    let pe_off: u64 = dos.e_lfanew as u64;
    if pe_off + 4 > bytes.len() as u64 {
        return Err(truncation(pe_off, 4));
    }
    let o: usize = pe_off as usize;
    let ghost sig = bytes@.subrange(o as int, o + 4);
    if !(bytes[o] == 80 && bytes[o + 1] == 69 && bytes[o + 2] == 0 && bytes[o + 3] == 0) {
        proof {
            assert(sig[0] == bytes@[o as int] && sig[1] == bytes@[o + 1] && sig[2] == bytes@[o + 2]
                && sig[3] == bytes@[o + 3]);
        }
        let mut m: String = "missing PE signature at ".to_owned();
        push_hex(&mut m, pe_off);
        return Err(PeError::Malformed(m));
    }
    assert(sig =~= seq![80u8, 69u8, 0u8, 0u8]);
    let coff = match parse_coff(bytes, pe_off + 4) {
        Ok(c) => c,
        Err(e) => return Err(e),
    };
    let size: u16 = coff.size_of_optional_header;
    let (optional, dirs) = match parse_optional(bytes, pe_off + 24, size) {
        Ok(x) => x,
        Err(e) => return Err(e),
    };
    let sections = match parse_sections(bytes, pe_off + 24 + size as u64, coff.number_of_sections) {
        Ok(s) => s,
        Err(e) => return Err(e),
    };
    let n: u32 = optional.number_of_rva_and_sizes();
    let imports: Vec<ImportDescriptor> = Vec::new();
    assert(views(imports@) =~= Seq::empty());
    Ok(
        PeDocument {
            arch: optional.arch(),
            dos,
            coff,
            optional,
            sections,
            data_directories: count_directories(&dirs, n),
            imports,
            exports: None,
            resources: None,
            relocations: None,
            tls: None,
            load_config: None,
        },
    )
}

/// `p` in front of what `o` holds.
pub open spec fn prepend<T>(p: Seq<T>, o: Option<Seq<T>>) -> Option<Seq<T>> {
    match o {
        None => None,
        Some(x) => Some(p + x),
    }
}

proof fn lemma_prepend<T>(p: Seq<T>, x: T, o: Option<Seq<T>>)
    ensures
        prepend(p, prepend(seq![x], o)) == prepend(p.push(x), o),
{
    if let Some(y) = o {
        assert(p + (seq![x] + y) =~= p.push(x) + y);
    }
}

proof fn lemma_prepend_empty<T>(o: Option<Seq<T>>)
    ensures
        prepend(Seq::<T>::empty(), o) == o,
{
    if let Some(y) = o {
        assert(Seq::<T>::empty() + y =~= y);
    }
}

/// Read the record with the field widths `ws` at `rva` of the image.
fn read_image_record(doc: &PeDocument, rva: u32, ws: &[u8]) -> (r: Option<Vec<u64>>)
    requires
        layout_ok(ws@),
    ensures
        match r {
            Some(v) => image_record(doc@.sections, rva, ws@) == Some(v@) && v@.len() == ws@.len(),
            None => image_record(doc@.sections, rva, ws@) is None,
        },
{
    let n: usize = layout_len(ws);
    match doc.read(Rva(rva), n) {
        Ok(b) => {
            let v = read_fields(b, 0, ws);
            assert(b@.subrange(0, n as int) =~= b@);
            Some(v)
        },
        Err(_) => None,
    }
}

/// Read the `w`-byte number at `rva` of the image.
fn read_number(doc: &PeDocument, rva: u32, w: usize) -> (r: Option<u64>)
    requires
        w <= 8,
    ensures
        match r {
            Some(v) => image_read(doc@.sections, rva, w as nat) is Some && v == le_value(
                image_read(doc@.sections, rva, w as nat)->0,
            ) && image_read(doc@.sections, rva, w as nat)->0.len() == w,
            None => image_read(doc@.sections, rva, w as nat) is None,
        },
{
    match doc.read(Rva(rva), w) {
        Ok(b) => {
            assert(b@.subrange(0, w as int) =~= b@);
            Some(read_le(b, 0, w))
        },
        Err(_) => None,
    }
}

/// Read the NUL-terminated text at `rva`.
pub(crate) fn read_cstring(doc: &PeDocument, rva: u32) -> (r: Option<String>)
    ensures
        cstring(doc@.sections, rva) == opt_text(r),
{
    let mut out: Vec<u8> = Vec::new();
    let mut i: u32 = 0;
    let ghost secs = doc@.sections;
    proof {
        lemma_prepend_empty(cstring_from(secs, rva, 0));
    }
    while i < MAX_STRING
        invariant
            i <= MAX_STRING,
            secs == doc@.sections,
            cstring_from(secs, rva, 0) == prepend(out@, cstring_from(secs, rva, i as nat)),
        decreases MAX_STRING - i,
    {
        if i > u32::MAX - rva {
            return None;
        }
        let b: u8 = match doc.read(Rva(rva + i), 1) {
            Ok(b) => b[0],
            Err(_) => {
                return None;
            },
        };
        if b == 0 {
            assert(out@ + Seq::<u8>::empty() =~= out@);
            return Some(text_of_utf8(&out));
        }
        proof {
            lemma_prepend(out@, b, cstring_from(secs, rva, (i + 1) as nat));
        }
        out.push(b);
        i = i + 1;
    }
    None
}

/// Read the import that the thunk value `v` stands for.
fn read_thunk_function(doc: &PeDocument, v: u64, psize: usize) -> (r: Option<ImportFunction>)
    requires
        psize == 4 || psize == 8,
    ensures
        match r {
            Some(f) => thunk_function(doc@.sections, v as nat, psize as nat) == Some(f@),
            None => thunk_function(doc@.sections, v as nat, psize as nat) is None,
        },
{
    let flag: u64 = if psize == 8 {
        0x8000_0000_0000_0000
    } else {
        0x8000_0000
    };
    if v >= flag {
        return Some(ImportFunction::Ordinal { ordinal: (v % 0x1_0000) as u16 });
    }
    let name_rva: u32 = (v % 0x1_0000_0000) as u32;
    let hint: u16 = match read_number(doc, name_rva, 2) {
        Some(h) => h as u16,
        None => {
            return None;
        },
    };
    if name_rva > u32::MAX - 2 {
        return None;
    }
    match read_cstring(doc, name_rva + 2) {
        Some(name) => Some(ImportFunction::Name { hint, name }),
        None => None,
    }
}

/// Read the thunk array at `thunk_rva`.
fn parse_thunks(doc: &PeDocument, thunk_rva: u32, psize: usize) -> (r: Option<Vec<ImportFunction>>)
    requires
        psize == 4 || psize == 8,
    ensures
        match r {
            Some(f) => thunks_from(doc@.sections, thunk_rva as int, psize as nat) == Some(views(f@)),
            None => thunks_from(doc@.sections, thunk_rva as int, psize as nat) is None,
        },
{
    let mut out: Vec<ImportFunction> = Vec::new();
    let mut addr: u64 = thunk_rva as u64;
    let ghost secs = doc@.sections;
    proof {
        assert(views(out@) =~= Seq::empty());
        lemma_prepend_empty(thunks_from(secs, addr as int, psize as nat));
    }
    while addr <= u32::MAX as u64
        invariant_except_break
            addr <= 0x1_0000_0008,
        invariant
            psize == 4 || psize == 8,
            secs == doc@.sections,
            thunks_from(secs, thunk_rva as int, psize as nat) == prepend(
                views(out@),
                thunks_from(secs, addr as int, psize as nat),
            ),
        ensures
            thunks_from(secs, addr as int, psize as nat) == Some(
                Seq::<ImportFunctionModel>::empty(),
            ),
        decreases 0x1_0000_0020 - addr,
    {
        let v: u64 = match read_number(doc, addr as u32, psize) {
            Some(v) => v,
            None => {
                break;
            },
        };
        if v == 0 {
            break;
        }
        match read_thunk_function(doc, v, psize) {
            None => {
                return None;
            },
            Some(f) => {
                proof {
                    lemma_views_push(out@, f);
                    lemma_prepend(views(out@), f@, thunks_from(secs, addr + psize, psize as nat));
                }
                out.push(f);
            },
        }
        addr = addr + psize as u64;
    }
    assert(views(out@) + Seq::<ImportFunctionModel>::empty() =~= views(out@));
    Some(out)
}

/// What was read at the place of an import descriptor.
enum ImportRead {
    End,
    Broken,
    Item(ImportDescriptor),
}

impl View for ImportRead {
    type V = ImportStep;

    closed spec fn view(&self) -> ImportStep {
        match self {
            ImportRead::End => ImportStep::End,
            ImportRead::Broken => ImportStep::Broken,
            ImportRead::Item(d) => ImportStep::Item(d@),
        }
    }
}

/// Read the import descriptor at `addr` with its name and thunks.
fn read_import(doc: &PeDocument, addr: u32, psize: usize) -> (r: ImportRead)
    requires
        psize == 4 || psize == 8,
    ensures
        r@ == import_step(doc@.sections, addr, psize as nat),
{
    let d = match read_image_record(doc, addr, &import_layout()) {
        Some(d) => d,
        None => {
            return ImportRead::End;
        },
    };
    let original: u32 = d[0] as u32;
    let first: u32 = d[4] as u32;
    let thunk: u32 = if original != 0 {
        original
    } else {
        first
    };
    if thunk == 0 {
        return ImportRead::End;
    }
    let name = match read_cstring(doc, d[3] as u32) {
        Some(n) => n,
        None => {
            return ImportRead::Broken;
        },
    };
    match parse_thunks(doc, thunk, psize) {
        Some(functions) => ImportRead::Item(ImportDescriptor { name, functions }),
        None => ImportRead::Broken,
    }
}

/// Parse the import table at `dir_rva` of an in-memory document. The writer
/// uses it to see whether an existing directory still says what the document's
/// rich imports say.
pub(crate) fn parse_imports_from_doc(doc: &PeDocument, dir_rva: u32) -> (r: Option<
    Vec<ImportDescriptor>,
>)
    ensures
        match r {
            Some(im) => imports_from(doc@.sections, dir_rva as int, pointer_size(doc@.arch)) == Some(
                views(im@),
            ),
            None => imports_from(doc@.sections, dir_rva as int, pointer_size(doc@.arch)) is None,
        },
{
    let psize: usize = ptr_size(doc.arch);
    let mut out: Vec<ImportDescriptor> = Vec::new();
    let mut addr: u64 = dir_rva as u64;
    let ghost secs = doc@.sections;
    proof {
        assert(views(out@) =~= Seq::empty());
        lemma_prepend_empty(imports_from(secs, addr as int, psize as nat));
    }
    while addr <= u32::MAX as u64
        invariant_except_break
            addr <= 0x1_0000_0014,
        invariant
            psize == 4 || psize == 8,
            psize == pointer_size(doc@.arch),
            secs == doc@.sections,
            imports_from(secs, dir_rva as int, psize as nat) == prepend(
                views(out@),
                imports_from(secs, addr as int, psize as nat),
            ),
        ensures
            imports_from(secs, addr as int, psize as nat) == Some(
                Seq::<ImportDescriptorModel>::empty(),
            ),
        decreases 0x1_0000_0020 - addr,
    {
        let desc = match read_import(doc, addr as u32, psize) {
            ImportRead::End => {
                break;
            },
            ImportRead::Broken => {
                return None;
            },
            ImportRead::Item(d) => d,
        };
        proof {
            lemma_views_push(out@, desc);
            lemma_prepend(views(out@), desc@, imports_from(secs, addr + 20, psize as nat));
        }
        out.push(desc);
        addr = addr + 20;
    }
    assert(views(out@) + Seq::<ImportDescriptorModel>::empty() =~= views(
        out@,
    ));
    Some(out)
}

/// Read entry `i` of a table of `step`-byte numbers at `rva`.
fn read_table_entry(doc: &PeDocument, rva: u32, i: u32, step: usize) -> (r: Option<u64>)
    requires
        step == 2 || step == 4,
    ensures
        match r {
            Some(v) => table_entry(doc@.sections, rva, i as nat, step as nat) == Some(v as nat) && v
                < 0x1_0000_0000 && (step == 2 ==> v < 0x1_0000),
            None => table_entry(doc@.sections, rva, i as nat, step as nat) is None,
        },
{
    let at: u64 = if step == 4 {
        rva as u64 + 4 * (i as u64)
    } else {
        rva as u64 + 2 * (i as u64)
    };
    assert(at == rva + step * i) by (nonlinear_arith)
        requires
            step == 4 && at == rva + 4 * i || step == 2 && at == rva + 2 * i,
    ;
    if at > u32::MAX as u64 {
        return None;
    }
    proof {
        if let Some(b) = image_read(doc@.sections, at as u32, step as nat) {
            lemma_le_value_bound(b);
            lemma_pow256_values();
        }
    }
    read_number(doc, at as u32, step)
}

/// Read symbol `i` of the export table with the header fields `d`.
fn read_export_symbol(doc: &PeDocument, dd: DataDirectory, d: &Vec<u64>, i: u32) -> (r: Option<
    ExportSymbol,
>)
    requires
        d@.len() == 11,
    ensures
        match r {
            Some(s) => export_symbol(doc@.sections, dd, d@, i as nat) == Some(s@),
            None => export_symbol(doc@.sections, dd, d@, i as nat) is None,
        },
{
    let name_rva: u64 = match read_table_entry(doc, d[9] as u32, i, 4) {
        Some(v) => v,
        None => {
            return None;
        },
    };
    let idx: u64 = match read_table_entry(doc, d[10] as u32, i, 2) {
        Some(v) => v,
        None => {
            return None;
        },
    };
    let func: u64 = match read_table_entry(doc, d[8] as u32, idx as u32, 4) {
        Some(v) => v,
        None => {
            return None;
        },
    };
    let name = match read_cstring(doc, name_rva as u32) {
        Some(n) => n,
        None => {
            return None;
        },
    };
    let func_rva: u32 = func as u32;
    let end: u32 = dd.rva.get().saturating_add(dd.size);
    let forwarder = if func_rva >= dd.rva.get() && func_rva < end {
        match read_cstring(doc, func_rva) {
            Some(f) => Some(f),
            None => {
                return None;
            },
        }
    } else {
        None
    };
    let base: u32 = d[5] as u32;
    let ordinal: u32 = match base.checked_add(idx as u32) {
        Some(o) => o,
        None => 0,
    };
    Some(
        ExportSymbol { name: Some(name), ordinal: ordinal as u16, rva: Rva(func_rva), forwarder },
    )
}

proof fn lemma_exports_none(
    sections: Seq<SectionModel>,
    dd: DataDirectory,
    d: Seq<u64>,
    i: nat,
    n: nat,
)
    requires
        i <= n,
        export_symbols(sections, dd, d, i) is None,
    ensures
        export_symbols(sections, dd, d, n) is None,
    decreases n,
{
    if i < n {
        lemma_exports_none(sections, dd, d, i, (n - 1) as nat);
    }
}

/// Parse the export table described by directory entry `dd`.
pub(crate) fn parse_exports_from_doc(doc: &PeDocument, dd: DataDirectory) -> (r: Option<
    ExportTable,
>)
    ensures
        match r {
            Some(t) => exports_at(doc@.sections, dd) == Some(t@),
            None => exports_at(doc@.sections, dd) is None,
        },
{
    let d = match read_image_record(doc, dd.rva.get(), &export_layout()) {
        Some(d) => d,
        None => {
            return None;
        },
    };
    let module_name = read_cstring(doc, d[4] as u32);
    let number_of_names: u32 = d[7] as u32;
    let mut symbols: Vec<ExportSymbol> = Vec::new();
    let mut i: u32 = 0;
    assert(views(symbols@) =~= Seq::empty());
    while i < number_of_names
        invariant
            i <= number_of_names,
            d@.len() == 11,
            number_of_names == d@[7] as u32,
            image_record(doc@.sections, dd.rva.0, export_fields()) == Some(
                d@,
            ),
            export_symbols(doc@.sections, dd, d@, i as nat) == Some(views(symbols@)),
        decreases number_of_names - i,
    {
        match read_export_symbol(doc, dd, &d, i) {
            None => {
                proof {
                    lemma_exports_none(
                        doc@.sections,
                        dd,
                        d@,
                        (i + 1) as nat,
                        number_of_names as nat,
                    );
                }
                return None;
            },
            Some(s) => {
                proof {
                    lemma_views_push(symbols@, s);
                }
                symbols.push(s);
            },
        }
        i = i + 1;
    }
    Some(
        ExportTable {
            module_name,
            base: d[5] as u32,
            number_of_functions: d[6] as u32,
            symbols,
        },
    )
}

/// The two-byte numbers in `b`.
fn read_units(b: &[u8]) -> (r: Vec<u16>)
    ensures
        r@ == units_of(b@),
{
    let mut r: Vec<u16> = Vec::new();
    let mut i: usize = 0;
    let n: usize = b.len() / 2;
    while i < n
        invariant
            i <= n,
            n == b@.len() / 2,
            2 * n <= b.len(),
            r@ == units_of(b@).take(i as int),
        decreases n - i,
    {
        r.push(read_le(b, 2 * i, 2) as u16);
        i = i + 1;
        assert(r@ =~= units_of(b@).take(i as int));
    }
    assert(units_of(b@).take(n as int) =~= units_of(b@));
    r
}

/// Read the length-prefixed UTF-16 name at `base + offset`.
fn read_resource_name(doc: &PeDocument, base: u32, offset: u32) -> (r: Option<String>)
    ensures
        resource_name_at(doc@.sections, base, offset as int) == opt_text(r),
{
    if offset > u32::MAX - base {
        return None;
    }
    let rva: u32 = base + offset;
    let len: u64 = match read_number(doc, rva, 2) {
        Some(v) => v,
        None => {
            return None;
        },
    };
    if len > 0x1000 || rva > u32::MAX - 2 {
        return None;
    }
    match doc.read(Rva(rva + 2), len as usize * 2) {
        Ok(b) => {
            let units = read_units(b);
            Some(text_of_utf16(&units))
        },
        Err(_) => None,
    }
}

/// Read the leaf at `base + offset`.
fn read_resource_leaf(doc: &PeDocument, base: u32, offset: u32) -> (r: Option<ResourceDataEntry>)
    ensures
        r == resource_leaf_at(doc@.sections, base, offset as int),
{
    if offset > u32::MAX - base {
        return None;
    }
    match read_image_record(doc, base + offset, &resource_data_layout()) {
        Some(v) => Some(
            ResourceDataEntry { rva: Rva(v[0] as u32), size: v[1] as u32, code_page: v[2] as u32 },
        ),
        None => None,
    }
}

proof fn lemma_resource_none(
    sections: Seq<SectionModel>,
    base: u32,
    dir: u32,
    depth: nat,
    i: nat,
    n: nat,
)
    requires
        i <= n,
        depth <= MAX_RESOURCE_DEPTH,
        resource_entries(sections, base, dir, depth, i) is None,
    ensures
        resource_entries(sections, base, dir, depth, n) is None,
    decreases n,
{
    if i < n {
        lemma_resource_none(sections, base, dir, depth, i, (n - 1) as nat);
    }
}

/// Read the name field `f` of a resource entry.
fn read_name_field(doc: &PeDocument, base: u32, f: u32) -> (r: Option<ResourceName>)
    ensures
        match r {
            Some(n) => resource_name_of(doc@.sections, base, f) == Some(n@),
            None => resource_name_of(doc@.sections, base, f) is None,
        },
{
    if f >= 0x8000_0000 {
        match read_resource_name(doc, base, f - 0x8000_0000) {
            Some(s) => Some(ResourceName::Named(s)),
            None => None,
        }
    } else {
        Some(ResourceName::Id(f))
    }
}

fn parse_resource_directory(doc: &PeDocument, base: u32, dir: u32, depth: usize) -> (r: Option<
    ResourceDirectory,
>)
    ensures
        match r {
            Some(d) => resources_at(doc@.sections, base, dir, depth as nat) == Some(d@),
            None => resources_at(doc@.sections, base, dir, depth as nat) is None,
        },
    decreases MAX_RESOURCE_DEPTH + 1 - depth,
{
    if depth > MAX_RESOURCE_DEPTH {
        return None;
    }
    let ghost secs = doc@.sections;
    let h = match read_image_record(doc, dir, &resource_dir_layout()) {
        Some(h) => h,
        None => {
            return None;
        },
    };
    let n: u32 = h[4] as u16 as u32 + h[5] as u16 as u32;
    let mut entries: Vec<ResourceEntry> = Vec::new();
    let mut i: u32 = 0;
    assert(views(entries@) =~= Seq::<ResourceEntryModel>::empty());
    while i < n
        invariant
            i <= n,
            n <= 131070,
            depth <= MAX_RESOURCE_DEPTH,
            secs == doc@.sections,
            resources_at(secs, base, dir, depth as nat) == resource_entries(
                secs,
                base,
                dir,
                depth as nat,
                n as nat,
            ),
            resource_entries(secs, base, dir, depth as nat, i as nat) == Some(views(entries@)),
        decreases n - i,
    {
        let ghost next = resource_entries(secs, base, dir, depth as nat, (i + 1) as nat);
        proof {
            if next is None {
                lemma_resource_none(secs, base, dir, depth as nat, (i + 1) as nat, n as nat);
            }
        }
        if 16 + 8 * i > u32::MAX - dir {
            return None;
        }
        let v = match read_image_record(doc, dir + (16 + 8 * i), &resource_entry_layout()) {
            Some(v) => v,
            None => {
                return None;
            },
        };
        let name = match read_name_field(doc, base, v[0] as u32) {
            Some(x) => x,
            None => {
                return None;
            },
        };
        let f: u32 = v[1] as u32;
        let data = if f >= 0x8000_0000 {
            let off: u32 = f - 0x8000_0000;
            if off > u32::MAX - base {
                return None;
            }
            match parse_resource_directory(doc, base, base + off, depth + 1) {
                Some(sub) => ResourceEntryData::Directory(sub),
                None => {
                    return None;
                },
            }
        } else {
            match read_resource_leaf(doc, base, f) {
                Some(leaf) => ResourceEntryData::Leaf(leaf),
                None => {
                    return None;
                },
            }
        };
        let e = ResourceEntry { name, data };
        proof {
            lemma_views_push(entries@, e);
            assert(next == Some(views(entries@).push(e@)));
        }
        entries.push(e);
        i = i + 1;
    }
    let r = ResourceDirectory { entries };
    assert(r@ =~= views(r.entries@));
    Some(r)
}

/// Parse the resource directory tree rooted at `dd`.
pub(crate) fn parse_resources_from_doc(doc: &PeDocument, dd: DataDirectory) -> (r: Option<
    ResourceDirectory,
>)
    ensures
        match r {
            Some(d) => resources_at(doc@.sections, dd.rva.0, dd.rva.0, 0) == Some(d@),
            None => resources_at(doc@.sections, dd.rva.0, dd.rva.0, 0) is None,
        },
{
    parse_resource_directory(doc, dd.rva.get(), dd.rva.get(), 0)
}

/// The relocation entries in `b`.
fn read_reloc_entries(b: &[u8]) -> (r: Vec<RelocationEntry>)
    ensures
        r@ == reloc_entries(b@),
{
    let units = read_units(b);
    let mut r: Vec<RelocationEntry> = Vec::new();
    let mut i: usize = 0;
    while i < units.len()
        invariant
            i <= units.len(),
            units@ == units_of(b@),
            r@ == reloc_entries(b@).take(i as int),
        decreases units.len() - i,
    {
        let v: u16 = units[i];
        r.push(RelocationEntry { reloc_type: (v / 0x1000) as u8, offset: v % 0x1000 });
        i = i + 1;
        assert(r@ =~= reloc_entries(b@).take(i as int));
    }
    assert(reloc_entries(b@).take(units.len() as int) =~= reloc_entries(b@));
    r
}

/// Parse the base relocation table described by `dd`.
pub(crate) fn parse_relocations_from_doc(doc: &PeDocument, dd: DataDirectory) -> (r: Option<
    RelocationTable,
>)
    ensures
        match r {
            Some(t) => relocs_from(doc@.sections, dd, 0) == Some(t@),
            None => relocs_from(doc@.sections, dd, 0) is None,
        },
{
    let extent: u64 = if dd.size != 0 {
        dd.size as u64
    } else {
        0x1000
    };
    let mut blocks: Vec<RelocationBlock> = Vec::new();
    let mut off: u64 = 0;
    let ghost secs = doc@.sections;
    proof {
        assert(views(blocks@) =~= Seq::empty());
        lemma_prepend_empty(relocs_from(secs, dd, 0));
    }
    while off + 8 <= extent
        invariant_except_break
            off <= 0x2_0000_0000,
        invariant
            extent == reloc_extent(dd),
            extent <= 0x1_0000_0000,
            secs == doc@.sections,
            relocs_from(secs, dd, 0) == prepend(views(blocks@), relocs_from(secs, dd, off as nat)),
        ensures
            relocs_from(secs, dd, off as nat) == Some(
                Seq::<RelocationBlockModel>::empty(),
            ),
        decreases extent + 0x1_0000_0000 - off,
    {
        let at: u64 = dd.rva.get() as u64 + off;
        if at > u32::MAX as u64 {
            return None;
        }
        let h = match read_image_record(doc, at as u32, &reloc_layout()) {
            Some(h) => h,
            None => {
                return None;
            },
        };
        let page: u32 = h[0] as u32;
        let size: u32 = h[1] as u32;
        if size < 8 {
            break;
        }
        if at + 8 > u32::MAX as u64 {
            return None;
        }
        let entries = match doc.read(Rva((at + 8) as u32), (size - 8) as usize) {
            Ok(b) => read_reloc_entries(b),
            Err(_) => {
                return None;
            },
        };
        let block = RelocationBlock { page_rva: Rva(page), entries };
        proof {
            lemma_views_push(blocks@, block);
            lemma_prepend(
                views(blocks@),
                block@,
                relocs_from(secs, dd, off as nat + size as nat),
            );
        }
        blocks.push(block);
        off = off + size as u64;
    }
    assert(views(blocks@) + Seq::<RelocationBlockModel>::empty()
        =~= views(blocks@));
    Some(RelocationTable { blocks })
}

/// Parse the TLS directory described by `dd`.
pub(crate) fn parse_tls_from_doc(doc: &PeDocument, dd: DataDirectory) -> (r: Option<TlsDirectory>)
    ensures
        r == tls_at(doc@.sections, doc@.arch, dd),
{
    let fields = match doc.arch {
        Arch::Bit64 => read_image_record(doc, dd.rva.get(), &tls64_layout()),
        Arch::Bit32 => read_image_record(doc, dd.rva.get(), &tls32_layout()),
    };
    match fields {
        Some(v) => Some(
            TlsDirectory {
                start_address_of_raw_data: v[0],
                end_address_of_raw_data: v[1],
                address_of_index: v[2],
                address_of_callbacks: v[3],
                size_of_zero_fill: v[4] as u32,
                characteristics: v[5] as u32,
            },
        ),
        None => None,
    }
}

/// The load configuration with the fields `v`.
fn load_config_from(v: &[u64]) -> (r: LoadConfigDirectory)
    requires
        v@.len() == 52,
    ensures
        r == load_config_of(v@),
{
    LoadConfigDirectory {
        size: v[0] as u32,
        time_date_stamp: v[1] as u32,
        major_version: v[2] as u16,
        minor_version: v[3] as u16,
        global_flags_clear: v[4] as u32,
        global_flags_set: v[5] as u32,
        security_cookie: v[17],
        se_handler_table: v[18],
        se_handler_count: v[19],
        guard_cf_check_function_pointer: v[20],
        guard_cf_dispatch_function_pointer: v[21],
        guard_cf_function_table: v[22],
        guard_cf_function_count: v[23],
        guard_flags: v[24] as u32,
        guard_address_taken_iat_entry_table: v[29],
        guard_address_taken_iat_entry_count: v[30],
        guard_long_jump_target_table: v[31],
        guard_long_jump_target_count: v[32],
        guard_eh_continuation_table: v[45],
        guard_eh_continuation_count: v[46],
        guard_xfg_check_function_pointer: v[47],
        guard_xfg_dispatch_function_pointer: v[48],
        chpe_metadata_pointer: v[34],
        hot_patch_table_offset: v[41] as u32,
    }
}

/// Parse the load configuration directory described by `dd`.
pub(crate) fn parse_load_config_from_doc(doc: &PeDocument, dd: DataDirectory) -> (r: Option<
    LoadConfigDirectory,
>)
    ensures
        r == load_config_at(doc@.sections, doc@.arch, dd),
{
    let full: usize = match doc.arch {
        Arch::Bit64 => layout_len(&load_config64_layout()),
        Arch::Bit32 => layout_len(&load_config32_layout()),
    };
    let size: u32 = match read_number(doc, dd.rva.get(), 4) {
        Some(v) => v as u32,
        None => {
            return None;
        },
    };
    let n: usize = if size as u64 <= full as u64 {
        size as usize
    } else {
        full
    };
    let mut b: Vec<u8> = Vec::new();
    match doc.read(dd.rva, n) {
        Ok(s) => {
            push_bytes(&mut b, s);
        },
        Err(_) => {
            return None;
        },
    }
    let ghost present = b@;
    resize_zero(&mut b, full);
    proof {
        assert(b@ =~= present + zeros((full - n) as nat));
    }
    let v = match doc.arch {
        Arch::Bit64 => read_fields(&b, 0, &load_config64_layout()),
        Arch::Bit32 => read_fields(&b, 0, &load_config32_layout()),
    };
    assert(b@.subrange(0, full as int) =~= b@);
    Some(load_config_from(&v))
}

/// The directory entry for `index` when it is present and not empty.
pub(crate) fn find_directory(doc: &PeDocument, index: DataDirectoryIndex) -> (r: Option<
    DataDirectory,
>)
    ensures
        r == present_directory(doc@.data_directories, index),
{
    let i: usize = index.to_usize();
    if i < doc.data_directories.len() && doc.data_directories[i].rva.get() != 0 {
        Some(doc.data_directories[i])
    } else {
        None
    }
}

/// Parse a PE file from raw bytes.
pub fn parse(bytes: &[u8]) -> (r: PeResult<PeDocument>)
    ensures
        result_view(r) == parsed(bytes@),
{
    let mut doc = match parse_skeleton(bytes) {
        Ok(d) => d,
        Err(e) => return Err(e),
    };
    // Rich directory parsing is lenient: a broken directory yields an empty
    // table instead of failing the whole file.
    let imports = match find_directory(&doc, DataDirectoryIndex::Import) {
        Some(dd) => match parse_imports_from_doc(&doc, dd.rva.get()) {
            Some(im) => im,
            None => Vec::new(),
        },
        None => Vec::new(),
    };
    let exports = match find_directory(&doc, DataDirectoryIndex::Export) {
        Some(dd) => parse_exports_from_doc(&doc, dd),
        None => None,
    };
    let resources = match find_directory(&doc, DataDirectoryIndex::Resource) {
        Some(dd) => parse_resources_from_doc(&doc, dd),
        None => None,
    };
    let relocations = match find_directory(&doc, DataDirectoryIndex::BaseReloc) {
        Some(dd) => parse_relocations_from_doc(&doc, dd),
        None => None,
    };
    let tls = match find_directory(&doc, DataDirectoryIndex::Tls) {
        Some(dd) => parse_tls_from_doc(&doc, dd),
        None => None,
    };
    let load_config = match find_directory(&doc, DataDirectoryIndex::LoadConfig) {
        Some(dd) => parse_load_config_from_doc(&doc, dd),
        None => None,
    };
    assert(views(imports@) =~= crate::io::pe::decode::imports_of(doc@));
    doc.imports = imports;
    doc.exports = exports;
    doc.resources = resources;
    doc.relocations = relocations;
    doc.tls = tls;
    doc.load_config = load_config;
    Ok(doc)
}

} // verus!
