//! The PE writer: [`PeDocument`] to bytes.
//!
//! The writer keeps a directory as it stands in the image when it still says
//! what the document's rich form says. Otherwise it renders the rich form into
//! a section of its own behind the image. It then serializes headers and
//! section data with recomputed raw offsets and sizes, so reading the file
//! back gives the document's content while the file layout is canonical.

use crate::bytes::{
    encode_fields, join, lemma_join_push, low, low32, push_bytes, push_fields, resize_zero,
    zero_bytes, zeros,
};
use crate::domain::coff::CoffHeader;
use crate::domain::data_directory::{
    directory_slot, empty_directory, DataDirectory, DataDirectoryIndex,
};
use crate::domain::document::{
    at_least_one, clone_sections, data_section_flags, image_end, image_end_of, DocModel, PeDocument,
};
use crate::domain::dos::{DosHeader, DosModel};
use crate::domain::export::ExportTable;
use crate::domain::import::{lemma_views_push, same_imports, views};
use crate::domain::optional::{
    header_file_alignment, header_section_alignment, OptionalHeader, OptionalHeader32,
    OptionalHeader64,
};
use crate::domain::resource::same_directory;
use crate::domain::section::{
    Section, SectionHeader, SectionModel, IMAGE_SCN_CNT_INITIALIZED_DATA, IMAGE_SCN_MEM_READ,
    IMAGE_SCN_MEM_WRITE,
};
use crate::domain::types::{align_up, aligned, machine_code, pointer_size, RawOffset, Rva};
use crate::error::{result_view, PeErrorModel, PeResult};
use crate::io::pe::decode::{
    exports_at, imports_from, load_config_in, relocations_of, resources_of, tls_in,
};
use crate::io::pe::directory_render::{
    load_config_bytes, reloc_bytes, render_load_config, render_relocations, render_resources,
    render_tls, tls_bytes, with_directory,
};
use crate::io::pe::export_render::{
    forwarders_agree, render_export_table, rendered_export, same_kind_per_ordinal,
};
use crate::io::pe::import_render::{render_import_table, rendered_import};
use crate::io::pe::layout::{
    coff_fields, coff_layout, directories_fields, directories_layout, dos_fields, dos_layout,
    optional32_fields, optional32_layout, optional64_fields, optional64_layout, section_fields,
    section_layout,
};
use crate::io::pe::parser::{
    find_directory, parse_exports_from_doc, parse_imports_from_doc, parse_load_config_from_doc,
    parse_relocations_from_doc, parse_resources_from_doc, parse_tls_from_doc,
};
use vstd::prelude::*;

verus! {

/// The section table and the data directories that a document is written with.
#[verifier::ext_equal]
pub struct FilePlan {
    pub sections: Seq<SectionModel>,
    pub dirs: Seq<DataDirectory>,
}

/// The data directory array brought to its full length.
pub open spec fn full_directories(dirs: Seq<DataDirectory>) -> Seq<DataDirectory> {
    if dirs.len() < 16 {
        dirs + Seq::new((16 - dirs.len()) as nat, |i: int| empty_directory())
    } else {
        dirs
    }
}

/// The section of a document's own sections and directories.
pub open spec fn initial_plan(d: DocModel) -> FilePlan {
    FilePlan { sections: d.sections, dirs: full_directories(d.data_directories) }
}

pub open spec fn rendered_section(name: [u8; 8], va: u32, blob: Seq<u8>) -> SectionModel {
    SectionModel {
        header: SectionHeader {
            name,
            virtual_size: low(blob.len()),
            virtual_address: Rva(va),
            size_of_raw_data: 0,
            pointer_to_raw_data: RawOffset(0),
            characteristics: data_section_flags(),
        },
        data: blob,
    }
}

/// Where the next rendered section goes.
pub open spec fn next_base(d: DocModel, p: FilePlan) -> u32 {
    aligned(image_end(p.sections), at_least_one(header_section_alignment(d.optional)))
}

/// The plan with one directory entry replaced.
pub open spec fn with_dir(p: FilePlan, index: DataDirectoryIndex, dd: DataDirectory) -> FilePlan {
    FilePlan { sections: p.sections, dirs: p.dirs.update(directory_slot(index), dd) }
}

/// The plan with `blob` in a section of its own and the directory pointing at it.
pub open spec fn with_rendered(
    d: DocModel,
    p: FilePlan,
    name: [u8; 8],
    index: DataDirectoryIndex,
    blob: Seq<u8>,
) -> FilePlan {
    let va = next_base(d, p);
    with_dir(
        FilePlan { sections: p.sections.push(rendered_section(name, va, blob)), dirs: p.dirs },
        index,
        DataDirectory { rva: Rva(va), size: low(blob.len()) },
    )
}

/// The names of the sections that the writer makes.
pub open spec fn import_section_name() -> [u8; 8] {
    [46, 112, 101, 105, 109, 112, 0, 0]
}

pub open spec fn export_section_name() -> [u8; 8] {
    [46, 112, 101, 101, 120, 112, 0, 0]
}

pub open spec fn resource_section_name() -> [u8; 8] {
    [46, 112, 101, 114, 115, 114, 99, 0]
}

pub open spec fn relocation_section_name() -> [u8; 8] {
    [46, 112, 101, 114, 101, 108, 0, 0]
}

pub open spec fn tls_section_name() -> [u8; 8] {
    [46, 112, 101, 116, 108, 115, 0, 0]
}

pub open spec fn load_config_section_name() -> [u8; 8] {
    [46, 112, 101, 108, 99, 102, 103, 0]
}

/// Whether the import directory in the image already says what the rich
/// imports say.
pub open spec fn imports_match(d: DocModel) -> bool {
    let dd = full_directories(d.data_directories)[1];
    dd.rva.0 != 0 && imports_from(d.sections, dd.rva.0 as int, pointer_size(d.arch)) == Some(
        d.imports,
    )
}

/// Whether the export directory in the image already says what the rich
/// exports say. A table without symbols is always rendered.
pub open spec fn exports_match(d: DocModel) -> bool {
    let dd = full_directories(d.data_directories)[0];
    d.exports matches Some(t) && t.symbols.len() > 0 && dd.rva.0 != 0 && exports_at(d.sections, dd)
        == Some(t)
}

/// The plan with the imports in place.
pub open spec fn plan_imports(d: DocModel, p: FilePlan) -> Result<FilePlan, PeErrorModel> {
    if d.imports.len() == 0 {
        Ok(
            with_dir(
                with_dir(p, DataDirectoryIndex::Import, empty_directory()),
                DataDirectoryIndex::Iat,
                empty_directory(),
            ),
        )
    } else if imports_match(d) {
        Ok(p)
    } else {
        let va = next_base(d, p);
        match rendered_import(d.imports, d.arch, va) {
            Err(e) => Err(e),
            Ok(r) => Ok(
                with_dir(
                    with_dir(
                        FilePlan {
                            sections: p.sections.push(
                                rendered_section(import_section_name(), va, r.blob),
                            ),
                            dirs: p.dirs,
                        },
                        DataDirectoryIndex::Import,
                        DataDirectory { rva: Rva(r.dir_rva), size: r.size },
                    ),
                    DataDirectoryIndex::Iat,
                    DataDirectory { rva: Rva(r.iat_rva), size: r.iat_size },
                ),
            ),
        }
    }
}

/// The plan with the exports in place.
pub open spec fn plan_exports(d: DocModel, p: FilePlan) -> Result<FilePlan, PeErrorModel> {
    match d.exports {
        None => Ok(with_dir(p, DataDirectoryIndex::Export, empty_directory())),
        Some(t) => if exports_match(d) {
            Ok(p)
        } else {
            let va = next_base(d, p);
            match rendered_export(t, va) {
                Err(e) => Err(e),
                Ok(r) => Ok(
                    with_dir(
                        FilePlan {
                            sections: p.sections.push(
                                rendered_section(export_section_name(), va, r.blob),
                            ),
                            dirs: p.dirs,
                        },
                        DataDirectoryIndex::Export,
                        DataDirectory { rva: Rva(r.rva), size: r.size },
                    ),
                ),
            }
        },
    }
}

/// The plan with the resources in place.
pub open spec fn plan_resources(d: DocModel, p: FilePlan) -> Result<FilePlan, PeErrorModel> {
    if resources_of(d) == d.resources {
        Ok(p)
    } else {
        match d.resources {
            None => Ok(with_dir(p, DataDirectoryIndex::Resource, empty_directory())),
            Some(t) => match with_directory(Seq::empty(), t, 0) {
                Err(e) => Err(e),
                Ok(b) => Ok(
                    with_rendered(d, p, resource_section_name(), DataDirectoryIndex::Resource, b),
                ),
            },
        }
    }
}

/// The plan with the relocations in place.
pub open spec fn plan_relocations(d: DocModel, p: FilePlan) -> FilePlan {
    if relocations_of(d) == d.relocations {
        p
    } else {
        match d.relocations {
            None => with_dir(p, DataDirectoryIndex::BaseReloc, empty_directory()),
            Some(t) => with_rendered(
                d,
                p,
                relocation_section_name(),
                DataDirectoryIndex::BaseReloc,
                reloc_bytes(t),
            ),
        }
    }
}

/// The plan with the TLS directory in place.
pub open spec fn plan_tls(d: DocModel, p: FilePlan) -> FilePlan {
    if tls_in(d) == d.tls {
        p
    } else {
        match d.tls {
            None => with_dir(p, DataDirectoryIndex::Tls, empty_directory()),
            Some(t) => with_rendered(
                d,
                p,
                tls_section_name(),
                DataDirectoryIndex::Tls,
                tls_bytes(t, d.arch),
            ),
        }
    }
}

/// The plan with the load configuration in place.
pub open spec fn plan_load_config(d: DocModel, p: FilePlan) -> FilePlan {
    if load_config_in(d) == d.load_config {
        p
    } else {
        match d.load_config {
            None => with_dir(p, DataDirectoryIndex::LoadConfig, empty_directory()),
            Some(t) => with_rendered(
                d,
                p,
                load_config_section_name(),
                DataDirectoryIndex::LoadConfig,
                load_config_bytes(t, d.arch),
            ),
        }
    }
}

/// The plan a document is written with.
pub open spec fn file_plan(d: DocModel) -> Result<FilePlan, PeErrorModel> {
    match plan_imports(d, initial_plan(d)) {
        Err(e) => Err(e),
        Ok(p1) => match plan_exports(d, p1) {
            Err(e) => Err(e),
            Ok(p2) => match plan_resources(d, p2) {
                Err(e) => Err(e),
                Ok(p3) => Ok(plan_load_config(d, plan_tls(d, plan_relocations(d, p3)))),
            },
        },
    }
}

/// The size of the optional header in the file, data directories included.
pub open spec fn optional_len(h: OptionalHeader) -> nat {
    match h {
        OptionalHeader::Bit32(_) => 224,
        OptionalHeader::Bit64(_) => 240,
    }
}

/// Where the headers of a file with `n` sections end.
pub open spec fn head_end(stub: nat, h: OptionalHeader, n: nat) -> nat {
    64 + stub + 4 + 20 + optional_len(h) + 40 * n
}

/// The size of the headers with their padding.
pub open spec fn headers_size(d: DocModel, n: nat) -> u32 {
    aligned(
        low(head_end(d.dos.stub.len(), d.optional, n)),
        at_least_one(header_file_alignment(d.optional)),
    )
}

/// The size a section's bytes have in the file.
pub open spec fn raw_size(d: DocModel, s: SectionModel) -> u32 {
    aligned(low(s.data.len()), at_least_one(header_file_alignment(d.optional)))
}

/// Where the bytes of section `i` begin in the file.
pub open spec fn raw_offset(d: DocModel, sections: Seq<SectionModel>, i: int) -> nat
    decreases i,
{
    if i <= 0 {
        headers_size(d, sections.len()) as nat
    } else {
        raw_offset(d, sections, i - 1) + raw_size(d, sections[i - 1]) as nat
    }
}

pub open spec fn dos_values(dos: DosModel) -> Seq<u64> {
    Seq::new(30, |i: int| dos.words[i] as u64).push(low(64 + dos.stub.len()) as u64)
}

pub open spec fn coff_values(coff: CoffHeader, sections: nat, optional: nat) -> Seq<u64> {
    seq![
        machine_code(coff.machine) as u64,
        sections as u64,
        coff.time_date_stamp as u64,
        coff.pointer_to_symbol_table as u64,
        coff.number_of_symbols as u64,
        optional as u64,
        coff.characteristics as u64,
    ]
}

pub open spec fn optional32_values(
    h: OptionalHeader32,
    size_of_headers: u32,
    size_of_image: u32,
) -> Seq<u64> {
    seq![
        h.magic as u64,
        h.major_linker_version as u64,
        h.minor_linker_version as u64,
        h.size_of_code as u64,
        h.size_of_initialized_data as u64,
        h.size_of_uninitialized_data as u64,
        h.address_of_entry_point.0 as u64,
        h.base_of_code.0 as u64,
        h.base_of_data.0 as u64,
        h.image_base as u64,
        h.section_alignment as u64,
        h.file_alignment as u64,
        h.major_operating_system_version as u64,
        h.minor_operating_system_version as u64,
        h.major_image_version as u64,
        h.minor_image_version as u64,
        h.major_subsystem_version as u64,
        h.minor_subsystem_version as u64,
        h.win32_version_value as u64,
        size_of_image as u64,
        size_of_headers as u64,
        h.checksum as u64,
        h.subsystem as u64,
        h.dll_characteristics as u64,
        h.size_of_stack_reserve as u64,
        h.size_of_stack_commit as u64,
        h.size_of_heap_reserve as u64,
        h.size_of_heap_commit as u64,
        h.loader_flags as u64,
        16u32 as u64,
    ]
}

pub open spec fn optional64_values(
    h: OptionalHeader64,
    size_of_headers: u32,
    size_of_image: u32,
) -> Seq<u64> {
    seq![
        h.magic as u64,
        h.major_linker_version as u64,
        h.minor_linker_version as u64,
        h.size_of_code as u64,
        h.size_of_initialized_data as u64,
        h.size_of_uninitialized_data as u64,
        h.address_of_entry_point.0 as u64,
        h.base_of_code.0 as u64,
        h.image_base,
        h.section_alignment as u64,
        h.file_alignment as u64,
        h.major_operating_system_version as u64,
        h.minor_operating_system_version as u64,
        h.major_image_version as u64,
        h.minor_image_version as u64,
        h.major_subsystem_version as u64,
        h.minor_subsystem_version as u64,
        h.win32_version_value as u64,
        size_of_image as u64,
        size_of_headers as u64,
        h.checksum as u64,
        h.subsystem as u64,
        h.dll_characteristics as u64,
        h.size_of_stack_reserve,
        h.size_of_stack_commit,
        h.size_of_heap_reserve,
        h.size_of_heap_commit,
        h.loader_flags as u64,
        16u32 as u64,
    ]
}

/// The fixed part of the optional header as bytes.
pub open spec fn optional_bytes(
    h: OptionalHeader,
    size_of_headers: u32,
    size_of_image: u32,
) -> Seq<u8> {
    match h {
        OptionalHeader::Bit32(h) => encode_fields(
            optional32_fields(),
            optional32_values(h, size_of_headers, size_of_image),
        ),
        OptionalHeader::Bit64(h) => encode_fields(
            optional64_fields(),
            optional64_values(h, size_of_headers, size_of_image),
        ),
    }
}

/// The first sixteen data directories as fields.
pub open spec fn directory_values(dirs: Seq<DataDirectory>) -> Seq<u64> {
    Seq::new(
        32,
        |i: int|
            if i % 2 == 0 {
                dirs[i / 2].rva.0 as u64
            } else {
                dirs[i / 2].size as u64
            },
    )
}

pub open spec fn section_values(h: SectionHeader, size: u32, ptr: u32) -> Seq<u64> {
    seq![
        h.name[0] as u64,
        h.name[1] as u64,
        h.name[2] as u64,
        h.name[3] as u64,
        h.name[4] as u64,
        h.name[5] as u64,
        h.name[6] as u64,
        h.name[7] as u64,
        h.virtual_size as u64,
        h.virtual_address.0 as u64,
        size as u64,
        ptr as u64,
        0u64,
        0u64,
        0u64,
        0u64,
        h.characteristics as u64,
    ]
}

/// The section headers as bytes.
pub open spec fn section_header_parts(d: DocModel, sections: Seq<SectionModel>) -> Seq<Seq<u8>> {
    Seq::new(
        sections.len(),
        |i: int|
            encode_fields(
                section_fields(),
                section_values(
                    sections[i].header,
                    raw_size(d, sections[i]),
                    low(raw_offset(d, sections, i)),
                ),
            ),
    )
}

/// The headers as bytes, without padding.
pub open spec fn header_bytes(d: DocModel, p: FilePlan) -> Seq<u8> {
    encode_fields(dos_fields(), dos_values(d.dos)) + d.dos.stub + seq![80u8, 69u8, 0u8, 0u8]
        + encode_fields(
        coff_fields(),
        coff_values(d.coff, p.sections.len(), optional_len(d.optional)),
    ) + optional_bytes(
        d.optional,
        headers_size(d, p.sections.len()),
        aligned(image_end(p.sections), at_least_one(header_section_alignment(d.optional))),
    ) + encode_fields(directories_fields(), directory_values(p.dirs)) + join(
        section_header_parts(d, p.sections),
    )
}

/// `b` cut or zero-filled to `n` bytes.
pub open spec fn resized(b: Seq<u8>, n: nat) -> Seq<u8> {
    if n <= b.len() {
        b.take(n as int)
    } else {
        b + zeros((n - b.len()) as nat)
    }
}

/// A section's bytes in the file: its data with zeros up to the raw size.
pub open spec fn section_file_bytes(d: DocModel, s: SectionModel) -> Seq<u8> {
    if raw_size(d, s) <= s.data.len() {
        s.data
    } else {
        s.data + zeros((raw_size(d, s) - s.data.len()) as nat)
    }
}

/// All section bytes.
pub open spec fn section_data_parts(d: DocModel, sections: Seq<SectionModel>) -> Seq<Seq<u8>> {
    Seq::new(sections.len(), |i: int| section_file_bytes(d, sections[i]))
}

/// The file a document is written to under a plan.
pub open spec fn file_bytes(d: DocModel, p: FilePlan) -> Seq<u8> {
    resized(header_bytes(d, p), headers_size(d, p.sections.len()) as nat) + join(
        section_data_parts(d, p.sections),
    )
}

/// The file a document is written to, or why it cannot be written.
pub open spec fn serialized(d: DocModel) -> Result<Seq<u8>, PeErrorModel> {
    match file_plan(d) {
        Err(e) => Err(e),
        Ok(p) => Ok(file_bytes(d, p)),
    }
}

/// A plan under construction.
struct Plan {
    sections: Vec<Section>,
    dirs: Vec<DataDirectory>,
}

impl View for Plan {
    type V = FilePlan;

    closed spec fn view(&self) -> FilePlan {
        FilePlan { sections: views(self.sections@), dirs: self.dirs@ }
    }
}

impl Plan {
    fn set(&mut self, index: DataDirectoryIndex, dd: DataDirectory)
        requires
            old(self)@.dirs.len() >= 16,
        ensures
            final(self)@ == with_dir(old(self)@, index, dd),
            final(self)@.dirs.len() == old(self)@.dirs.len(),
    {
        let i: usize = index.to_usize();
        self.dirs[i] = dd;
    }

    fn push(&mut self, name: [u8; 8], va: u32, blob: Vec<u8>)
        ensures
            final(self)@ == (FilePlan {
                sections: old(self)@.sections.push(rendered_section(name, va, blob@)),
                dirs: old(self)@.dirs,
            }),
    {
        let size: u32 = low32(blob.len() as u128);
        let s = Section {
            header: SectionHeader {
                name,
                virtual_size: size,
                virtual_address: Rva(va),
                size_of_raw_data: 0,
                pointer_to_raw_data: RawOffset(0),
                characteristics: IMAGE_SCN_CNT_INITIALIZED_DATA | IMAGE_SCN_MEM_READ
                    | IMAGE_SCN_MEM_WRITE,
            },
            data: blob,
        };
        proof {
            lemma_views_push(self.sections@, s);
        }
        self.sections.push(s);
    }

    fn base(&self, doc: &PeDocument) -> (r: u32)
        ensures
            r == next_base(doc@, self@),
    {
        align_up(image_end_of(&self.sections), one_at_least(doc.optional.section_alignment()))
    }

    /// Put `blob` into a section of its own and point the directory at it.
    fn render(&mut self, doc: &PeDocument, name: [u8; 8], index: DataDirectoryIndex, blob: Vec<u8>)
        requires
            old(self)@.dirs.len() >= 16,
        ensures
            final(self)@ == with_rendered(doc@, old(self)@, name, index, blob@),
            final(self)@.dirs.len() == old(self)@.dirs.len(),
    {
        let va: u32 = self.base(doc);
        let size: u32 = low32(blob.len() as u128);
        self.push(name, va, blob);
        self.set(index, DataDirectory { rva: Rva(va), size });
    }
}

fn one_at_least(n: u32) -> (r: u32)
    ensures
        r == at_least_one(n),
{
    if n < 1 {
        1
    } else {
        n
    }
}

/// The data directory array brought to its full length.
fn pad_directories(dirs: &[DataDirectory]) -> (r: Vec<DataDirectory>)
    ensures
        r@ == full_directories(dirs@),
        r@.len() >= 16,
{
    let mut r: Vec<DataDirectory> = Vec::new();
    let mut i: usize = 0;
    while i < dirs.len()
        invariant
            i <= dirs.len(),
            r@ == dirs@.take(i as int),
        decreases dirs.len() - i,
    {
        r.push(dirs[i]);
        i = i + 1;
        assert(r@ =~= dirs@.take(i as int));
    }
    assert(r@ =~= dirs@);
    let ghost n = r@.len();
    while r.len() < 16
        invariant
            n == dirs@.len(),
            n <= r@.len(),
            r@.len() <= 16 || r@.len() == n,
            r@ == dirs@ + Seq::new((r@.len() - n) as nat, |j: int| empty_directory()),
        decreases 16 - r@.len(),
    {
        let ghost before = r@;
        r.push(DataDirectory { rva: Rva(0), size: 0 });
        assert(r@ =~= dirs@ + Seq::new((r@.len() - n) as nat, |j: int| empty_directory()));
    }
    assert(r@ =~= full_directories(dirs@));
    r
}

fn place_imports(doc: &PeDocument, p: &mut Plan) -> (r: PeResult<()>)
    requires
        old(p)@.dirs == full_directories(doc@.data_directories),
        old(p)@.dirs.len() >= 16,
    ensures
        match r {
            Ok(_) => plan_imports(doc@, old(p)@) is Ok && plan_imports(doc@, old(p)@)->Ok_0
                == final(p)@ && final(p)@.dirs.len() >= 16,
            Err(e) => plan_imports(doc@, old(p)@) is Err && plan_imports(doc@, old(p)@)->Err_0
                == e@,
        },
{
    if doc.imports.len() == 0 {
        assert(doc@.imports.len() == 0);
        p.set(DataDirectoryIndex::Import, DataDirectory { rva: Rva(0), size: 0 });
        p.set(DataDirectoryIndex::Iat, DataDirectory { rva: Rva(0), size: 0 });
        return Ok(());
    }
    assert(doc@.imports.len() == doc.imports@.len());
    let dd: DataDirectory = p.dirs[1];
    let matches = dd.rva.get() != 0 && match parse_imports_from_doc(doc, dd.rva.get()) {
        Some(im) => same_imports(&im, &doc.imports),
        None => false,
    };
    if matches {
        return Ok(());
    }
    let va: u32 = p.base(doc);
    let rendered = match render_import_table(&doc.imports, doc.arch, Rva(va)) {
        Ok(r) => r,
        Err(e) => {
            return Err(e);
        },
    };
    let name: [u8; 8] = [46, 112, 101, 105, 109, 112, 0, 0];
    assert(name =~= import_section_name());
    p.push(name, va, rendered.blob);
    p.set(
        DataDirectoryIndex::Import,
        DataDirectory { rva: Rva(rendered.dir_rva), size: rendered.size },
    );
    p.set(
        DataDirectoryIndex::Iat,
        DataDirectory { rva: Rva(rendered.iat_rva), size: rendered.iat_size },
    );
    Ok(())
}

/// Whether the export directory `dd` of a document already says what its
/// exports say.
fn exports_stand(doc: &PeDocument, exports: &ExportTable, dd: DataDirectory) -> (r: bool)
    requires
        dd == full_directories(doc@.data_directories)[0],
        doc.exports == Some(*exports),
    ensures
        r == exports_match(doc@),
{
    assert(exports@.symbols.len() == exports.symbols@.len());
    exports.symbols.len() > 0 && dd.rva.get() != 0 && match parse_exports_from_doc(doc, dd) {
        Some(t) => t.same(exports),
        None => false,
    }
}

fn place_exports(doc: &PeDocument, p: &mut Plan) -> (r: PeResult<()>)
    requires
        old(p)@.dirs.len() >= 16,
        old(p)@.dirs[0] == full_directories(doc@.data_directories)[0],
        writable(doc@),
    ensures
        match r {
            Ok(_) => plan_exports(doc@, old(p)@) is Ok && plan_exports(doc@, old(p)@)->Ok_0
                == final(p)@ && final(p)@.dirs.len() >= 16,
            Err(e) => plan_exports(doc@, old(p)@) is Err && plan_exports(doc@, old(p)@)->Err_0
                == e@,
        },
{
    let exports: &ExportTable = match &doc.exports {
        None => {
            p.set(DataDirectoryIndex::Export, DataDirectory { rva: Rva(0), size: 0 });
            return Ok(());
        },
        Some(t) => t,
    };
    let dd: DataDirectory = p.dirs[0];
    if exports_stand(doc, exports, dd) {
        return Ok(());
    }
    let va: u32 = p.base(doc);
    let rendered = match render_export_table(exports, Rva(va)) {
        Ok(r) => r,
        Err(e) => {
            return Err(e);
        },
    };
    let name: [u8; 8] = [46, 112, 101, 101, 120, 112, 0, 0];
    assert(name =~= export_section_name());
    p.push(name, va, rendered.blob);
    p.set(
        DataDirectoryIndex::Export,
        DataDirectory { rva: Rva(rendered.rva), size: rendered.size },
    );
    Ok(())
}

fn place_resources(doc: &PeDocument, p: &mut Plan) -> (r: PeResult<()>)
    requires
        old(p)@.dirs.len() >= 16,
    ensures
        match r {
            Ok(_) => plan_resources(doc@, old(p)@) is Ok && plan_resources(doc@, old(p)@)->Ok_0
                == final(p)@ && final(p)@.dirs.len() >= 16,
            Err(e) => plan_resources(doc@, old(p)@) is Err && plan_resources(doc@, old(p)@)->Err_0
                == e@,
        },
{
    let existing = match find_directory(doc, DataDirectoryIndex::Resource) {
        Some(dd) => parse_resources_from_doc(doc, dd),
        None => None,
    };
    match &doc.resources {
        None => {
            if existing.is_some() {
                p.set(DataDirectoryIndex::Resource, DataDirectory { rva: Rva(0), size: 0 });
            }
        },
        Some(t) => {
            let same = match &existing {
                Some(x) => same_directory(x, t),
                None => false,
            };
            if !same {
                let blob = match render_resources(t) {
                    Ok(b) => b,
                    Err(e) => {
                        return Err(e);
                    },
                };
                let name: [u8; 8] = [46, 112, 101, 114, 115, 114, 99, 0];
                assert(name =~= resource_section_name());
                p.render(doc, name, DataDirectoryIndex::Resource, blob);
            }
        },
    }
    Ok(())
}

fn place_relocations(doc: &PeDocument, p: &mut Plan)
    requires
        old(p)@.dirs.len() >= 16,
    ensures
        final(p)@ == plan_relocations(doc@, old(p)@),
        final(p)@.dirs.len() >= 16,
{
    let existing = match find_directory(doc, DataDirectoryIndex::BaseReloc) {
        Some(dd) => parse_relocations_from_doc(doc, dd),
        None => None,
    };
    match &doc.relocations {
        None => {
            if existing.is_some() {
                p.set(DataDirectoryIndex::BaseReloc, DataDirectory { rva: Rva(0), size: 0 });
            }
        },
        Some(t) => {
            let same = match &existing {
                Some(x) => x.same(t),
                None => false,
            };
            if !same {
                let name: [u8; 8] = [46, 112, 101, 114, 101, 108, 0, 0];
                assert(name =~= relocation_section_name());
                p.render(doc, name, DataDirectoryIndex::BaseReloc, render_relocations(t));
            }
        },
    }
}

fn place_tls(doc: &PeDocument, p: &mut Plan)
    requires
        old(p)@.dirs.len() >= 16,
    ensures
        final(p)@ == plan_tls(doc@, old(p)@),
        final(p)@.dirs.len() >= 16,
{
    let existing = match find_directory(doc, DataDirectoryIndex::Tls) {
        Some(dd) => parse_tls_from_doc(doc, dd),
        None => None,
    };
    match &doc.tls {
        None => {
            if existing.is_some() {
                p.set(DataDirectoryIndex::Tls, DataDirectory { rva: Rva(0), size: 0 });
            }
        },
        Some(t) => {
            let same = match &existing {
                Some(x) => *x == *t,
                None => false,
            };
            if !same {
                let name: [u8; 8] = [46, 112, 101, 116, 108, 115, 0, 0];
                assert(name =~= tls_section_name());
                p.render(doc, name, DataDirectoryIndex::Tls, render_tls(t, doc.arch));
            }
        },
    }
}

fn place_load_config(doc: &PeDocument, p: &mut Plan)
    requires
        old(p)@.dirs.len() >= 16,
    ensures
        final(p)@ == plan_load_config(doc@, old(p)@),
        final(p)@.dirs.len() >= 16,
{
    let existing = match find_directory(doc, DataDirectoryIndex::LoadConfig) {
        Some(dd) => parse_load_config_from_doc(doc, dd),
        None => None,
    };
    match &doc.load_config {
        None => {
            if existing.is_some() {
                p.set(DataDirectoryIndex::LoadConfig, DataDirectory { rva: Rva(0), size: 0 });
            }
        },
        Some(t) => {
            let same = match &existing {
                Some(x) => *x == *t,
                None => false,
            };
            if !same {
                let name: [u8; 8] = [46, 112, 101, 108, 99, 102, 103, 0];
                assert(name =~= load_config_section_name());
                p.render(
                    doc,
                    name,
                    DataDirectoryIndex::LoadConfig,
                    render_load_config(t, doc.arch),
                );
            }
        },
    }
}

/// Whether a document can be written: an export table that has to be rendered
/// forwards all symbols of one ordinal or none of them.
pub open spec fn writable(d: DocModel) -> bool {
    d.exports matches Some(t) ==> exports_match(d) || forwarders_agree(t.symbols)
}

/// Whether a document can be written.
pub fn can_serialize(doc: &PeDocument) -> (r: bool)
    ensures
        r == writable(doc@),
{
    match &doc.exports {
        None => true,
        Some(t) => {
            if same_kind_per_ordinal(&t.symbols) {
                return true;
            }
            let dd: DataDirectory = if doc.data_directories.len() > 0 {
                doc.data_directories[0]
            } else {
                DataDirectory { rva: Rva(0), size: 0 }
            };
            exports_stand(doc, t, dd)
        },
    }
}

/// The section table and directories to write the document with.
fn make_plan(doc: &PeDocument) -> (r: PeResult<Plan>)
    requires
        writable(doc@),
    ensures
        result_view(r) == file_plan(doc@),
        r matches Ok(p) ==> p@.dirs.len() >= 16,
{
    let mut p = Plan {
        sections: clone_sections(&doc.sections),
        dirs: pad_directories(&doc.data_directories),
    };
    assert(p@ == initial_plan(doc@));
    match place_imports(doc, &mut p) {
        Ok(_) => {},
        Err(e) => {
            return Err(e);
        },
    }
    match place_exports(doc, &mut p) {
        Ok(_) => {},
        Err(e) => {
            return Err(e);
        },
    }
    match place_resources(doc, &mut p) {
        Ok(_) => {},
        Err(e) => {
            return Err(e);
        },
    }
    place_relocations(doc, &mut p);
    place_tls(doc, &mut p);
    place_load_config(doc, &mut p);
    Ok(p)
}

fn push_dos(out: &mut Vec<u8>, dos: &DosHeader)
    ensures
        final(out)@ == old(out)@ + encode_fields(dos_fields(), dos_values(dos@)) + dos@.stub,
{
    let vals: [u64; 31] = [
        dos.e_magic as u64,
        dos.e_cblp as u64,
        dos.e_cp as u64,
        dos.e_crlc as u64,
        dos.e_cparhdr as u64,
        dos.e_minalloc as u64,
        dos.e_maxalloc as u64,
        dos.e_ss as u64,
        dos.e_sp as u64,
        dos.e_csum as u64,
        dos.e_ip as u64,
        dos.e_cs as u64,
        dos.e_lfarlc as u64,
        dos.e_ovno as u64,
        dos.e_res[0] as u64,
        dos.e_res[1] as u64,
        dos.e_res[2] as u64,
        dos.e_res[3] as u64,
        dos.e_oemid as u64,
        dos.e_oeminfo as u64,
        dos.e_res2[0] as u64,
        dos.e_res2[1] as u64,
        dos.e_res2[2] as u64,
        dos.e_res2[3] as u64,
        dos.e_res2[4] as u64,
        dos.e_res2[5] as u64,
        dos.e_res2[6] as u64,
        dos.e_res2[7] as u64,
        dos.e_res2[8] as u64,
        dos.e_res2[9] as u64,
        low32(64 + dos.stub.len() as u128) as u64,
    ];
    assert(vals@ =~= dos_values(dos@));
    push_fields(out, &dos_layout(), &vals);
    push_bytes(out, &dos.stub);
}

fn push_coff(out: &mut Vec<u8>, coff: &CoffHeader, sections: usize, optional: u16)
    ensures
        final(out)@ == old(out)@ + encode_fields(
            coff_fields(),
            coff_values(*coff, sections as nat, optional as nat),
        ),
{
    let vals: [u64; 7] = [
        coff.machine.to_u16() as u64,
        sections as u64,
        coff.time_date_stamp as u64,
        coff.pointer_to_symbol_table as u64,
        coff.number_of_symbols as u64,
        optional as u64,
        coff.characteristics as u64,
    ];
    assert(vals@ =~= coff_values(*coff, sections as nat, optional as nat));
    push_fields(out, &coff_layout(), &vals);
}

fn push_optional(out: &mut Vec<u8>, h: &OptionalHeader, size_of_headers: u32, size_of_image: u32)
    ensures
        final(out)@ == old(out)@ + optional_bytes(*h, size_of_headers, size_of_image),
{
    match h {
        OptionalHeader::Bit32(h) => {
            let vals: [u64; 30] = [
                h.magic as u64,
                h.major_linker_version as u64,
                h.minor_linker_version as u64,
                h.size_of_code as u64,
                h.size_of_initialized_data as u64,
                h.size_of_uninitialized_data as u64,
                h.address_of_entry_point.0 as u64,
                h.base_of_code.0 as u64,
                h.base_of_data.0 as u64,
                h.image_base as u64,
                h.section_alignment as u64,
                h.file_alignment as u64,
                h.major_operating_system_version as u64,
                h.minor_operating_system_version as u64,
                h.major_image_version as u64,
                h.minor_image_version as u64,
                h.major_subsystem_version as u64,
                h.minor_subsystem_version as u64,
                h.win32_version_value as u64,
                size_of_image as u64,
                size_of_headers as u64,
                h.checksum as u64,
                h.subsystem as u64,
                h.dll_characteristics as u64,
                h.size_of_stack_reserve as u64,
                h.size_of_stack_commit as u64,
                h.size_of_heap_reserve as u64,
                h.size_of_heap_commit as u64,
                h.loader_flags as u64,
                16u32 as u64,
            ];
            assert(vals@ =~= optional32_values(*h, size_of_headers, size_of_image));
            push_fields(out, &optional32_layout(), &vals);
        },
        OptionalHeader::Bit64(h) => {
            let vals: [u64; 29] = [
                h.magic as u64,
                h.major_linker_version as u64,
                h.minor_linker_version as u64,
                h.size_of_code as u64,
                h.size_of_initialized_data as u64,
                h.size_of_uninitialized_data as u64,
                h.address_of_entry_point.0 as u64,
                h.base_of_code.0 as u64,
                h.image_base,
                h.section_alignment as u64,
                h.file_alignment as u64,
                h.major_operating_system_version as u64,
                h.minor_operating_system_version as u64,
                h.major_image_version as u64,
                h.minor_image_version as u64,
                h.major_subsystem_version as u64,
                h.minor_subsystem_version as u64,
                h.win32_version_value as u64,
                size_of_image as u64,
                size_of_headers as u64,
                h.checksum as u64,
                h.subsystem as u64,
                h.dll_characteristics as u64,
                h.size_of_stack_reserve,
                h.size_of_stack_commit,
                h.size_of_heap_reserve,
                h.size_of_heap_commit,
                h.loader_flags as u64,
                16u32 as u64,
            ];
            assert(vals@ =~= optional64_values(*h, size_of_headers, size_of_image));
            push_fields(out, &optional64_layout(), &vals);
        },
    }
}

fn push_directories(out: &mut Vec<u8>, dirs: &[DataDirectory])
    requires
        dirs@.len() >= 16,
    ensures
        final(out)@ == old(out)@ + encode_fields(directories_fields(), directory_values(dirs@)),
{
    let mut vals: Vec<u64> = Vec::new();
    let mut i: usize = 0;
    while i < 16
        invariant
            i <= 16,
            dirs@.len() >= 16,
            vals@ == directory_values(dirs@).take(2 * i),
        decreases 16 - i,
    {
        vals.push(dirs[i].rva.get() as u64);
        vals.push(dirs[i].size as u64);
        i = i + 1;
        assert(vals@ =~= directory_values(dirs@).take(2 * i));
    }
    assert(vals@ =~= directory_values(dirs@));
    push_fields(out, &directories_layout(), &vals);
}

fn push_section_header(out: &mut Vec<u8>, h: &SectionHeader, size: u32, ptr: u32)
    ensures
        final(out)@ == old(out)@ + encode_fields(section_fields(), section_values(*h, size, ptr)),
{
    let vals: [u64; 17] = [
        h.name[0] as u64,
        h.name[1] as u64,
        h.name[2] as u64,
        h.name[3] as u64,
        h.name[4] as u64,
        h.name[5] as u64,
        h.name[6] as u64,
        h.name[7] as u64,
        h.virtual_size as u64,
        h.virtual_address.get() as u64,
        size as u64,
        ptr as u64,
        0,
        0,
        0,
        0,
        h.characteristics as u64,
    ];
    assert(vals@ =~= section_values(*h, size, ptr));
    push_fields(out, &section_layout(), &vals);
}

/// The headers of the file, without padding.
fn write_headers(doc: &PeDocument, plan: &Plan, size_of_headers: u32) -> (out: Vec<u8>)
    requires
        plan@.dirs.len() >= 16,
        size_of_headers == headers_size(doc@, plan@.sections.len()),
    ensures
        out@ == header_bytes(doc@, plan@),
{
    let optional_full: u16 = match doc.optional {
        OptionalHeader::Bit32(_) => 224,
        OptionalHeader::Bit64(_) => 240,
    };
    let size_of_image: u32 = plan.base(doc);
    let mut out: Vec<u8> = Vec::new();
    push_dos(&mut out, &doc.dos);
    let sig: [u8; 4] = [80, 69, 0, 0];
    assert(sig@ =~= seq![80u8, 69u8, 0u8, 0u8]);
    push_bytes(&mut out, &sig);
    push_coff(&mut out, &doc.coff, plan.sections.len(), optional_full);
    push_optional(&mut out, &doc.optional, size_of_headers, size_of_image);
    push_directories(&mut out, &plan.dirs);
    let mut table: Vec<u8> = write_section_table(doc, plan, size_of_headers);
    out.append(&mut table);
    proof {
        let d = doc@;
        let e = Seq::<u8>::empty();
        let dos = encode_fields(dos_fields(), dos_values(d.dos));
        assert(e + dos =~= dos);
    }
    out
}

/// The section headers, with the file ranges of their sections.
fn write_section_table(doc: &PeDocument, plan: &Plan, size_of_headers: u32) -> (out: Vec<u8>)
    requires
        size_of_headers == headers_size(doc@, plan@.sections.len()),
    ensures
        out@ == join(section_header_parts(doc@, plan@.sections)),
{
    let ghost d = doc@;
    let ghost secs = plan@.sections;
    let file_alignment: u32 = one_at_least(doc.optional.file_alignment());
    let ghost hparts = section_header_parts(d, secs);
    let mut out: Vec<u8> = Vec::new();
    let mut cursor: u128 = size_of_headers as u128;
    let mut i: usize = 0;
    assert(hparts.take(0) =~= Seq::empty());
    while i < plan.sections.len()
        invariant
            i <= plan.sections.len(),
            d == doc@,
            secs == plan@.sections,
            file_alignment == at_least_one(header_file_alignment(d.optional)),
            hparts == section_header_parts(d, secs),
            cursor == raw_offset(d, secs, i as int),
            cursor <= (i + 1) * 0x1_0000_0000,
            out@ == join(hparts.take(i as int)),
        decreases plan.sections.len() - i,
    {
        let s: &Section = &plan.sections[i];
        let size: u32 = align_up(low32(s.data.len() as u128), file_alignment);
        proof {
            assert(secs[i as int] == s@);
            assert(size == raw_size(d, secs[i as int]));
            lemma_join_push(hparts.take(i as int), hparts[i as int]);
            assert(hparts.take(i + 1) =~= hparts.take(i as int).push(hparts[i as int]));
        }
        push_section_header(&mut out, &s.header, size, low32(cursor));
        cursor = cursor + size as u128;
        i = i + 1;
    }
    assert(hparts.take(plan.sections.len() as int) =~= hparts);
    out
}

/// The bytes of all sections, each padded to its raw size.
fn write_section_data(doc: &PeDocument, plan: &Plan) -> (out: Vec<u8>)
    ensures
        out@ == join(section_data_parts(doc@, plan@.sections)),
{
    let ghost d = doc@;
    let ghost secs = plan@.sections;
    let file_alignment: u32 = one_at_least(doc.optional.file_alignment());
    let ghost dparts = section_data_parts(d, secs);
    let mut out: Vec<u8> = Vec::new();
    let mut i: usize = 0;
    assert(dparts.take(0) =~= Seq::empty());
    while i < plan.sections.len()
        invariant
            i <= plan.sections.len(),
            d == doc@,
            secs == plan@.sections,
            file_alignment == at_least_one(header_file_alignment(d.optional)),
            dparts == section_data_parts(d, secs),
            out@ == join(dparts.take(i as int)),
        decreases plan.sections.len() - i,
    {
        let s: &Section = &plan.sections[i];
        let size: u32 = align_up(low32(s.data.len() as u128), file_alignment);
        let ghost before = out@;
        push_bytes(&mut out, &s.data);
        if size as u64 > s.data.len() as u64 {
            push_bytes(&mut out, &zero_bytes((size as u64 - s.data.len() as u64) as usize));
        }
        proof {
            assert(secs[i as int] == s@);
            assert(size == raw_size(d, secs[i as int]));
            assert(out@ =~= before + dparts[i as int]);
            lemma_join_push(dparts.take(i as int), dparts[i as int]);
            assert(dparts.take(i + 1) =~= dparts.take(i as int).push(dparts[i as int]));
        }
        i = i + 1;
    }
    assert(dparts.take(plan.sections.len() as int) =~= dparts);
    out
}

/// Serialize a document back into a PE file image.
pub fn serialize(doc: &PeDocument) -> (r: PeResult<Vec<u8>>)
    requires
        writable(doc@),
    ensures
        result_view(r) == serialized(doc@),
{
    let plan = match make_plan(doc) {
        Ok(p) => p,
        Err(e) => {
            return Err(e);
        },
    };
    let optional_full: u128 = match doc.optional {
        OptionalHeader::Bit32(_) => 224,
        OptionalHeader::Bit64(_) => 240,
    };
    let head: u128 = 88 + doc.dos.stub.len() as u128 + optional_full + 40 * (
    plan.sections.len() as u128);
    let size_of_headers: u32 = align_up(
        low32(head),
        one_at_least(doc.optional.file_alignment()),
    );
    let mut out: Vec<u8> = write_headers(doc, &plan, size_of_headers);
    resize_zero(&mut out, size_of_headers as usize);
    let mut data: Vec<u8> = write_section_data(doc, &plan);
    out.append(&mut data);
    Ok(out)
}

} // verus!
