//! The central in-memory representation of a PE file (pure data).

use crate::bytes::{patch, splice, zero_bytes, zeros};
use crate::domain::coff::CoffHeader;
use crate::domain::data_directory::{
    directory_debug_name, directory_slot, DataDirectory, DataDirectoryIndex,
};
use crate::domain::dos::{DosHeader, DosModel};
use crate::domain::export::{ExportTable, ExportTableModel};
use crate::domain::import::{
    clone_imports, lemma_views_push, views, ImportDescriptor, ImportDescriptorModel,
};
use crate::domain::load_config::LoadConfigDirectory;
use crate::domain::optional::OptionalHeader;
use crate::domain::relocation::{RelocationBlockModel, RelocationTable};
use crate::domain::resource::{ResourceDirectory, ResourceEntryModel};
use crate::domain::section::{
    Section, SectionHeader, SectionModel, IMAGE_SCN_CNT_INITIALIZED_DATA, IMAGE_SCN_MEM_READ,
    IMAGE_SCN_MEM_WRITE,
};
use crate::domain::tls::TlsDirectory;
use crate::domain::types::{align_up, aligned, align_up_is_least_multiple, Arch, RawOffset, Rva};
use crate::error::{PeError, PeErrorModel, PeResult};
use crate::text::{dec_text, hex_text, push_dec, push_hex};
use vstd::prelude::*;
use vstd::slice::slice_subrange;
use vstd::string::*;

verus! {

/// A PE file's contents, independent of where the bytes came from (a real file
/// or a mock). The capability traits in [`crate::api`] operate on this model.
#[derive(Debug, PartialEq)]
pub struct PeDocument {
    pub arch: Arch,
    pub dos: DosHeader,
    pub coff: CoffHeader,
    pub optional: OptionalHeader,
    pub sections: Vec<Section>,
    /// Data directory array. Normally 16 entries; may be shorter until the
    /// editor or parser pads it.
    pub data_directories: Vec<DataDirectory>,
    /// Parsed, rich form of the import table.
    pub imports: Vec<ImportDescriptor>,
    pub exports: Option<ExportTable>,
    pub resources: Option<ResourceDirectory>,
    pub relocations: Option<RelocationTable>,
    pub tls: Option<TlsDirectory>,
    pub load_config: Option<LoadConfigDirectory>,
}

/// A document as mathematical values.
#[verifier::ext_equal]
pub struct DocModel {
    pub arch: Arch,
    pub dos: DosModel,
    pub coff: CoffHeader,
    pub optional: OptionalHeader,
    pub sections: Seq<SectionModel>,
    pub data_directories: Seq<DataDirectory>,
    pub imports: Seq<ImportDescriptorModel>,
    pub exports: Option<ExportTableModel>,
    pub resources: Option<Seq<ResourceEntryModel>>,
    pub relocations: Option<Seq<RelocationBlockModel>>,
    pub tls: Option<TlsDirectory>,
    pub load_config: Option<LoadConfigDirectory>,
}

/// The view of an optional value.
pub open spec fn opt_view<T: View>(o: Option<T>) -> Option<T::V> {
    match o {
        Some(x) => Some(x@),
        None => None,
    }
}

impl View for PeDocument {
    type V = DocModel;

    open spec fn view(&self) -> DocModel {
        DocModel {
            arch: self.arch,
            dos: self.dos@,
            coff: self.coff,
            optional: self.optional,
            sections: views(self.sections@),
            data_directories: self.data_directories@,
            imports: views(self.imports@),
            exports: opt_view(self.exports),
            resources: opt_view(self.resources),
            relocations: opt_view(self.relocations),
            tls: self.tls,
            load_config: self.load_config,
        }
    }
}

/// Anything that stands for a document.
pub trait Document {
    spec fn model(&self) -> DocModel;
}

impl Document for PeDocument {
    open spec fn model(&self) -> DocModel {
        self@
    }
}

/// The length of a section's bytes as the 32-bit number the image works with.
pub open spec fn len32(s: SectionModel) -> u32 {
    s.data.len() as u32
}

/// The address just past a section's bytes, held at the top of the address space.
pub open spec fn section_end(s: SectionModel) -> u32 {
    if s.header.virtual_address.0 + len32(s) <= u32::MAX {
        (s.header.virtual_address.0 + len32(s)) as u32
    } else {
        u32::MAX
    }
}

/// Whether a section's bytes cover the address `r`.
pub open spec fn covers(s: SectionModel, r: u32) -> bool {
    s.header.virtual_address.0 <= r < section_end(s)
}

/// The first section, in table order, that covers `r`.
pub open spec fn locate(sections: Seq<SectionModel>, r: u32) -> Option<int>
    decreases sections.len(),
{
    if sections.len() == 0 {
        None
    } else {
        match locate(sections.drop_last(), r) {
            Some(i) => Some(i),
            None => if covers(sections.last(), r) {
                Some(sections.len() - 1)
            } else {
                None
            },
        }
    }
}

/// The offset of `r` in section `i`'s bytes.
pub open spec fn offset_in(sections: Seq<SectionModel>, i: int, r: u32) -> int {
    r - sections[i].header.virtual_address.0
}

/// The `n` bytes at `r`, where one section holds them all.
pub open spec fn image_read(sections: Seq<SectionModel>, r: u32, n: nat) -> Option<Seq<u8>> {
    match locate(sections, r) {
        None => None,
        Some(i) => {
            let off = offset_in(sections, i, r);
            if off + n <= sections[i].data.len() {
                Some(sections[i].data.subrange(off, off + n))
            } else {
                None
            }
        },
    }
}

/// Why `n` bytes cannot be read at `r`.
pub open spec fn read_error(sections: Seq<SectionModel>, r: u32, n: nat) -> PeErrorModel {
    match locate(sections, r) {
        None => PeErrorModel::InvalidArgument(
            "read: RVA "@ + hex_text(r as nat) + " not mapped"@,
        ),
        Some(i) => if offset_in(sections, i, r) + n > usize::MAX {
            PeErrorModel::InvalidArgument("read: length overflow"@)
        } else {
            PeErrorModel::InvalidArgument(
                "read: RVA "@ + hex_text(r as nat) + " len "@ + dec_text(n) + " exceeds section"@,
            )
        },
    }
}

/// The sections after `b` was written at `r`, where one section holds the range.
pub open spec fn image_write(sections: Seq<SectionModel>, r: u32, b: Seq<u8>) -> Option<
    Seq<SectionModel>,
> {
    match locate(sections, r) {
        None => None,
        Some(i) => {
            let off = offset_in(sections, i, r);
            if off + b.len() <= sections[i].data.len() {
                Some(
                    sections.update(
                        i,
                        SectionModel {
                            header: sections[i].header,
                            data: splice(sections[i].data, off, b),
                        },
                    ),
                )
            } else {
                None
            }
        },
    }
}

/// Why `n` bytes cannot be written at `r`.
pub open spec fn write_error(sections: Seq<SectionModel>, r: u32, n: nat) -> PeErrorModel {
    match locate(sections, r) {
        None => PeErrorModel::InvalidArgument(
            "write: RVA "@ + hex_text(r as nat) + " not mapped"@,
        ),
        Some(i) => if offset_in(sections, i, r) + n > usize::MAX {
            PeErrorModel::InvalidArgument("write: length overflow"@)
        } else {
            PeErrorModel::InvalidArgument(
                "write: RVA "@ + hex_text(r as nat) + " len "@ + dec_text(n) + " exceeds section"@,
            )
        },
    }
}

/// The highest section end, or 0 without sections.
pub open spec fn image_end(sections: Seq<SectionModel>) -> u32
    decreases sections.len(),
{
    if sections.len() == 0 {
        0
    } else {
        let before = image_end(sections.drop_last());
        if before >= section_end(sections.last()) {
            before
        } else {
            section_end(sections.last())
        }
    }
}

/// At least 1.
pub open spec fn at_least_one(n: u32) -> u32 {
    if n < 1 {
        1
    } else {
        n
    }
}

/// Where a section appended with the given alignment begins.
pub open spec fn next_section_va(sections: Seq<SectionModel>, alignment: u32) -> u32 {
    aligned(image_end(sections), at_least_one(alignment))
}

/// The flags of a section made for data the library writes.
pub open spec fn data_section_flags() -> u32 {
    IMAGE_SCN_CNT_INITIALIZED_DATA | IMAGE_SCN_MEM_READ | IMAGE_SCN_MEM_WRITE
}

/// The name of a section made by [`PeDocument::allocate`].
pub open spec fn allocated_section_name() -> [u8; 8] {
    [46, 112, 101, 102, 105, 120, 0, 0]
}

/// The section that [`PeDocument::allocate`] appends.
pub open spec fn allocated_section(sections: Seq<SectionModel>, size: nat, alignment: u32) -> SectionModel {
    SectionModel {
        header: SectionHeader {
            name: allocated_section_name(),
            virtual_size: size as u32,
            virtual_address: Rva(next_section_va(sections, alignment)),
            size_of_raw_data: 0,
            pointer_to_raw_data: RawOffset(0),
            characteristics: data_section_flags(),
        },
        data: zeros(size),
    }
}

/// Whether a section's raw file range, by its header and the length of its
/// bytes, covers the file offset `o`.
pub open spec fn raw_covers(s: SectionModel, o: u32) -> bool {
    let base = s.header.pointer_to_raw_data.0;
    base <= o < if base + len32(s) <= u32::MAX {
        base + len32(s)
    } else {
        u32::MAX as int
    }
}

/// The first section whose raw file range covers `o`.
pub open spec fn locate_raw(sections: Seq<SectionModel>, o: u32) -> Option<int>
    decreases sections.len(),
{
    if sections.len() == 0 {
        None
    } else {
        match locate_raw(sections.drop_last(), o) {
            Some(i) => Some(i),
            None => if raw_covers(sections.last(), o) {
                Some(sections.len() - 1)
            } else {
                None
            },
        }
    }
}

pub proof fn lemma_locate(sections: Seq<SectionModel>, r: u32)
    ensures
        locate(sections, r) matches Some(i) ==> 0 <= i < sections.len() && covers(sections[i], r)
            && offset_in(sections, i, r) < sections[i].data.len() && forall|j: int|
            0 <= j < i ==> !covers(sections[j], r),
        locate(sections, r) is None ==> forall|j: int|
            0 <= j < sections.len() ==> !covers(sections[j], r),
    decreases sections.len(),
{
    if sections.len() > 0 {
        lemma_locate(sections.drop_last(), r);
        let d = sections.drop_last();
        assert forall|j: int| 0 <= j < d.len() implies d[j] == sections[j] by {}
        if let Some(i) = locate(sections, r) {
            lemma_len32(sections[i]);
        }
    }
}

pub proof fn lemma_len32(s: SectionModel)
    ensures
        len32(s) <= s.data.len(),
        s.data.len() <= u32::MAX ==> len32(s) == s.data.len(),
{
    let n = s.data.len();
    if n > u32::MAX {
        assert((n as u32) as nat <= n);
    }
}

/// The first covering section is the one below which nothing covers.
pub proof fn lemma_locate_is(sections: Seq<SectionModel>, r: u32, i: int)
    requires
        0 <= i < sections.len(),
        covers(sections[i], r),
        forall|j: int| 0 <= j < i ==> !covers(sections[j], r),
    ensures
        locate(sections, r) == Some(i),
{
    lemma_locate(sections, r);
}

/// Appending a section changes nothing for an address already covered.
pub proof fn lemma_locate_push(sections: Seq<SectionModel>, s: SectionModel, r: u32)
    ensures
        locate(sections.push(s), r) == match locate(sections, r) {
            Some(i) => Some(i),
            None => if covers(s, r) {
                Some(sections.len() as int)
            } else {
                None
            },
        },
{
    assert(sections.push(s).drop_last() =~= sections);
}

pub proof fn lemma_image_end(sections: Seq<SectionModel>)
    ensures
        forall|i: int| 0 <= i < sections.len() ==> section_end(#[trigger] sections[i]) <= image_end(
            sections,
        ),
    decreases sections.len(),
{
    if sections.len() > 0 {
        lemma_image_end(sections.drop_last());
        assert forall|i: int| 0 <= i < sections.len() implies section_end(#[trigger] sections[i])
            <= image_end(sections) by {
            if i < sections.len() - 1 {
                assert(sections.drop_last()[i] == sections[i]);
            }
        }
    }
}

/// The end of an image is the end of one of its sections, and of none beyond it.
pub proof fn image_end_is_reached(sections: Seq<SectionModel>)
    ensures
        forall|i: int| 0 <= i < sections.len() ==> section_end(#[trigger] sections[i]) <= image_end(
            sections,
        ),
        sections.len() == 0 ==> image_end(sections) == 0,
        sections.len() > 0 ==> exists|i: int|
            0 <= i < sections.len() && section_end(#[trigger] sections[i]) == image_end(sections),
    decreases sections.len(),
{
    lemma_image_end(sections);
    if sections.len() > 0 {
        let d = sections.drop_last();
        let l = sections.len() - 1;
        image_end_is_reached(d);
        if image_end(d) >= section_end(sections.last()) {
            if d.len() > 0 {
                let i = choose|i: int|
                    0 <= i < d.len() && section_end(#[trigger] d[i]) == image_end(d);
                assert(section_end(sections[i]) == image_end(sections));
            } else {
                assert(section_end(sections[l]) == image_end(sections));
            }
        } else {
            assert(section_end(sections[l]) == image_end(sections));
        }
    }
}

/// The end of an image, rounded up, is the least multiple of the alignment that
/// no section's bytes go beyond.
pub proof fn image_size_holds_all_sections(sections: Seq<SectionModel>, align: u32)
    requires
        align > 0,
        image_end(sections) + align <= u32::MAX,
        forall|i: int| 0 <= i < sections.len() ==> (#[trigger] sections[i]).data.len() <= u32::MAX,
    ensures
        ({
            let size = aligned(image_end(sections), align) as int;
            &&& size % (align as int) == 0
            &&& forall|i: int|
                0 <= i < sections.len() ==> (#[trigger] sections[i]).header.virtual_address.0
                    + sections[i].data.len() <= size
            &&& sections.len() == 0 ==> size == 0
            &&& sections.len() > 0 ==> exists|i: int|
                0 <= i < sections.len() && size < (#[trigger] sections[i]).header.virtual_address.0
                    + sections[i].data.len() + align
        }),
{
    align_up_is_least_multiple(image_end(sections), align);
    image_end_is_reached(sections);
    let size = aligned(image_end(sections), align) as int;
    assert forall|i: int| 0 <= i < sections.len() implies (
    #[trigger] sections[i]).header.virtual_address.0 + sections[i].data.len() <= size by {
        lemma_len32(sections[i]);
        assert(section_end(sections[i]) <= image_end(sections));
    }
    if sections.len() > 0 {
        let i = choose|i: int|
            0 <= i < sections.len() && section_end(#[trigger] sections[i]) == image_end(sections);
        lemma_len32(sections[i]);
        assert(size < sections[i].header.virtual_address.0 + sections[i].data.len() + align);
    } else {
        assert(size == 0) by (nonlinear_arith)
            requires
                size % (align as int) == 0,
                0 <= size < align,
        ;
    }
}

impl PeDocument {
    /// The section containing `rva`, as `(index, offset_into_section_data)`.
    pub fn section_containing_rva(&self, rva: Rva) -> (r: Option<(usize, u32)>)
        ensures
            match locate(self@.sections, rva.0) {
                Some(i) => r is Some && (r->0).0 == i && (r->0).1 == offset_in(
                    self@.sections,
                    i,
                    rva.0,
                ) && i < self.sections@.len() && (r->0).1 < self.sections@[i].data@.len(),
                None => r is None,
            },
    {
        let r: u32 = rva.get();
        let mut i: usize = 0;
        proof {
            lemma_locate(self@.sections, rva.0);
        }
        while i < self.sections.len()
            invariant
                i <= self.sections.len(),
                r == rva.0,
                forall|j: int| 0 <= j < i ==> !covers(self@.sections[j], r),
            decreases self.sections.len() - i,
        {
            let va: u32 = self.sections[i].header.virtual_address.get();
            let len: u32 = self.sections[i].data.len() as u32;
            assert(self@.sections[i as int] == self.sections@[i as int]@);
            if r >= va && r < va.saturating_add(len) {
                proof {
                    lemma_locate_is(self@.sections, r, i as int);
                    lemma_locate(self@.sections, r);
                }
                return Some((i, r - va));
            }
            i = i + 1;
        }
        None
    }

    /// Read `len` bytes at `rva` from the in-memory image.
    pub fn read(&self, rva: Rva, len: usize) -> (r: PeResult<&[u8]>)
        ensures
            match r {
                Ok(b) => image_read(self@.sections, rva.0, len as nat) == Some(b@),
                Err(e) => image_read(self@.sections, rva.0, len as nat) is None && e@
                    == read_error(self@.sections, rva.0, len as nat),
            },
            r matches Ok(b) ==> b@.len() == len,
    {
        match self.section_containing_rva(rva) {
            None => {
                let mut m: String = "read: RVA ".to_owned();
                push_hex(&mut m, rva.get() as u64);
                m.append(" not mapped");
                Err(PeError::InvalidArgument(m))
            },
            Some((i, off)) => {
                let start: usize = off as usize;
                assert(self@.sections[i as int] == self.sections@[i as int]@);
                assert(self.sections@[i as int].data.len() <= usize::MAX);
                if len > usize::MAX - start {
                    return Err(PeError::InvalidArgument("read: length overflow".to_owned()));
                }
                let end: usize = start + len;
                let data: &Vec<u8> = &self.sections[i].data;
                if end > data.len() {
                    let mut m: String = "read: RVA ".to_owned();
                    push_hex(&mut m, rva.get() as u64);
                    m.append(" len ");
                    push_dec(&mut m, len as u64);
                    m.append(" exceeds section");
                    return Err(PeError::InvalidArgument(m));
                }
                Ok(slice_subrange(data.as_slice(), start, end))
            },
        }
    }

    /// Overwrite `bytes` at `rva` in the in-memory image.
    pub fn write(&mut self, rva: Rva, bytes: &[u8]) -> (r: PeResult<()>)
        ensures
            match r {
                Ok(_) => image_write(old(self)@.sections, rva.0, bytes@) == Some(
                    final(self)@.sections,
                ) && final(self)@ == (DocModel {
                    sections: final(self)@.sections,
                    ..old(self)@
                }),
                Err(e) => image_write(old(self)@.sections, rva.0, bytes@) is None && *final(self)
                    == *old(self) && e@ == write_error(old(self)@.sections, rva.0, bytes@.len()),
            },
    {
        match self.section_containing_rva(rva) {
            None => {
                let mut m: String = "write: RVA ".to_owned();
                push_hex(&mut m, rva.get() as u64);
                m.append(" not mapped");
                Err(PeError::InvalidArgument(m))
            },
            Some((i, off)) => {
                let start: usize = off as usize;
                assert(self@.sections[i as int] == self.sections@[i as int]@);
                assert(self.sections@[i as int].data.len() <= usize::MAX);
                if bytes.len() > usize::MAX - start {
                    return Err(PeError::InvalidArgument("write: length overflow".to_owned()));
                }
                let end: usize = start + bytes.len();
                if end > self.sections[i].data.len() {
                    let mut m: String = "write: RVA ".to_owned();
                    push_hex(&mut m, rva.get() as u64);
                    m.append(" len ");
                    push_dec(&mut m, bytes.len() as u64);
                    m.append(" exceeds section");
                    return Err(PeError::InvalidArgument(m));
                }
                patch(&mut self.sections[i].data, start, bytes);
                proof {
                    let after = SectionModel {
                        header: old(self)@.sections[i as int].header,
                        data: splice(old(self)@.sections[i as int].data, start as int, bytes@),
                    };
                    assert(self@.sections =~= old(self)@.sections.update(i as int, after));
                }
                Ok(())
            },
        }
    }

    /// Append a new initialized-data section at the end of the image and return
    /// its RVA. The raw file offset is assigned during serialization.
    pub fn allocate(&mut self, size: usize, alignment: u32) -> (r: PeResult<Rva>)
        ensures
            r is Ok,
            r->Ok_0 == Rva(next_section_va(old(self)@.sections, alignment)),
            final(self)@ == (DocModel {
                sections: old(self)@.sections.push(
                    allocated_section(old(self)@.sections, size as nat, alignment),
                ),
                ..old(self)@
            }),
            final(self).optional == old(self).optional,
    {
        let align: u32 = if alignment < 1 {
            1
        } else {
            alignment
        };
        let end: u32 = image_end_of(&self.sections);
        let va: u32 = align_up(end, align);
        let name: [u8; 8] = [46, 112, 101, 102, 105, 120, 0, 0];
        let s = Section {
            header: SectionHeader {
                name,
                virtual_size: size as u32,
                virtual_address: Rva(va),
                size_of_raw_data: 0,
                pointer_to_raw_data: RawOffset(0),
                characteristics: IMAGE_SCN_CNT_INITIALIZED_DATA | IMAGE_SCN_MEM_READ
                    | IMAGE_SCN_MEM_WRITE,
            },
            data: zero_bytes(size),
        };
        proof {
            lemma_views_push(self.sections@, s);
            assert(name =~= allocated_section_name());
        }
        self.sections.push(s);
        Ok(Rva(va))
    }

    /// Translate an RVA to a raw file offset, or error when not mapped.
    pub fn rva_to_raw(&self, rva: Rva) -> (r: PeResult<RawOffset>)
        requires
            locate(self@.sections, rva.0) matches Some(i) ==> self@.sections[i].header
                .pointer_to_raw_data.0 + offset_in(self@.sections, i, rva.0) <= u32::MAX,
        ensures
            match locate(self@.sections, rva.0) {
                Some(i) => r is Ok && r->Ok_0.0 == self@.sections[i].header.pointer_to_raw_data.0
                    + offset_in(self@.sections, i, rva.0),
                None => r is Err && r->Err_0@ == PeErrorModel::InvalidArgument(
                    "rva_to_raw: RVA "@ + hex_text(rva.0 as nat) + " not mapped"@,
                ),
            },
    {
        match self.section_containing_rva(rva) {
            Some((i, off)) => {
                assert(self@.sections[i as int] == self.sections@[i as int]@);
                Ok(RawOffset(self.sections[i].header.pointer_to_raw_data.get() + off))
            },
            None => {
                let mut m: String = "rva_to_raw: RVA ".to_owned();
                push_hex(&mut m, rva.get() as u64);
                m.append(" not mapped");
                Err(PeError::InvalidArgument(m))
            },
        }
    }

    /// Translate a raw file offset to an RVA, or error when not mapped.
    pub fn raw_to_rva(&self, raw: RawOffset) -> (r: PeResult<Rva>)
        requires
            locate_raw(self@.sections, raw.0) matches Some(i) ==> self@.sections[i].header
                .virtual_address.0 + (raw.0 - self@.sections[i].header.pointer_to_raw_data.0)
                <= u32::MAX,
        ensures
            match locate_raw(self@.sections, raw.0) {
                Some(i) => r is Ok && r->Ok_0.0 == self@.sections[i].header.virtual_address.0 + (
                raw.0 - self@.sections[i].header.pointer_to_raw_data.0),
                None => r is Err && r->Err_0@ == PeErrorModel::InvalidArgument(
                    "raw_to_rva: offset "@ + hex_text(raw.0 as nat) + " not mapped"@,
                ),
            },
    {
        let o: u32 = raw.get();
        let mut i: usize = 0;
        while i < self.sections.len()
            invariant
                i <= self.sections.len(),
                o == raw.0,
                locate_raw(self@.sections, raw.0) matches Some(i) ==> self@.sections[i].header
                    .virtual_address.0 + (raw.0 - self@.sections[i].header.pointer_to_raw_data.0)
                    <= u32::MAX,
                locate_raw(self@.sections.take(i as int), o) is None,
            decreases self.sections.len() - i,
        {
            proof {
                assert(self@.sections[i as int] == self.sections@[i as int]@);
                assert(self@.sections.take(i + 1).drop_last() =~= self@.sections.take(i as int));
            }
            let base: u32 = self.sections[i].header.pointer_to_raw_data.get();
            let len: u32 = self.sections[i].data.len() as u32;
            if o >= base && o < base.saturating_add(len) {
                proof {
                    lemma_locate_raw_prefix(self@.sections, o, i + 1);
                }
                return Ok(Rva(self.sections[i].header.virtual_address.get() + (o - base)));
            }
            i = i + 1;
        }
        assert(self@.sections.take(self.sections.len() as int) =~= self@.sections);
        let mut m: String = "raw_to_rva: offset ".to_owned();
        push_hex(&mut m, raw.get() as u64);
        m.append(" not mapped");
        Err(PeError::InvalidArgument(m))
    }

    /// Direct access to one data directory entry.
    pub fn data_directory(&self, index: DataDirectoryIndex) -> (r: PeResult<&DataDirectory>)
        ensures
            match r {
                Ok(d) => directory_slot(index) < self@.data_directories.len() && *d
                    == self@.data_directories[directory_slot(index)],
                Err(e) => directory_slot(index) >= self@.data_directories.len() && e@
                    == PeErrorModel::InvalidArgument(
                    "data_directory: no entry for "@ + directory_debug_name(index),
                ),
            },
    {
        let i: usize = index.to_usize();
        if i < self.data_directories.len() {
            Ok(&self.data_directories[i])
        } else {
            Err(
                PeError::InvalidArgument(
                    "data_directory: no entry for ".to_owned().concat(index.debug_name()),
                ),
            )
        }
    }
}

pub proof fn lemma_locate_raw_prefix(sections: Seq<SectionModel>, o: u32, n: int)
    requires
        0 <= n <= sections.len(),
        locate_raw(sections.take(n), o) is Some,
    ensures
        locate_raw(sections, o) == locate_raw(sections.take(n), o),
    decreases sections.len(),
{
    if n < sections.len() {
        assert(sections.drop_last().take(n) =~= sections.take(n));
        lemma_locate_raw_prefix(sections.drop_last(), o, n);
    } else {
        assert(sections.take(n) =~= sections);
    }
}

/// The highest section end.
pub fn image_end_of(sections: &[Section]) -> (r: u32)
    ensures
        r == image_end(views(sections@)),
{
    let mut end: u32 = 0;
    let mut i: usize = 0;
    while i < sections.len()
        invariant
            i <= sections.len(),
            end == image_end(views(sections@).take(i as int)),
        decreases sections.len() - i,
    {
        proof {
            assert(views(sections@).take(i + 1).drop_last() =~= views(sections@).take(i as int));
            assert(views(sections@).take(i + 1).last() == sections@[i as int]@);
        }
        let e: u32 = sections[i].header.virtual_address.get().saturating_add(
            sections[i].data.len() as u32,
        );
        if end < e {
            end = e;
        }
        i = i + 1;
    }
    assert(views(sections@).take(sections.len() as int) =~= views(sections@));
    end
}

/// A copy of a section table.
pub fn clone_sections(sections: &[Section]) -> (r: Vec<Section>)
    ensures
        views(r@) == views(sections@),
{
    let mut r: Vec<Section> = Vec::new();
    let mut i: usize = 0;
    while i < sections.len()
        invariant
            i <= sections.len(),
            views(r@) == views(sections@).take(i as int),
        decreases sections.len() - i,
    {
        let s = sections[i].clone();
        proof {
            lemma_views_push(r@, s);
        }
        r.push(s);
        i = i + 1;
        assert(views(r@) =~= views(sections@).take(i as int));
    }
    assert(views(sections@).take(sections.len() as int) =~= views(sections@));
    r
}

impl Clone for PeDocument {
    fn clone(&self) -> (r: PeDocument)
        ensures
            r@ == self@,
    {
        let exports = match &self.exports {
            Some(t) => Some(t.clone()),
            None => None,
        };
        let resources = match &self.resources {
            Some(t) => Some(t.clone()),
            None => None,
        };
        let relocations = match &self.relocations {
            Some(t) => Some(t.clone()),
            None => None,
        };
        let dirs = self.data_directories.clone();
        assert(dirs@ =~= self.data_directories@);
        PeDocument {
            arch: self.arch,
            dos: self.dos.clone(),
            coff: self.coff,
            optional: self.optional,
            sections: clone_sections(&self.sections),
            data_directories: dirs,
            imports: clone_imports(&self.imports),
            exports,
            resources,
            relocations,
            tls: self.tls,
            load_config: self.load_config,
        }
    }
}

/// What was written is what is read back at the same place.
pub proof fn read_after_write(sections: Seq<SectionModel>, r: u32, b: Seq<u8>)
    requires
        image_write(sections, r, b) is Some,
    ensures
        image_read(image_write(sections, r, b)->0, r, b.len()) == Some(b),
{
    let after = image_write(sections, r, b)->0;
    lemma_write_keeps_locate(sections, r, b, r);
    lemma_locate(sections, r);
    let i = locate(sections, r)->0;
    let off = offset_in(sections, i, r);
    assert(after[i].data.subrange(off, off + b.len()) =~= b);
}

/// A write moves no section: every address stays with the section it was in.
pub proof fn lemma_write_keeps_locate(sections: Seq<SectionModel>, r: u32, b: Seq<u8>, q: u32)
    requires
        image_write(sections, r, b) is Some,
    ensures
        locate(image_write(sections, r, b)->0, q) == locate(sections, q),
        image_write(sections, r, b)->0.len() == sections.len(),
{
    let after = image_write(sections, r, b)->0;
    lemma_locate(sections, r);
    lemma_locate(sections, q);
    lemma_locate(after, q);
    let i = locate(sections, r)->0;
    assert(after[i].data.len() == sections[i].data.len());
    assert forall|j: int| 0 <= j < sections.len() implies covers(after[j], q) == covers(
        sections[j],
        q,
    ) by {
        if j != i {
            assert(after[j] == sections[j]);
        }
    }
}

/// A write changes nothing that is read outside the range it covers: neither in
/// another section nor before or after the written bytes in the same one.
pub proof fn write_leaves_the_rest(
    sections: Seq<SectionModel>,
    r: u32,
    b: Seq<u8>,
    q: u32,
    n: nat,
)
    requires
        image_write(sections, r, b) is Some,
        locate(sections, q) != locate(sections, r) || q + n <= r || r + b.len() <= q,
    ensures
        image_read(image_write(sections, r, b)->0, q, n) == image_read(sections, q, n),
{
    let after = image_write(sections, r, b)->0;
    lemma_write_keeps_locate(sections, r, b, q);
    lemma_locate(sections, r);
    lemma_locate(sections, q);
    if let Some(j) = locate(sections, q) {
        let i = locate(sections, r)->0;
        if j == i {
            let off = offset_in(sections, j, q);
            if off + n <= sections[j].data.len() {
                assert(after[j].data.subrange(off, off + n) =~= sections[j].data.subrange(
                    off,
                    off + n,
                ));
            }
        } else {
            assert(after[j] == sections[j]);
        }
    }
}

/// An allocated range begins at a multiple of the alignment, lies above every
/// existing section, and is mapped to zero bytes — as long as it fits below the
/// top of the address space.
pub proof fn alloc_is_fresh(sections: Seq<SectionModel>, size: nat, alignment: u32)
    requires
        image_end(sections) + at_least_one(alignment) + size <= u32::MAX,
        size > 0,
    ensures
        next_section_va(sections, alignment) % at_least_one(alignment) == 0,
        next_section_va(sections, alignment) >= image_end(sections),
        image_read(
            sections.push(allocated_section(sections, size, alignment)),
            next_section_va(sections, alignment),
            size,
        ) == Some(zeros(size)),
{
    let va = next_section_va(sections, alignment);
    let s = allocated_section(sections, size, alignment);
    align_up_is_least_multiple(image_end(sections), at_least_one(alignment));
    lemma_image_end(sections);
    lemma_locate(sections, va);
    lemma_locate_push(sections, s, va);
    lemma_len32(s);
    assert(s.data.subrange(0, size as int) =~= zeros(size));
}

/// Allocation leaves every byte of the image where it was.
pub proof fn alloc_keeps_image(
    sections: Seq<SectionModel>,
    size: nat,
    alignment: u32,
    r: u32,
    n: nat,
)
    requires
        image_read(sections, r, n) is Some,
    ensures
        image_read(sections.push(allocated_section(sections, size, alignment)), r, n) == image_read(
            sections,
            r,
            n,
        ),
{
    lemma_locate(sections, r);
    lemma_locate_push(sections, allocated_section(sections, size, alignment), r);
}

/// An alignment counts as it is stated; one of 0 counts as 1.
pub proof fn alignments_count_as_stated(n: u32)
    ensures
        n > 0 ==> at_least_one(n) == n,
        n == 0 ==> at_least_one(n) == 1,
{
}

/// A section ends behind its bytes, at the latest at the top of the address
/// space.
pub proof fn sections_end_behind_their_bytes(s: SectionModel)
    requires
        s.data.len() <= u32::MAX,
    ensures
        section_end(s) as int == if s.header.virtual_address.0 + s.data.len() <= u32::MAX {
            s.header.virtual_address.0 + s.data.len()
        } else {
            u32::MAX as int
        },
{
    lemma_len32(s);
}

} // verus!
