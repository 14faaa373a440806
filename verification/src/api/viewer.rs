//! Read-only access to a [`PeDocument`].

use crate::domain::coff::CoffHeader;
use crate::domain::data_directory::{
    directory_debug_name, directory_slot, DataDirectory, DataDirectoryIndex,
};
use crate::domain::document::{
    image_read, locate, locate_raw, offset_in, read_error, Document, PeDocument,
};
use crate::domain::dos::DosHeader;
use crate::domain::export::ExportTable;
use crate::domain::import::{views, ImportDescriptor};
use crate::domain::load_config::LoadConfigDirectory;
use crate::domain::optional::OptionalHeader;
use crate::domain::relocation::RelocationTable;
use crate::domain::resource::ResourceDirectory;
use crate::domain::section::Section;
use crate::domain::tls::TlsDirectory;
use crate::domain::types::{Arch, RawOffset, Rva};
use crate::error::{PeErrorModel, PeResult};
use crate::text::hex_text;
use vstd::prelude::*;

verus! {

/// The view of what an optional reference points at.
pub open spec fn opt_ref_view<T: View>(o: Option<&T>) -> Option<T::V> {
    match o {
        Some(x) => Some(x@),
        None => None,
    }
}

/// What an optional reference points at.
pub open spec fn opt_deref<T>(o: Option<&T>) -> Option<T> {
    match o {
        Some(x) => Some(*x),
        None => None,
    }
}

/// Read access to a PE file. Implemented by [`PeDocument`], so it works the
/// same whether the document came from a mock or a real parser.
pub trait PeViewer: Document {
    fn arch(&self) -> (r: Arch)
        ensures
            r == self.model().arch,
    ;

    fn dos_header(&self) -> (r: &DosHeader)
        ensures
            r@ == self.model().dos,
    ;

    fn coff_header(&self) -> (r: &CoffHeader)
        ensures
            *r == self.model().coff,
    ;

    fn optional_header(&self) -> (r: &OptionalHeader)
        ensures
            *r == self.model().optional,
    ;

    fn sections(&self) -> (r: &[Section])
        ensures
            views(r@) == self.model().sections,
    ;

    fn data_directory(&self, index: DataDirectoryIndex) -> (r: PeResult<&DataDirectory>)
        ensures
            match r {
                Ok(d) => directory_slot(index) < self.model().data_directories.len() && *d
                    == self.model().data_directories[directory_slot(index)],
                Err(e) => directory_slot(index) >= self.model().data_directories.len() && e@
                    == PeErrorModel::InvalidArgument(
                    "data_directory: no entry for "@ + directory_debug_name(index),
                ),
            },
    ;

    fn imports(&self) -> (r: &[ImportDescriptor])
        ensures
            views(r@) == self.model().imports,
    ;

    fn exports(&self) -> (r: Option<&ExportTable>)
        ensures
            opt_ref_view(r) == self.model().exports,
    ;

    fn resources(&self) -> (r: Option<&ResourceDirectory>)
        ensures
            opt_ref_view(r) == self.model().resources,
    ;

    fn relocations(&self) -> (r: Option<&RelocationTable>)
        ensures
            opt_ref_view(r) == self.model().relocations,
    ;

    fn tls(&self) -> (r: Option<&TlsDirectory>)
        ensures
            opt_deref(r) == self.model().tls,
    ;

    fn load_config(&self) -> (r: Option<&LoadConfigDirectory>)
        ensures
            opt_deref(r) == self.model().load_config,
    ;

    /// Translate an RVA to a raw file offset, or error when not mapped.
    fn rva_to_raw(&self, rva: Rva) -> (r: PeResult<RawOffset>)
        requires
            locate(self.model().sections, rva.0) matches Some(i)
                ==> self.model().sections[i].header.pointer_to_raw_data.0 + offset_in(
                self.model().sections,
                i,
                rva.0,
            ) <= u32::MAX,
        ensures
            match locate(self.model().sections, rva.0) {
                Some(i) => r is Ok && r->Ok_0.0
                    == self.model().sections[i].header.pointer_to_raw_data.0 + offset_in(
                    self.model().sections,
                    i,
                    rva.0,
                ),
                None => r is Err && r->Err_0@ == PeErrorModel::InvalidArgument(
                    "rva_to_raw: RVA "@ + hex_text(rva.0 as nat) + " not mapped"@,
                ),
            },
    ;

    /// Translate a raw file offset to an RVA, or error when not mapped.
    fn raw_to_rva(&self, raw: RawOffset) -> (r: PeResult<Rva>)
        requires
            locate_raw(self.model().sections, raw.0) matches Some(i)
                ==> self.model().sections[i].header.virtual_address.0 + (raw.0
                - self.model().sections[i].header.pointer_to_raw_data.0) <= u32::MAX,
        ensures
            match locate_raw(self.model().sections, raw.0) {
                Some(i) => r is Ok && r->Ok_0.0 == self.model().sections[i].header.virtual_address.0
                    + (raw.0 - self.model().sections[i].header.pointer_to_raw_data.0),
                None => r is Err && r->Err_0@ == PeErrorModel::InvalidArgument(
                    "raw_to_rva: offset "@ + hex_text(raw.0 as nat) + " not mapped"@,
                ),
            },
    ;

    /// Read `len` bytes at `rva` from the in-memory image.
    fn read(&self, rva: Rva, len: usize) -> (r: PeResult<&[u8]>)
        ensures
            match r {
                Ok(b) => image_read(self.model().sections, rva.0, len as nat) == Some(b@),
                Err(e) => image_read(self.model().sections, rva.0, len as nat) is None && e@
                    == read_error(self.model().sections, rva.0, len as nat),
            },
    ;
}

impl PeViewer for PeDocument {
    fn arch(&self) -> (r: Arch) {
        self.arch
    }

    fn dos_header(&self) -> (r: &DosHeader) {
        &self.dos
    }

    fn coff_header(&self) -> (r: &CoffHeader) {
        &self.coff
    }

    fn optional_header(&self) -> (r: &OptionalHeader) {
        &self.optional
    }

    fn sections(&self) -> (r: &[Section]) {
        self.sections.as_slice()
    }

    fn data_directory(&self, index: DataDirectoryIndex) -> (r: PeResult<&DataDirectory>) {
        self.data_directory(index)
    }

    fn imports(&self) -> (r: &[ImportDescriptor]) {
        self.imports.as_slice()
    }

    fn exports(&self) -> (r: Option<&ExportTable>) {
        self.exports.as_ref()
    }

    fn resources(&self) -> (r: Option<&ResourceDirectory>) {
        self.resources.as_ref()
    }

    fn relocations(&self) -> (r: Option<&RelocationTable>) {
        self.relocations.as_ref()
    }

    fn tls(&self) -> (r: Option<&TlsDirectory>) {
        self.tls.as_ref()
    }

    fn load_config(&self) -> (r: Option<&LoadConfigDirectory>) {
        self.load_config.as_ref()
    }

    fn rva_to_raw(&self, rva: Rva) -> (r: PeResult<RawOffset>) {
        self.rva_to_raw(rva)
    }

    fn raw_to_rva(&self, raw: RawOffset) -> (r: PeResult<Rva>) {
        self.raw_to_rva(raw)
    }

    fn read(&self, rva: Rva, len: usize) -> (r: PeResult<&[u8]>) {
        self.read(rva, len)
    }
}

} // verus!
