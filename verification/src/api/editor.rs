//! Mutating access to a [`PeDocument`].

use crate::domain::coff::CoffHeader;
use crate::domain::data_directory::{directory_slot, DataDirectory, DataDirectoryIndex};
use crate::domain::document::{
    allocated_section, image_end_of, image_write, next_section_va, write_error, DocModel, Document,
    PeDocument,
};
use crate::domain::dos::DosHeader;
use crate::domain::import::{lemma_views_push, views};
use crate::domain::optional::{header_section_alignment, OptionalHeader};
use crate::domain::section::{Section, SectionHeader, SectionId, SectionModel};
use crate::domain::types::{align_up, RawOffset, Rva};
use crate::error::{invalid_argument, PeError, PeErrorModel, PeResult};
use crate::text::{dec_text, push_dec};
use vstd::prelude::*;
use vstd::string::*;

verus! {

/// The directory array grown with empty entries to at least `n` of them.
pub open spec fn padded(dirs: Seq<DataDirectory>, n: nat) -> Seq<DataDirectory> {
    if dirs.len() >= n {
        dirs
    } else {
        dirs + Seq::new(
            (n - dirs.len()) as nat,
            |i: int| DataDirectory { rva: Rva(0), size: 0 },
        )
    }
}

/// The directory array with one entry set.
pub open spec fn with_directory(
    dirs: Seq<DataDirectory>,
    index: DataDirectoryIndex,
    rva: Rva,
    size: u32,
) -> Seq<DataDirectory> {
    padded(dirs, (directory_slot(index) + 1) as nat).update(
        directory_slot(index) as int,
        DataDirectory { rva, size },
    )
}

/// The section that [`PeEditor::add_section`] appends.
pub open spec fn added_section(
    d: DocModel,
    name: [u8; 8],
    characteristics: u32,
    data: Seq<u8>,
) -> SectionModel {
    SectionModel {
        header: SectionHeader {
            name,
            virtual_size: data.len() as u32,
            virtual_address: Rva(
                next_section_va(d.sections, header_section_alignment(d.optional)),
            ),
            size_of_raw_data: 0,
            pointer_to_raw_data: RawOffset(0),
            characteristics,
        },
        data,
    }
}

/// Why section `id` cannot be removed, if it cannot.
pub open spec fn remove_section_error(d: DocModel, id: nat) -> Option<PeErrorModel> {
    if id >= d.sections.len() {
        Some(PeErrorModel::InvalidArgument("remove_section: no section #"@ + dec_text(id)))
    } else if d.sections.len() <= 1 {
        Some(PeErrorModel::InvalidArgument("remove_section: cannot remove the last section"@))
    } else {
        None
    }
}

/// Edit access to a PE file. Implemented by [`PeDocument`].
pub trait PeEditor: Document {
    fn set_dos_header(&mut self, dos: DosHeader)
        ensures
            final(self).model() == (DocModel { dos: dos@, ..old(self).model() }),
    ;

    fn set_coff_header(&mut self, coff: CoffHeader)
        ensures
            final(self).model() == (DocModel { coff, ..old(self).model() }),
    ;

    fn set_optional_header(&mut self, optional: OptionalHeader)
        ensures
            final(self).model() == (DocModel { optional, ..old(self).model() }),
    ;

    fn set_data_directory(&mut self, index: DataDirectoryIndex, rva: Rva, size: u32) -> (r:
        PeResult<()>)
        ensures
            r is Ok,
            final(self).model() == (DocModel {
                data_directories: with_directory(
                    old(self).model().data_directories,
                    index,
                    rva,
                    size,
                ),
                ..old(self).model()
            }),
    ;

    /// Append a new section at the end of the image.
    fn add_section(&mut self, name: [u8; 8], characteristics: u32, data: Vec<u8>) -> (r: PeResult<
        SectionId,
    >)
        ensures
            r is Ok,
            r->Ok_0 == old(self).model().sections.len(),
            final(self).model() == (DocModel {
                sections: old(self).model().sections.push(
                    added_section(old(self).model(), name, characteristics, data@),
                ),
                ..old(self).model()
            }),
    ;

    fn remove_section(&mut self, id: SectionId) -> (r: PeResult<()>)
        ensures
            match remove_section_error(old(self).model(), id as nat) {
                Some(e) => r is Err && r->Err_0@ == e && final(self).model()
                    == old(self).model(),
                None => r is Ok && final(self).model() == (DocModel {
                    sections: old(self).model().sections.remove(id as int),
                    ..old(self).model()
                }),
            },
    ;

    fn write(&mut self, rva: Rva, bytes: &[u8]) -> (r: PeResult<()>)
        ensures
            match image_write(old(self).model().sections, rva.0, bytes@) {
                Some(sections) => r is Ok && final(self).model() == (DocModel {
                    sections,
                    ..old(self).model()
                }),
                None => r is Err && r->Err_0@ == write_error(
                    old(self).model().sections,
                    rva.0,
                    bytes@.len(),
                ) && final(self).model() == old(self).model(),
            },
    ;

    /// Append a new initialized-data section of `size` zero bytes at the end of
    /// the image and return its RVA.
    fn allocate(&mut self, size: usize, alignment: u32) -> (r: PeResult<Rva>)
        ensures
            r is Ok,
            r->Ok_0 == Rva(next_section_va(old(self).model().sections, alignment)),
            final(self).model() == (DocModel {
                sections: old(self).model().sections.push(
                    allocated_section(old(self).model().sections, size as nat, alignment),
                ),
                ..old(self).model()
            }),
    ;
}

impl PeEditor for PeDocument {
    fn set_dos_header(&mut self, dos: DosHeader) {
        self.dos = dos;
    }

    fn set_coff_header(&mut self, coff: CoffHeader) {
        self.coff = coff;
    }

    fn set_optional_header(&mut self, optional: OptionalHeader) {
        self.optional = optional;
    }

    fn set_data_directory(&mut self, index: DataDirectoryIndex, rva: Rva, size: u32) -> (r:
        PeResult<()>) {
        let i: usize = index.to_usize();
        let ghost dirs = self.data_directories@;
        let ghost n = (directory_slot(index) + 1) as nat;
        while self.data_directories.len() <= i
            invariant
                i == directory_slot(index),
                n == i + 1,
                dirs.len() <= self.data_directories@.len(),
                self.data_directories@ == padded(dirs, self.data_directories@.len()),
                self.data_directories@.len() <= n || self.data_directories@ == dirs,
                self@ == (DocModel { data_directories: self.data_directories@, ..old(self)@ }),
                dirs == old(self)@.data_directories,
            decreases n - self.data_directories@.len(),
        {
            let ghost before = self.data_directories@;
            self.data_directories.push(DataDirectory { rva: Rva(0), size: 0 });
            assert(self.data_directories@ =~= padded(dirs, before.len() + 1));
        }
        assert(self.data_directories@ =~= padded(dirs, n));
        self.data_directories[i] = DataDirectory { rva, size };
        assert(self@.data_directories =~= with_directory(dirs, index, rva, size));
        Ok(())
    }

    fn add_section(&mut self, name: [u8; 8], characteristics: u32, data: Vec<u8>) -> (r: PeResult<
        SectionId,
    >) {
        let alignment: u32 = self.optional.section_alignment();
        let align: u32 = if alignment < 1 {
            1
        } else {
            alignment
        };
        let end: u32 = image_end_of(&self.sections);
        let va: u32 = align_up(end, align);
        let s = Section {
            header: SectionHeader {
                name,
                virtual_size: data.len() as u32,
                virtual_address: Rva(va),
                size_of_raw_data: 0,
                pointer_to_raw_data: RawOffset(0),
                characteristics,
            },
            data,
        };
        proof {
            lemma_views_push(self.sections@, s);
        }
        self.sections.push(s);
        Ok(self.sections.len() - 1)
    }

    fn remove_section(&mut self, id: SectionId) -> (r: PeResult<()>) {
        if id >= self.sections.len() {
            let mut m: String = "remove_section: no section #".to_owned();
            push_dec(&mut m, id as u64);
            return Err(PeError::InvalidArgument(m));
        }
        if self.sections.len() <= 1 {
            return Err(invalid_argument("remove_section: cannot remove the last section"));
        }
        let ghost before = self.sections@;
        self.sections.remove(id);
        assert(views(self.sections@) =~= views(before).remove(id as int));
        Ok(())
    }

    fn write(&mut self, rva: Rva, bytes: &[u8]) -> (r: PeResult<()>) {
        self.write(rva, bytes)
    }

    fn allocate(&mut self, size: usize, alignment: u32) -> (r: PeResult<Rva>) {
        self.allocate(size, alignment)
    }
}

/// Setting a directory and reading it back gives what was set.
pub proof fn directory_reads_back(
    dirs: Seq<DataDirectory>,
    index: DataDirectoryIndex,
    rva: Rva,
    size: u32,
)
    ensures
        with_directory(dirs, index, rva, size)[directory_slot(index) as int] == (DataDirectory {
            rva,
            size,
        }),
        forall|j: int|
            0 <= j < dirs.len() && j != directory_slot(index) ==> #[trigger] with_directory(
                dirs,
                index,
                rva,
                size,
            )[j] == dirs[j],
{
}

/// Removing the section that was just appended to a document that has sections
/// is allowed and restores its section table.
pub proof fn remove_undoes_add(d: DocModel, name: [u8; 8], characteristics: u32, data: Seq<u8>)
    requires
        d.sections.len() > 0,
    ensures
        ({
            let after = DocModel {
                sections: d.sections.push(added_section(d, name, characteristics, data)),
                ..d
            };
            &&& remove_section_error(after, d.sections.len()) is None
            &&& after.sections.remove(d.sections.len() as int) == d.sections
        }),
{
    assert(d.sections.push(added_section(d, name, characteristics, data)).remove(
        d.sections.len() as int,
    ) =~= d.sections);
}

} // verus!
