//! Editing of the (rich) import table.

use crate::api::editor::{with_directory, PeEditor};
use crate::bytes::{le_bytes, low, low32, push_le};
use crate::domain::data_directory::{DataDirectory, DataDirectoryIndex};
use crate::domain::document::{
    allocated_section, at_least_one, image_end, image_end_of, image_write, lemma_image_end,
    lemma_len32, lemma_locate_is, locate, next_section_va, section_end, write_error, DocModel,
    Document, PeDocument,
};
use crate::domain::iat::{RebuiltImportTable, RebuiltImportTableModel};
use crate::domain::import::{
    clone_functions, clone_imports, lemma_views_push, views, ImportDescriptor,
    ImportDescriptorModel, ImportFunction, ImportFunctionModel,
};
use crate::domain::optional::header_section_alignment;
use crate::domain::section::{SectionHeader, SectionModel, IMAGE_SCN_MEM_WRITE};
use crate::domain::types::{align_up, align_up_is_least_multiple, pointer_size, ptr_size, Rva};
use crate::error::{failure, invalid_argument, result_view, PeError, PeErrorModel, PeResult};
use crate::io::pe::decode::imports_from;
use crate::io::pe::import_render::{
    flat_thunks, import_blob, render_import_table, rendered_import, RenderedImport,
    RenderedImportModel,
};
use crate::io::pe::laws::image::{image_holds, lemma_own_section_holds};
use crate::io::pe::laws::imports::{
    imports_placed, imports_survive, lemma_placed_is_addressable, plain_imports,
};
use vstd::prelude::*;
use vstd::string::*;

verus! {

/// The first descriptor of the named module.
pub open spec fn module_at(im: Seq<ImportDescriptorModel>, module: Seq<char>) -> Option<int>
    decreases im.len(),
{
    if im.len() == 0 {
        None
    } else {
        match module_at(im.drop_last(), module) {
            Some(i) => Some(i),
            None => if im.last().name == module {
                Some(im.len() - 1)
            } else {
                None
            },
        }
    }
}

/// `have` followed by those of `more` that are not there yet, in order.
pub open spec fn merged_functions(
    have: Seq<ImportFunctionModel>,
    more: Seq<ImportFunctionModel>,
) -> Seq<ImportFunctionModel>
    decreases more.len(),
{
    if more.len() == 0 {
        have
    } else {
        let before = merged_functions(have, more.drop_last());
        if before.contains(more.last()) {
            before
        } else {
            before.push(more.last())
        }
    }
}

/// The import table after adding functions of a module.
pub open spec fn imports_with(
    im: Seq<ImportDescriptorModel>,
    module: Seq<char>,
    functions: Seq<ImportFunctionModel>,
) -> Seq<ImportDescriptorModel> {
    match module_at(im, module) {
        Some(i) => im.update(
            i,
            ImportDescriptorModel {
                name: im[i].name,
                functions: merged_functions(im[i].functions, functions),
            },
        ),
        None => im.push(ImportDescriptorModel { name: module, functions }),
    }
}

/// The descriptors of all other modules.
pub open spec fn imports_without(im: Seq<ImportDescriptorModel>, module: Seq<char>) -> Seq<
    ImportDescriptorModel,
>
    decreases im.len(),
{
    if im.len() == 0 {
        Seq::empty()
    } else {
        let before = imports_without(im.drop_last(), module);
        if im.last().name == module {
            before
        } else {
            before.push(im.last())
        }
    }
}

/// Where a table rendered for the end of the image begins.
pub open spec fn table_base(d: DocModel) -> u32 {
    next_section_va(d.sections, header_section_alignment(d.optional))
}

/// Rendering the import table `im` into a section of its own at the end of the
/// image: the sections after it and the rendered table, or where it stopped.
pub open spec fn placed_table(d: DocModel, im: Seq<ImportDescriptorModel>) -> (
    Seq<SectionModel>,
    Result<RenderedImportModel, PeErrorModel>,
) {
    let base = table_base(d);
    match rendered_import(im, d.arch, base) {
        Err(e) => (d.sections, Err(e)),
        Ok(t) => {
            let grown = d.sections.push(
                allocated_section(
                    d.sections,
                    t.blob.len(),
                    header_section_alignment(d.optional),
                ),
            );
            match image_write(grown, base, t.blob) {
                Some(sections) => (sections, Ok(t)),
                None => (grown, Err(write_error(grown, base, t.blob.len()))),
            }
        },
    }
}

/// A document with its import and IAT directories and its imports set.
pub open spec fn with_import_table(
    d: DocModel,
    sections: Seq<SectionModel>,
    im: Seq<ImportDescriptorModel>,
    dir: DataDirectory,
    iat: DataDirectory,
) -> DocModel {
    DocModel {
        sections,
        data_directories: with_directory(
            with_directory(d.data_directories, DataDirectoryIndex::Import, dir.rva, dir.size),
            DataDirectoryIndex::Iat,
            iat.rva,
            iat.size,
        ),
        imports: im,
        ..d
    }
}

/// What rebuilding the import table leaves and returns.
pub open spec fn rebuilt_table(d: DocModel, im: Seq<ImportDescriptorModel>) -> (
    DocModel,
    Result<RebuiltImportTableModel, PeErrorModel>,
) {
    if im.len() == 0 {
        (d, Err(PeErrorModel::InvalidArgument("rebuild_import_table: no descriptors"@)))
    } else {
        let (sections, r) = placed_table(d, im);
        match r {
            Err(e) => (DocModel { sections, ..d }, Err(e)),
            Ok(t) => (
                with_import_table(
                    d,
                    sections,
                    im,
                    DataDirectory { rva: Rva(t.dir_rva), size: t.size },
                    DataDirectory { rva: Rva(t.iat_rva), size: t.iat_size },
                ),
                Ok(
                    RebuiltImportTableModel {
                        rva: Rva(table_base(d)),
                        size: t.size,
                        iat_rva: Rva(t.iat_rva),
                        iat_size: t.iat_size,
                        thunk_values: t.thunk_values,
                    },
                ),
            ),
        }
    }
}

/// Operations on the parsed import table of a [`PeDocument`].
///
/// `add_import` / `remove_import` edit the rich form directly. The physical
/// import directory is rebuilt by `rebuild_import_table`, which writes fresh
/// descriptor / thunk / name arrays into the image and updates the data
/// directory (this is what an IAT fix ultimately calls).
pub trait ImportTableEditor: Document {
    /// Add a module import (merging functions if the module already exists).
    fn add_import(&mut self, module: &str, functions: &[ImportFunction]) -> (r: PeResult<()>)
        ensures
            module@.len() == 0 ==> r is Err && r->Err_0@ == PeErrorModel::InvalidArgument(
                "add_import: empty module name"@,
            ) && final(self).model() == old(self).model(),
            module@.len() > 0 ==> r is Ok && final(self).model() == (DocModel {
                imports: imports_with(old(self).model().imports, module@, views(functions@)),
                ..old(self).model()
            }),
    ;

    /// Remove every descriptor of a module; error when there is none.
    fn remove_import(&mut self, module: &str) -> (r: PeResult<()>)
        ensures
            module_at(old(self).model().imports, module@) is None ==> r is Err && r->Err_0@
                == PeErrorModel::InvalidArgument(
                "remove_import: no import '"@ + module@ + "'"@,
            ) && final(self).model() == old(self).model(),
            module_at(old(self).model().imports, module@) is Some ==> r is Ok
                && final(self).model() == (DocModel {
                imports: imports_without(old(self).model().imports, module@),
                ..old(self).model()
            }),
    ;

    /// Rebuild the physical import directory for `descriptors`, updating the
    /// rich form and the data directory, and return the result.
    fn rebuild_import_table(&mut self, descriptors: &[ImportDescriptor]) -> (r: PeResult<
        RebuiltImportTable,
    >)
        ensures
            (final(self).model(), result_view(r)) == rebuilt_table(
                old(self).model(),
                views(descriptors@),
            ),
    ;
}

proof fn lemma_module_prefix(im: Seq<ImportDescriptorModel>, module: Seq<char>, n: int)
    requires
        0 <= n <= im.len(),
        module_at(im.take(n), module) is Some,
    ensures
        module_at(im, module) == module_at(im.take(n), module),
    decreases im.len(),
{
    if n < im.len() {
        assert(im.drop_last().take(n) =~= im.take(n));
        lemma_module_prefix(im.drop_last(), module, n);
    } else {
        assert(im.take(n) =~= im);
    }
}

/// The first descriptor of the named module.
pub fn find_module(imports: &[ImportDescriptor], module: &str) -> (r: Option<usize>)
    ensures
        match r {
            Some(i) => module_at(views(imports@), module@) == Some(i as int) && i < imports@.len(),
            None => module_at(views(imports@), module@) is None,
        },
{
    let ghost all = views(imports@);
    let wanted: String = module.to_owned();
    let mut i: usize = 0;
    while i < imports.len()
        invariant
            i <= imports.len(),
            wanted@ == module@,
            all == views(imports@),
            module_at(all.take(i as int), module@) is None,
        decreases imports.len() - i,
    {
        proof {
            assert(all.take(i + 1).drop_last() =~= all.take(i as int));
            assert(all.take(i + 1).last() == imports@[i as int]@);
        }
        if imports[i].name == wanted {
            proof {
                lemma_module_prefix(all, module@, i + 1);
            }
            return Some(i);
        }
        i = i + 1;
    }
    assert(all.take(i as int) =~= all);
    None
}

/// Whether `f` is among `functions`.
fn has_function(functions: &[ImportFunction], f: &ImportFunction) -> (r: bool)
    ensures
        r == views(functions@).contains(f@),
{
    let mut i: usize = 0;
    while i < functions.len()
        invariant
            i <= functions.len(),
            forall|j: int| 0 <= j < i ==> views(functions@)[j] != f@,
        decreases functions.len() - i,
    {
        if functions[i].same(f) {
            assert(views(functions@)[i as int] == f@);
            return true;
        }
        i = i + 1;
    }
    false
}

/// Append those of `more` that are not there yet.
fn merge_functions(have: &mut Vec<ImportFunction>, more: &[ImportFunction])
    ensures
        views(final(have)@) == merged_functions(views(old(have)@), views(more@)),
{
    let ghost start = views(have@);
    let ghost all = views(more@);
    let mut i: usize = 0;
    assert(all.take(0) =~= Seq::empty());
    while i < more.len()
        invariant
            i <= more.len(),
            all == views(more@),
            views(have@) == merged_functions(start, all.take(i as int)),
        decreases more.len() - i,
    {
        proof {
            assert(all.take(i + 1).drop_last() =~= all.take(i as int));
            assert(all.take(i + 1).last() == more@[i as int]@);
        }
        if !has_function(have, &more[i]) {
            let f = more[i].clone();
            proof {
                lemma_views_push(have@, f);
            }
            have.push(f);
        }
        i = i + 1;
    }
    assert(all.take(i as int) =~= all);
}

/// Removing a module that has no descriptor leaves the table as it is; a
/// removed module has no descriptor left.
pub proof fn removed_import_is_gone(im: Seq<ImportDescriptorModel>, module: Seq<char>)
    ensures
        module_at(imports_without(im, module), module) is None,
        module_at(im, module) is None ==> imports_without(im, module) == im,
        module_at(im, module) is Some ==> imports_without(im, module).len() < im.len(),
        imports_without(im, module).len() <= im.len(),
    decreases im.len(),
{
    if im.len() > 0 {
        removed_import_is_gone(im.drop_last(), module);
        let before = imports_without(im.drop_last(), module);
        if im.last().name != module {
            assert(before.push(im.last()).drop_last() =~= before);
            if module_at(im, module) is None {
                assert(im.drop_last().push(im.last()) =~= im);
            }
        }
    }
}

proof fn lemma_module_at(im: Seq<ImportDescriptorModel>, module: Seq<char>)
    ensures
        module_at(im, module) matches Some(i) ==> 0 <= i < im.len() && im[i].name == module,
    decreases im.len(),
{
    if im.len() > 0 {
        lemma_module_at(im.drop_last(), module);
    }
}

/// Adding the same functions to a module again changes nothing.
pub proof fn merging_twice_is_merging_once(
    have: Seq<ImportFunctionModel>,
    more: Seq<ImportFunctionModel>,
)
    ensures
        merged_functions(merged_functions(have, more), more) == merged_functions(have, more),
{
    lemma_merged_contains(have, more);
    lemma_merge_of_present(merged_functions(have, more), more);
}

proof fn lemma_merged_contains(have: Seq<ImportFunctionModel>, more: Seq<ImportFunctionModel>)
    ensures
        forall|f: ImportFunctionModel|
            have.contains(f) || more.contains(f) ==> #[trigger] merged_functions(
                have,
                more,
            ).contains(f),
    decreases more.len(),
{
    if more.len() > 0 {
        lemma_merged_contains(have, more.drop_last());
        let before = merged_functions(have, more.drop_last());
        let after = merged_functions(have, more);
        assert forall|f: ImportFunctionModel| have.contains(f) || more.contains(f) implies (
        #[trigger] after.contains(f)) by {
            if f == more.last() {
                if !before.contains(f) {
                    assert(after[before.len() as int] == f);
                }
            } else {
                if more.contains(f) && !have.contains(f) {
                    let i = choose|i: int| 0 <= i < more.len() && more[i] == f;
                    assert(more.drop_last()[i] == f);
                }
                assert(before.contains(f));
                let j = choose|j: int| 0 <= j < before.len() && before[j] == f;
                assert(after[j] == f);
            }
        }
    }
}

proof fn lemma_merge_of_present(have: Seq<ImportFunctionModel>, more: Seq<ImportFunctionModel>)
    requires
        forall|f: ImportFunctionModel| more.contains(f) ==> have.contains(f),
    ensures
        merged_functions(have, more) == have,
    decreases more.len(),
{
    if more.len() > 0 {
        assert forall|f: ImportFunctionModel| more.drop_last().contains(f) implies have.contains(
            f,
        ) by {
            let i = choose|i: int| 0 <= i < more.drop_last().len() && more.drop_last()[i] == f;
            assert(more[i] == f);
        }
        lemma_merge_of_present(have, more.drop_last());
        assert(more.contains(more[more.len() - 1]));
    }
}

/// What was added can be found again: the module is there and imports every one
/// of the added functions.
pub proof fn added_import_is_found(
    im: Seq<ImportDescriptorModel>,
    module: Seq<char>,
    functions: Seq<ImportFunctionModel>,
)
    ensures
        module_at(imports_with(im, module, functions), module) matches Some(i) && 0 <= i
            < imports_with(im, module, functions).len() && forall|f: ImportFunctionModel|
            functions.contains(f) ==> #[trigger] imports_with(
                im,
                module,
                functions,
            )[i].functions.contains(f),
{
    lemma_module_at(im, module);
    let after = imports_with(im, module, functions);
    match module_at(im, module) {
        Some(i) => {
            lemma_merged_contains(im[i].functions, functions);
            lemma_module_at_names(im, after, module);
            assert(after[i].functions == merged_functions(im[i].functions, functions));
        },
        None => {
            assert(after.drop_last() =~= im);
        },
    }
}

proof fn lemma_module_at_names(
    a: Seq<ImportDescriptorModel>,
    b: Seq<ImportDescriptorModel>,
    module: Seq<char>,
)
    requires
        a.len() == b.len(),
        forall|i: int| 0 <= i < a.len() ==> (#[trigger] a[i]).name == b[i].name,
    ensures
        module_at(a, module) == module_at(b, module),
    decreases a.len(),
{
    if a.len() > 0 {
        assert forall|i: int| 0 <= i < a.drop_last().len() implies (#[trigger] a.drop_last()[i]).name
            == b.drop_last()[i].name by {
            assert(a[i].name == b[i].name);
        }
        lemma_module_at_names(a.drop_last(), b.drop_last(), module);
        assert(a[a.len() - 1].name == b[a.len() - 1].name);
    }
}

impl PeDocument {
    /// Render the import table into a section of its own at the end of the image.
    fn place_import_table(&mut self, descriptors: &[ImportDescriptor]) -> (r: PeResult<
        RenderedImport,
    >)
        requires
            descriptors@.len() > 0,
        ensures
            (final(self)@.sections, result_view(r)) == placed_table(
                old(self)@,
                views(descriptors@),
            ),
            final(self)@ == (DocModel { sections: final(self)@.sections, ..old(self)@ }),
            final(self).arch == old(self).arch,
    {
        let alignment: u32 = self.optional.section_alignment();
        let align: u32 = if alignment < 1 {
            1
        } else {
            alignment
        };
        let end: u32 = image_end_of(&self.sections);
        let base: u32 = align_up(end, align);
        let rendered = match render_import_table(descriptors, self.arch, Rva(base)) {
            Ok(t) => t,
            Err(e) => {
                return Err(e);
            },
        };
        let rva: Rva = match self.allocate(rendered.blob.len(), alignment) {
            Ok(rva) => rva,
            Err(e) => {
                return Err(e);
            },
        };
        match self.write(rva, rendered.blob.as_slice()) {
            Ok(_) => Ok(rendered),
            Err(e) => Err(e),
        }
    }
}

impl ImportTableEditor for PeDocument {
    fn add_import(&mut self, module: &str, functions: &[ImportFunction]) -> (r: PeResult<()>) {
        if module.is_empty() {
            return Err(invalid_argument("add_import: empty module name"));
        }
        let ghost before = self.imports@;
        match find_module(&self.imports, module) {
            Some(i) => {
                merge_functions(&mut self.imports[i].functions, functions);
                proof {
                    assert(views(before)[i as int] == before[i as int]@);
                    assert(self@.imports =~= imports_with(
                        views(before),
                        module@,
                        views(functions@),
                    ));
                }
            },
            None => {
                let d = ImportDescriptor {
                    name: module.to_owned(),
                    functions: clone_functions(functions),
                };
                proof {
                    lemma_views_push(self.imports@, d);
                }
                self.imports.push(d);
            },
        }
        Ok(())
    }

    fn remove_import(&mut self, module: &str) -> (r: PeResult<()>) {
        let ghost all = views(self.imports@);
        let wanted: String = module.to_owned();
        let mut kept: Vec<ImportDescriptor> = Vec::new();
        let mut i: usize = 0;
        assert(all.take(0) =~= Seq::empty());
        assert(views(kept@) =~= Seq::empty());
        while i < self.imports.len()
            invariant
                i <= self.imports.len(),
                *self == *old(self),
                wanted@ == module@,
                all == views(self.imports@),
                views(kept@) == imports_without(all.take(i as int), module@),
            decreases self.imports.len() - i,
        {
            proof {
                assert(all.take(i + 1).drop_last() =~= all.take(i as int));
                assert(all.take(i + 1).last() == self.imports@[i as int]@);
            }
            if self.imports[i].name != wanted {
                let d = self.imports[i].clone();
                proof {
                    lemma_views_push(kept@, d);
                }
                kept.push(d);
            }
            i = i + 1;
        }
        proof {
            assert(all.take(i as int) =~= all);
            removed_import_is_gone(all, module@);
            assert(views(kept@).len() == kept@.len());
        }
        if kept.len() == self.imports.len() {
            let mut m: String = "remove_import: no import '".to_owned();
            m.append(module);
            m.append("'");
            return Err(PeError::InvalidArgument(m));
        }
        self.imports = kept;
        Ok(())
    }

    fn rebuild_import_table(&mut self, descriptors: &[ImportDescriptor]) -> (r: PeResult<
        RebuiltImportTable,
    >) {
        if descriptors.len() == 0 {
            return Err(invalid_argument("rebuild_import_table: no descriptors"));
        }
        let ghost im = views(descriptors@);
        let ghost d = self@;
        let rendered = match self.place_import_table(descriptors) {
            Ok(t) => t,
            Err(e) => {
                return Err(e);
            },
        };
        let _ = self.set_data_directory(
            DataDirectoryIndex::Import,
            Rva(rendered.dir_rva),
            rendered.size,
        );
        let _ = self.set_data_directory(
            DataDirectoryIndex::Iat,
            Rva(rendered.iat_rva),
            rendered.iat_size,
        );
        self.imports = clone_imports(descriptors);
        Ok(
            RebuiltImportTable {
                rva: Rva(rendered.dir_rva),
                size: rendered.size,
                iat_rva: Rva(rendered.iat_rva),
                iat_size: rendered.iat_size,
                thunk_values: rendered.thunk_values,
            },
        )
    }
}

/// How many slots the first `n` modules have.
pub open spec fn slot_total(slots: Seq<Seq<Rva>>, n: nat) -> nat
    decreases n,
{
    if n == 0 {
        0
    } else {
        slot_total(slots, (n - 1) as nat) + slots[n - 1].len()
    }
}

/// How many functions a table imports.
pub open spec fn function_total(im: Seq<ImportDescriptorModel>, n: nat) -> nat
    decreases n,
{
    if n == 0 {
        0
    } else {
        function_total(im, (n - 1) as nat) + im[n - 1].functions.len()
    }
}

/// One write: the sections after it and, when it was refused, why.
pub open spec fn write_step(sections: Seq<SectionModel>, r: u32, b: Seq<u8>) -> (
    Seq<SectionModel>,
    Option<PeErrorModel>,
) {
    match image_write(sections, r, b) {
        Some(after) => (after, None),
        None => (sections, Some(write_error(sections, r, b.len()))),
    }
}

/// Writing the thunks from number `first` on into the first `n` of a module's
/// slots.
pub open spec fn slots_written(
    sections: Seq<SectionModel>,
    slots: Seq<Rva>,
    thunks: Seq<u64>,
    first: nat,
    ps: nat,
    n: nat,
) -> (Seq<SectionModel>, Option<PeErrorModel>)
    decreases n,
{
    if n == 0 {
        (sections, None)
    } else {
        let (before, e) = slots_written(sections, slots, thunks, first, ps, (n - 1) as nat);
        if e is Some {
            (before, e)
        } else {
            write_step(before, slots[n - 1].0, le_bytes(ps, thunks[first + n - 1] as nat))
        }
    }
}

/// Pointing the bound thunk array of module `m` at its first slot and writing
/// its slots.
pub open spec fn module_written(
    sections: Seq<SectionModel>,
    base: u32,
    slots: Seq<Seq<Rva>>,
    thunks: Seq<u64>,
    ps: nat,
    m: int,
) -> (Seq<SectionModel>, Option<PeErrorModel>) {
    let field = low((m * 20 + 16) as nat);
    if base + field > u32::MAX {
        (sections, Some(PeErrorModel::InvalidArgument("descriptor field RVA overflow"@)))
    } else {
        let (pointed, e) = write_step(
            sections,
            (base + field) as u32,
            le_bytes(4, slots[m][0].0 as nat),
        );
        if e is Some {
            (pointed, e)
        } else {
            slots_written(
                pointed,
                slots[m],
                thunks,
                slot_total(slots, m as nat),
                ps,
                slots[m].len(),
            )
        }
    }
}

/// Doing so for the first `n` modules.
pub open spec fn modules_written(
    sections: Seq<SectionModel>,
    base: u32,
    slots: Seq<Seq<Rva>>,
    thunks: Seq<u64>,
    ps: nat,
    n: nat,
) -> (Seq<SectionModel>, Option<PeErrorModel>)
    decreases n,
{
    if n == 0 {
        (sections, None)
    } else {
        let (before, e) = modules_written(sections, base, slots, thunks, ps, (n - 1) as nat);
        if e is Some {
            (before, e)
        } else {
            module_written(before, base, slots, thunks, ps, n - 1)
        }
    }
}

/// A section that the loader may write.
pub open spec fn writable_section(s: SectionModel) -> SectionModel {
    SectionModel {
        header: SectionHeader {
            characteristics: s.header.characteristics | IMAGE_SCN_MEM_WRITE,
            ..s.header
        },
        data: s.data,
    }
}

/// The section that holds `r` made writable.
pub open spec fn marked(sections: Seq<SectionModel>, r: u32) -> Seq<SectionModel> {
    match locate(sections, r) {
        Some(i) => sections.update(i, writable_section(sections[i])),
        None => sections,
    }
}

/// The sections that hold the first `n` of a module's slots made writable.
pub open spec fn marked_slots(sections: Seq<SectionModel>, slots: Seq<Rva>, n: nat) -> Seq<
    SectionModel,
>
    decreases n,
{
    if n == 0 {
        sections
    } else {
        marked(marked_slots(sections, slots, (n - 1) as nat), slots[n - 1].0)
    }
}

/// The sections that hold the slots of the first `n` modules made writable.
pub open spec fn marked_modules(sections: Seq<SectionModel>, slots: Seq<Seq<Rva>>, n: nat) -> Seq<
    SectionModel,
>
    decreases n,
{
    if n == 0 {
        sections
    } else {
        marked_slots(
            marked_modules(sections, slots, (n - 1) as nat),
            slots[n - 1],
            slots[n - 1].len(),
        )
    }
}

/// What rebuilding the import table over existing slots leaves and returns.
pub open spec fn rebuilt_in_place(
    d: DocModel,
    im: Seq<ImportDescriptorModel>,
    slots: Seq<Seq<Rva>>,
) -> (DocModel, Result<RebuiltImportTableModel, PeErrorModel>) {
    if im.len() == 0 {
        (d, Err(PeErrorModel::InvalidArgument("rebuild_import_table_in_place: no descriptors"@)))
    } else if im.len() != slots.len() {
        (
            d,
            Err(
                PeErrorModel::InvalidArgument(
                    "rebuild_import_table_in_place: descriptor/slot count mismatch"@,
                ),
            ),
        )
    } else {
        let (placed, r) = placed_table(d, im);
        match r {
            Err(e) => (DocModel { sections: placed, ..d }, Err(e)),
            Ok(t) => {
                let (written, stopped) = modules_written(
                    placed,
                    table_base(d),
                    slots,
                    t.thunk_values,
                    pointer_size(d.arch),
                    slots.len(),
                );
                match stopped {
                    Some(e) => (DocModel { sections: written, ..d }, Err(e)),
                    None => {
                        let first = slots[0][0];
                        let iat_size = (slot_total(slots, slots.len()) * pointer_size(
                            d.arch,
                        )) as u32;
                        (
                            with_import_table(
                                d,
                                marked_modules(written, slots, slots.len()),
                                im,
                                DataDirectory { rva: Rva(t.dir_rva), size: t.size },
                                DataDirectory { rva: first, size: iat_size },
                            ),
                            Ok(
                                RebuiltImportTableModel {
                                    rva: Rva(table_base(d)),
                                    size: t.size,
                                    iat_rva: first,
                                    iat_size,
                                    thunk_values: t.thunk_values,
                                },
                            ),
                        )
                    },
                }
            },
        }
    }
}

proof fn lemma_slots_stopped(
    sections: Seq<SectionModel>,
    slots: Seq<Rva>,
    thunks: Seq<u64>,
    first: nat,
    ps: nat,
    n: nat,
    to: nat,
)
    requires
        n <= to,
        slots_written(sections, slots, thunks, first, ps, n).1 is Some,
    ensures
        slots_written(sections, slots, thunks, first, ps, to) == slots_written(
            sections,
            slots,
            thunks,
            first,
            ps,
            n,
        ),
    decreases to,
{
    if n < to {
        lemma_slots_stopped(sections, slots, thunks, first, ps, n, (to - 1) as nat);
    }
}

proof fn lemma_modules_stopped(
    sections: Seq<SectionModel>,
    base: u32,
    slots: Seq<Seq<Rva>>,
    thunks: Seq<u64>,
    ps: nat,
    n: nat,
    to: nat,
)
    requires
        n <= to,
        modules_written(sections, base, slots, thunks, ps, n).1 is Some,
    ensures
        modules_written(sections, base, slots, thunks, ps, to) == modules_written(
            sections,
            base,
            slots,
            thunks,
            ps,
            n,
        ),
    decreases to,
{
    if n < to {
        lemma_modules_stopped(sections, base, slots, thunks, ps, n, (to - 1) as nat);
    }
}

proof fn lemma_slot_total(slots: Seq<Seq<Rva>>, n: nat, to: nat)
    requires
        n <= to,
    ensures
        slot_total(slots, n) <= slot_total(slots, to),
    decreases to,
{
    if n < to {
        lemma_slot_total(slots, n, (to - 1) as nat);
    }
}

proof fn lemma_thunk_count(im: Seq<ImportDescriptorModel>, ps: nat, base: u32, n: nat)
    ensures
        flat_thunks(im, ps, base, n).len() == function_total(im, n),
    decreases n,
{
    if n > 0 {
        lemma_thunk_count(im, ps, base, (n - 1) as nat);
    }
}

impl PeDocument {
    /// Write thunks into the slots of one module.
    fn write_slots(&mut self, slots: &[Rva], thunks: &[u64], first: usize, psize: usize) -> (r:
        PeResult<()>)
        requires
            first + slots@.len() <= thunks@.len(),
            psize <= 8,
        ensures
            (final(self)@.sections, failure(r)) == slots_written(
                old(self)@.sections,
                slots@,
                thunks@,
                first as nat,
                psize as nat,
                slots@.len(),
            ),
            final(self)@ == (DocModel { sections: final(self)@.sections, ..old(self)@ }),
    {
        let ghost start = self@.sections;
        let count: usize = thunks.len();
        let mut k: usize = 0;
        while k < slots.len()
            invariant
                k <= slots.len(),
                count == thunks@.len(),
                first + slots@.len() <= thunks@.len(),
                psize <= 8,
                start == old(self)@.sections,
                (self@.sections, None::<PeErrorModel>) == slots_written(
                    start,
                    slots@,
                    thunks@,
                    first as nat,
                    psize as nat,
                    k as nat,
                ),
                self@ == (DocModel { sections: self@.sections, ..old(self)@ }),
            decreases slots.len() - k,
        {
            let mut bytes: Vec<u8> = Vec::new();
            push_le(&mut bytes, psize, thunks[first + k]);
            assert(bytes@ =~= le_bytes(psize as nat, thunks@[first + k] as nat));
            match self.write(slots[k], bytes.as_slice()) {
                Ok(_) => {},
                Err(e) => {
                    proof {
                        lemma_slots_stopped(
                            start,
                            slots@,
                            thunks@,
                            first as nat,
                            psize as nat,
                            (k + 1) as nat,
                            slots@.len(),
                        );
                    }
                    return Err(e);
                },
            }
            k = k + 1;
        }
        Ok(())
    }

    /// Point a module's bound thunk array at its first slot and write its slots.
    fn write_module(
        &mut self,
        base: u32,
        iat_slots: &[Vec<Rva>],
        thunks: &[u64],
        first: usize,
        psize: usize,
        m: usize,
    ) -> (r: PeResult<()>)
        requires
            m < iat_slots@.len(),
            iat_slots@[m as int]@.len() > 0,
            first == slot_total(views(iat_slots@), m as nat),
            first + iat_slots@[m as int]@.len() <= thunks@.len(),
            psize <= 8,
        ensures
            (final(self)@.sections, failure(r)) == module_written(
                old(self)@.sections,
                base,
                views(iat_slots@),
                thunks@,
                psize as nat,
                m as int,
            ),
            final(self)@ == (DocModel { sections: final(self)@.sections, ..old(self)@ }),
    {
        let slots: &Vec<Rva> = &iat_slots[m];
        assert(views(iat_slots@)[m as int] == slots@);
        let field: u32 = low32(m as u128 * 20 + 16);
        let address: u32 = match base.checked_add(field) {
            Some(a) => a,
            None => {
                return Err(invalid_argument("descriptor field RVA overflow"));
            },
        };
        let mut bytes: Vec<u8> = Vec::new();
        push_le(&mut bytes, 4, slots[0].get() as u64);
        assert(bytes@ =~= le_bytes(4, slots@[0].0 as nat));
        match self.write(Rva(address), bytes.as_slice()) {
            Ok(_) => {},
            Err(e) => {
                return Err(e);
            },
        }
        self.write_slots(slots.as_slice(), thunks, first, psize)
    }

    /// Let the loader write the sections that hold a module's slots, even if
    /// they (typically `.rdata`) were marked read-only.
    fn mark_slots(&mut self, slots: &[Rva])
        ensures
            final(self)@ == (DocModel {
                sections: marked_slots(old(self)@.sections, slots@, slots@.len()),
                ..old(self)@
            }),
    {
        let ghost start = self@.sections;
        let mut k: usize = 0;
        while k < slots.len()
            invariant
                k <= slots.len(),
                start == old(self)@.sections,
                self@ == (DocModel {
                    sections: marked_slots(start, slots@, k as nat),
                    ..old(self)@
                }),
            decreases slots.len() - k,
        {
            let ghost before = self@.sections;
            if let Some((i, _)) = self.section_containing_rva(slots[k]) {
                assert(before[i as int] == self.sections@[i as int]@);
                let flags: u32 = self.sections[i].header.characteristics | IMAGE_SCN_MEM_WRITE;
                self.sections[i].header.characteristics = flags;
                assert(self@.sections =~= before.update(
                    i as int,
                    writable_section(before[i as int]),
                ));
            }
            k = k + 1;
        }
    }

    /// Rebuild the physical import table for `descriptors`, then place each
    /// descriptor's `FirstThunk` array **in place** at the caller-supplied
    /// original IAT slot RVAs (`iat_slots[m]` holds `descriptors[m]`'s slot
    /// RVAs, one per function, in order). The new thunk values are written into
    /// those slots and the IAT data directory is repointed at the first one.
    ///
    /// This is the shape a fixed *dump* needs to be runnable: the loader
    /// resolves the rebuilt names straight into the slots the code already
    /// references, so `call [rip+disp]` land on loader-populated addresses.
    /// The containing section(s) are marked writable so the loader can write
    /// even when the original IAT sat in a read-only section (e.g. `.rdata`).
    ///
    /// Every module needs a slot, there must be a thunk for every slot, and the
    /// slots together must be fewer than 4 GiB.
    #[verifier::rlimit(60)]
    pub fn rebuild_import_table_in_place(
        &mut self,
        descriptors: &[ImportDescriptor],
        iat_slots: &[Vec<Rva>],
    ) -> (r: PeResult<RebuiltImportTable>)
        requires
            descriptors@.len() == iat_slots@.len() && placed_table(
                old(self)@,
                views(descriptors@),
            ).1 is Ok ==> {
                let slots = views(iat_slots@);
                &&& forall|m: int| 0 <= m < slots.len() ==> (#[trigger] slots[m]).len() > 0
                &&& slot_total(slots, slots.len()) <= function_total(
                    views(descriptors@),
                    descriptors@.len(),
                )
                &&& slot_total(slots, slots.len()) * pointer_size(old(self)@.arch) <= u32::MAX
            },
        ensures
            (final(self)@, result_view(r)) == rebuilt_in_place(
                old(self)@,
                views(descriptors@),
                views(iat_slots@),
            ),
    {
        if descriptors.len() == 0 {
            return Err(invalid_argument("rebuild_import_table_in_place: no descriptors"));
        }
        if descriptors.len() != iat_slots.len() {
            return Err(
                invalid_argument("rebuild_import_table_in_place: descriptor/slot count mismatch"),
            );
        }
        let ghost im = views(descriptors@);
        let ghost slots = views(iat_slots@);
        let ghost d = self@;
        let ghost total = slot_total(slots, slots.len());
        let psize: usize = ptr_size(self.arch);
        let rendered = match self.place_import_table(descriptors) {
            Ok(t) => t,
            Err(e) => {
                return Err(e);
            },
        };
        let ghost placed = self@.sections;
        let base: u32 = rendered.dir_rva;
        let thunks: &Vec<u64> = &rendered.thunk_values;
        proof {
            lemma_thunk_count(im, pointer_size(d.arch), table_base(d), im.len());
        }
        let count: usize = thunks.len();
        let mut first: usize = 0;
        let mut m: usize = 0;
        while m < iat_slots.len()
            invariant
                m <= iat_slots.len(),
                slots == views(iat_slots@),
                total == slot_total(slots, slots.len()),
                forall|m: int| 0 <= m < slots.len() ==> (#[trigger] slots[m]).len() > 0,
                total <= thunks@.len(),
                count == thunks@.len(),
                psize == pointer_size(d.arch),
                psize <= 8,
                first == slot_total(slots, m as nat),
                (self@.sections, None::<PeErrorModel>) == modules_written(
                    placed,
                    base,
                    slots,
                    thunks@,
                    psize as nat,
                    m as nat,
                ),
                self@ == (DocModel { sections: self@.sections, ..d }),
                base == table_base(d),
                placed_table(d, im) == (placed, Ok::<RenderedImportModel, PeErrorModel>(rendered@)),
                thunks@ == rendered@.thunk_values,
                im.len() == slots.len(),
                im.len() > 0,
                im == views(descriptors@),
                d == old(self)@,
            decreases iat_slots.len() - m,
        {
            proof {
                lemma_slot_total(slots, (m + 1) as nat, slots.len());
                assert(slots[m as int] == iat_slots@[m as int]@);
            }
            match self.write_module(base, iat_slots, thunks.as_slice(), first, psize, m) {
                Ok(_) => {},
                Err(e) => {
                    proof {
                        lemma_modules_stopped(
                            placed,
                            base,
                            slots,
                            thunks@,
                            psize as nat,
                            (m + 1) as nat,
                            slots.len(),
                        );
                    }
                    return Err(e);
                },
            }
            first = first + iat_slots[m].len();
            m = m + 1;
        }
        let ghost written = self@.sections;
        let mut m: usize = 0;
        while m < iat_slots.len()
            invariant
                m <= iat_slots.len(),
                slots == views(iat_slots@),
                self@ == (DocModel { sections: marked_modules(written, slots, m as nat), ..d }),
            decreases iat_slots.len() - m,
        {
            assert(slots[m as int] == iat_slots@[m as int]@);
            self.mark_slots(iat_slots[m].as_slice());
            m = m + 1;
        }
        assert(slots[0] == iat_slots@[0]@);
        let first_iat: Rva = iat_slots[0][0];
        proof {
            assert(first * psize <= u32::MAX && first <= u32::MAX) by (nonlinear_arith)
                requires
                    first * psize <= u32::MAX,
                    psize >= 4,
            ;
        }
        let iat_size: u32 = (first * psize) as u32;
        let _ = self.set_data_directory(
            DataDirectoryIndex::Import,
            Rva(rendered.dir_rva),
            rendered.size,
        );
        let _ = self.set_data_directory(DataDirectoryIndex::Iat, first_iat, iat_size);
        self.imports = clone_imports(descriptors);
        Ok(
            RebuiltImportTable {
                rva: Rva(base),
                size: rendered.size,
                iat_rva: first_iat,
                iat_size,
                thunk_values: rendered.thunk_values,
            },
        )
    }
}

/// Whether a table rendered for the end of the image fits below the top of the
/// address space.
pub open spec fn table_fits(d: DocModel, im: Seq<ImportDescriptorModel>) -> bool {
    &&& imports_placed(im, pointer_size(d.arch), table_base(d))
    &&& image_end(d.sections) + at_least_one(header_section_alignment(d.optional)) + import_blob(
        im,
        pointer_size(d.arch),
        table_base(d),
    ).len() <= u32::MAX
}

/// A table that fits is placed in a section of its own, above all others.
pub proof fn lemma_placed_table(d: DocModel, im: Seq<ImportDescriptorModel>)
    requires
        table_fits(d, im),
    ensures
        ({
            let ps = pointer_size(d.arch);
            let base = table_base(d);
            let blob = import_blob(im, ps, base);
            let n = d.sections.len() as int;
            let (after, r) = placed_table(d, im);
            &&& r == rendered_import(im, d.arch, base)
            &&& r is Ok
            &&& after.len() == n + 1
            &&& forall|j: int| 0 <= j < n ==> #[trigger] after[j] == d.sections[j]
            &&& forall|j: int| 0 <= j < n ==> section_end(#[trigger] after[j]) <= base
            &&& after[n].header.virtual_address.0 == base
            &&& after[n].data == blob
            &&& image_holds(after, base, blob)
        }),
{
    let ps = pointer_size(d.arch);
    let base = table_base(d);
    let align = header_section_alignment(d.optional);
    let blob = import_blob(im, ps, base);
    let new = allocated_section(d.sections, blob.len(), align);
    let grown = d.sections.push(new);
    let n = d.sections.len() as int;
    assert(blob.len() >= 20) by {
        reveal(import_blob);
    }
    lemma_placed_is_addressable(im, ps, base);
    align_up_is_least_multiple(image_end(d.sections), at_least_one(align));
    lemma_image_end(d.sections);
    lemma_len32(new);
    assert forall|j: int| 0 <= j < n implies section_end(#[trigger] grown[j]) <= base by {
        assert(grown[j] == d.sections[j]);
    }
    lemma_locate_is(grown, base, n);
    let after = image_write(grown, base, blob)->0;
    assert(after[n].data =~= blob);
    assert forall|j: int| 0 <= j < n implies section_end(#[trigger] after[j])
        <= after[n].header.virtual_address.0 by {
        assert(after[j] == grown[j]);
    }
    lemma_own_section_holds(after, n);
}

/// A rebuilt import table is read back from the image as the table it was
/// rebuilt from, as long as it fits below the top of the address space.
pub proof fn rebuilt_imports_read_back(d: DocModel, im: Seq<ImportDescriptorModel>)
    requires
        table_fits(d, im),
        plain_imports(im),
    ensures
        rebuilt_table(d, im).1 is Ok,
        imports_from(
            rebuilt_table(d, im).0.sections,
            table_base(d) as int,
            pointer_size(d.arch),
        ) == Some(im),
        rebuilt_table(d, im).0.imports == im,
{
    lemma_placed_table(d, im);
    imports_survive(placed_table(d, im).0, im, pointer_size(d.arch), table_base(d));
}

} // verus!
