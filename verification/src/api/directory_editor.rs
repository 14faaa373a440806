//! Editing of the resource / relocation / TLS directories.
//!
//! Edits are applied to the document's rich forms; the writer re-renders the
//! affected data directory on save (see [`crate::io::pe::writer`]), so
//! mutations here persist through `serialize`/`save`.

use crate::domain::document::{
    allocated_section, image_write, next_section_va, opt_view, write_error, DocModel, Document,
    PeDocument,
};
use crate::domain::import::{lemma_views_push, views};
use crate::domain::load_config::LoadConfigDirectory;
use crate::domain::relocation::{
    RelocationBlock, RelocationBlockModel, RelocationEntry, RelocationTable,
};
use crate::domain::resource::{
    lemma_directory_model, ResourceDataEntry, ResourceDataModel, ResourceDirectory, ResourceEntry,
    ResourceEntryData, ResourceEntryModel, ResourceName, ResourceNameModel,
};
use crate::domain::tls::TlsDirectory;
use crate::domain::types::Rva;
use crate::error::{invalid_argument, not_found, PeError, PeErrorModel, PeResult};
use crate::text::{debug_quoted, dec_text, push_dec, quoted};
use vstd::prelude::*;
use vstd::string::*;

verus! {

/// The relocation blocks after appending one.
pub open spec fn blocks_with(
    blocks: Option<Seq<RelocationBlockModel>>,
    b: RelocationBlockModel,
) -> Seq<RelocationBlockModel> {
    match blocks {
        Some(blocks) => blocks.push(b),
        None => seq![b],
    }
}

/// The relocation blocks after removing number `index`.
pub open spec fn blocks_without(blocks: Option<Seq<RelocationBlockModel>>, index: nat) -> Result<
    Seq<RelocationBlockModel>,
    PeErrorModel,
> {
    match blocks {
        None => Err(PeErrorModel::NotFound("no relocation table"@)),
        Some(blocks) => if index >= blocks.len() {
            Err(
                PeErrorModel::InvalidArgument(
                    "remove_relocation_block: no block #"@ + dec_text(index),
                ),
            )
        } else {
            Ok(blocks.remove(index as int))
        },
    }
}

/// The first entry of that name.
pub open spec fn entry_at(
    entries: Seq<ResourceEntryModel>,
    name: ResourceNameModel,
) -> Option<int>
    decreases entries.len(),
{
    if entries.len() == 0 {
        None
    } else {
        match entry_at(entries.drop_last(), name) {
            Some(i) => Some(i),
            None => if entries.last().name == name {
                Some(entries.len() - 1)
            } else {
                None
            },
        }
    }
}

/// The entries of the subdirectory of that name; none when it does not exist
/// yet.
pub open spec fn subdirectory(entries: Seq<ResourceEntryModel>, name: ResourceNameModel) -> Result<
    Seq<ResourceEntryModel>,
    PeErrorModel,
> {
    match entry_at(entries, name) {
        None => Ok(Seq::empty()),
        Some(i) => match entries[i].data {
            ResourceDataModel::Directory(d) => Ok(d),
            ResourceDataModel::Leaf(_) => Err(
                PeErrorModel::InvalidArgument("resource name already a leaf"@),
            ),
        },
    }
}

/// The entries with what stands under a name replaced, or added at the end.
pub open spec fn with_entry(
    entries: Seq<ResourceEntryModel>,
    name: ResourceNameModel,
    data: ResourceDataModel,
) -> Seq<ResourceEntryModel> {
    match entry_at(entries, name) {
        Some(i) => entries.update(i, ResourceEntryModel { name, data }),
        None => entries.push(ResourceEntryModel { name, data }),
    }
}

/// The entries with a leaf set.
pub open spec fn with_leaf(
    entries: Seq<ResourceEntryModel>,
    name: ResourceNameModel,
    leaf: ResourceDataEntry,
) -> Result<Seq<ResourceEntryModel>, PeErrorModel> {
    if entry_at(entries, name) matches Some(i) && entries[i].data is Directory {
        Err(PeErrorModel::InvalidArgument("resource name already a directory"@))
    } else {
        Ok(with_entry(entries, name, ResourceDataModel::Leaf(leaf)))
    }
}

/// A resource tree with the leaf of a type, name and language set.
pub open spec fn with_resource(
    root: Seq<ResourceEntryModel>,
    type_id: u32,
    name: ResourceNameModel,
    lang: u16,
    leaf: ResourceDataEntry,
) -> Result<Seq<ResourceEntryModel>, PeErrorModel> {
    let kind = ResourceNameModel::Id(type_id);
    match subdirectory(root, kind) {
        Err(e) => Err(e),
        Ok(type_dir) => match subdirectory(type_dir, name) {
            Err(e) => Err(e),
            Ok(name_dir) => match with_leaf(name_dir, ResourceNameModel::Id(lang as u32), leaf) {
                Err(e) => Err(e),
                Ok(leaves) => Ok(
                    with_entry(
                        root,
                        kind,
                        ResourceDataModel::Directory(
                            with_entry(type_dir, name, ResourceDataModel::Directory(leaves)),
                        ),
                    ),
                ),
            },
        },
    }
}

/// A tree, empty when there is none.
pub open spec fn tree_or_empty(r: Option<Seq<ResourceEntryModel>>) -> Seq<ResourceEntryModel> {
    match r {
        Some(entries) => entries,
        None => Seq::empty(),
    }
}

/// What adding a resource leaves and returns.
pub open spec fn added_resource(
    d: DocModel,
    type_id: u32,
    name: ResourceNameModel,
    lang: u16,
    data: Seq<u8>,
) -> (DocModel, Result<Rva, PeErrorModel>) {
    if data.len() == 0 {
        (d, Err(PeErrorModel::InvalidArgument("add_resource_data: empty data"@)))
    } else {
        let rva = next_section_va(d.sections, 4);
        let grown = d.sections.push(allocated_section(d.sections, data.len(), 4));
        match image_write(grown, rva, data) {
            None => (
                DocModel { sections: grown, ..d },
                Err(write_error(grown, rva, data.len())),
            ),
            Some(sections) => {
                let root = tree_or_empty(d.resources);
                let leaf = ResourceDataEntry {
                    rva: Rva(rva),
                    size: data.len() as u32,
                    code_page: 0,
                };
                match with_resource(root, type_id, name, lang, leaf) {
                    Err(e) => (DocModel { sections, resources: Some(root), ..d }, Err(e)),
                    Ok(tree) => (
                        DocModel { sections, resources: Some(tree), ..d },
                        Ok(Rva(rva)),
                    ),
                }
            },
        }
    }
}

/// The entries of all other names.
pub open spec fn entries_without(
    entries: Seq<ResourceEntryModel>,
    name: ResourceNameModel,
) -> Seq<ResourceEntryModel>
    decreases entries.len(),
{
    if entries.len() == 0 {
        Seq::empty()
    } else {
        let before = entries_without(entries.drop_last(), name);
        if entries.last().name == name {
            before
        } else {
            before.push(entries.last())
        }
    }
}

/// A resource name as its debug text.
pub open spec fn name_debug(name: ResourceNameModel) -> Seq<char> {
    match name {
        ResourceNameModel::Id(id) => "Id("@ + dec_text(id as nat) + ")"@,
        ResourceNameModel::Named(s) => "Named("@ + debug_quoted(s) + ")"@,
    }
}

/// The tree after removing every resource of a name under a type.
pub open spec fn without_resource(
    resources: Option<Seq<ResourceEntryModel>>,
    type_id: u32,
    name: ResourceNameModel,
) -> Result<Seq<ResourceEntryModel>, PeErrorModel> {
    match resources {
        None => Err(PeErrorModel::NotFound("no resource table"@)),
        Some(root) => match entry_at(root, ResourceNameModel::Id(type_id)) {
            None => Err(
                PeErrorModel::NotFound(
                    "resource type "@ + dec_text(type_id as nat) + " not found"@,
                ),
            ),
            Some(i) => match root[i].data {
                ResourceDataModel::Leaf(_) => Err(
                    PeErrorModel::InvalidArgument("resource type entry is a leaf"@),
                ),
                ResourceDataModel::Directory(entries) => {
                    let kept = entries_without(entries, name);
                    if entry_at(entries, name) is None {
                        Err(
                            PeErrorModel::NotFound(
                                "resource "@ + name_debug(name) + " not found under type "@
                                    + dec_text(type_id as nat),
                            ),
                        )
                    } else if kept.len() == 0 {
                        Ok(root.remove(i))
                    } else {
                        Ok(
                            root.update(
                                i,
                                ResourceEntryModel {
                                    name: root[i].name,
                                    data: ResourceDataModel::Directory(kept),
                                },
                            ),
                        )
                    }
                },
            },
        },
    }
}

/// Operations on the rich resource / relocation / TLS directories.
pub trait DirectoryEditor: Document {
    fn set_tls(&mut self, tls: Option<TlsDirectory>)
        ensures
            final(self).model() == (DocModel { tls, ..old(self).model() }),
    ;

    fn tls_mut(&mut self) -> (r: Option<&mut TlsDirectory>)
        ensures
            match r {
                Some(t) => old(self).model().tls == Some(*t) && final(self).model() == (DocModel {
                    tls: Some(*final(t)),
                    ..old(self).model()
                }),
                None => old(self).model().tls is None && final(self).model()
                    == old(self).model(),
            },
    ;

    fn set_relocations(&mut self, table: Option<RelocationTable>)
        ensures
            final(self).model() == (DocModel { relocations: opt_view(table), ..old(self).model() }),
    ;

    fn relocations_mut(&mut self) -> (r: Option<&mut RelocationTable>)
        ensures
            match r {
                Some(t) => old(self).model().relocations == Some(t@) && final(self).model() == (
                DocModel { relocations: Some(final(t)@), ..old(self).model() }),
                None => old(self).model().relocations is None && final(self).model()
                    == old(self).model(),
            },
    ;

    fn add_relocation_block(&mut self, page_rva: Rva, entries: Vec<RelocationEntry>) -> (r:
        PeResult<()>)
        ensures
            r is Ok,
            final(self).model() == (DocModel {
                relocations: Some(
                    blocks_with(
                        old(self).model().relocations,
                        RelocationBlockModel { page_rva, entries: entries@ },
                    ),
                ),
                ..old(self).model()
            }),
    ;

    fn remove_relocation_block(&mut self, index: usize) -> (r: PeResult<()>)
        ensures
            match blocks_without(old(self).model().relocations, index as nat) {
                Ok(blocks) => r is Ok && final(self).model() == (DocModel {
                    relocations: Some(blocks),
                    ..old(self).model()
                }),
                Err(e) => r is Err && r->Err_0@ == e && final(self).model()
                    == old(self).model(),
            },
    ;

    fn set_resources(&mut self, root: Option<ResourceDirectory>)
        ensures
            final(self).model() == (DocModel { resources: opt_view(root), ..old(self).model() }),
    ;

    fn resources_mut(&mut self) -> (r: Option<&mut ResourceDirectory>)
        ensures
            match r {
                Some(t) => old(self).model().resources == Some(t@) && final(self).model() == (
                DocModel { resources: Some(final(t)@), ..old(self).model() }),
                None => old(self).model().resources is None && final(self).model()
                    == old(self).model(),
            },
    ;

    /// Add (or replace) a resource of `type_id` / `name` / `lang` with `data`.
    /// The content is written into the image immediately; returns its RVA.
    fn add_resource_data(
        &mut self,
        type_id: u32,
        name: ResourceName,
        lang: u16,
        data: Vec<u8>,
    ) -> (r: PeResult<Rva>)
        ensures
            final(self).model() == added_resource(
                old(self).model(),
                type_id,
                name@,
                lang,
                data@,
            ).0,
            match added_resource(old(self).model(), type_id, name@, lang, data@).1 {
                Ok(rva) => r is Ok && r->Ok_0 == rva,
                Err(e) => r is Err && r->Err_0@ == e,
            },
    ;

    /// Remove every resource of `name` under type `type_id` (and the type
    /// itself once it is empty).
    fn remove_resource(&mut self, type_id: u32, name: &ResourceName) -> (r: PeResult<()>)
        ensures
            match without_resource(old(self).model().resources, type_id, name@) {
                Ok(tree) => r is Ok && final(self).model() == (DocModel {
                    resources: Some(tree),
                    ..old(self).model()
                }),
                Err(e) => r is Err && r->Err_0@ == e && final(self).model()
                    == old(self).model(),
            },
    ;

    fn set_load_config(&mut self, lc: Option<LoadConfigDirectory>)
        ensures
            final(self).model() == (DocModel { load_config: lc, ..old(self).model() }),
    ;

    fn load_config_mut(&mut self) -> (r: Option<&mut LoadConfigDirectory>)
        ensures
            match r {
                Some(t) => old(self).model().load_config == Some(*t) && final(self).model() == (
                DocModel { load_config: Some(*final(t)), ..old(self).model() }),
                None => old(self).model().load_config is None && final(self).model()
                    == old(self).model(),
            },
    ;
}

impl DirectoryEditor for PeDocument {
    fn set_tls(&mut self, tls: Option<TlsDirectory>) {
        self.tls = tls;
    }

    fn tls_mut(&mut self) -> (r: Option<&mut TlsDirectory>) {
        self.tls.as_mut()
    }

    fn set_relocations(&mut self, table: Option<RelocationTable>) {
        self.relocations = table;
    }

    fn relocations_mut(&mut self) -> (r: Option<&mut RelocationTable>) {
        self.relocations.as_mut()
    }

    fn add_relocation_block(&mut self, page_rva: Rva, entries: Vec<RelocationEntry>) -> (r:
        PeResult<()>) {
        let mut table: RelocationTable = match self.relocations.take() {
            Some(t) => t,
            None => RelocationTable::default(),
        };
        let b = RelocationBlock { page_rva, entries };
        proof {
            lemma_views_push(table.blocks@, b);
        }
        table.blocks.push(b);
        assert(table@ =~= blocks_with(old(self)@.relocations, b@));
        self.relocations = Some(table);
        Ok(())
    }

    fn remove_relocation_block(&mut self, index: usize) -> (r: PeResult<()>) {
        match &mut self.relocations {
            None => Err(not_found("no relocation table")),
            Some(table) => {
                if index >= table.blocks.len() {
                    let mut m: String = "remove_relocation_block: no block #".to_owned();
                    push_dec(&mut m, index as u64);
                    return Err(PeError::InvalidArgument(m));
                }
                let ghost before = table.blocks@;
                table.blocks.remove(index);
                assert(views(table.blocks@) =~= views(before).remove(index as int));
                Ok(())
            },
        }
    }

    fn set_resources(&mut self, root: Option<ResourceDirectory>) {
        self.resources = root;
    }

    fn resources_mut(&mut self) -> (r: Option<&mut ResourceDirectory>) {
        self.resources.as_mut()
    }

    fn add_resource_data(
        &mut self,
        type_id: u32,
        name: ResourceName,
        lang: u16,
        data: Vec<u8>,
    ) -> (r: PeResult<Rva>) {
        if data.len() == 0 {
            return Err(invalid_argument("add_resource_data: empty data"));
        }
        let rva: Rva = match self.allocate(data.len(), 4) {
            Ok(rva) => rva,
            Err(e) => {
                return Err(e);
            },
        };
        match self.write(rva, data.as_slice()) {
            Ok(_) => {},
            Err(e) => {
                return Err(e);
            },
        }
        let mut root: ResourceDirectory = match self.resources.take() {
            Some(r) => r,
            None => ResourceDirectory::default(),
        };
        let leaf = ResourceDataEntry { rva, size: data.len() as u32, code_page: 0 };
        let r = put_resource(&mut root, type_id, name, lang, leaf);
        self.resources = Some(root);
        match r {
            Ok(_) => Ok(rva),
            Err(e) => Err(e),
        }
    }

    fn remove_resource(&mut self, type_id: u32, name: &ResourceName) -> (r: PeResult<()>) {
        match &mut self.resources {
            None => Err(not_found("no resource table")),
            Some(root) => drop_resource(root, type_id, name),
        }
    }

    fn set_load_config(&mut self, lc: Option<LoadConfigDirectory>) {
        self.load_config = lc;
    }

    fn load_config_mut(&mut self) -> (r: Option<&mut LoadConfigDirectory>) {
        self.load_config.as_mut()
    }
}

proof fn lemma_entry_prefix(entries: Seq<ResourceEntryModel>, name: ResourceNameModel, n: int)
    requires
        0 <= n <= entries.len(),
        entry_at(entries.take(n), name) is Some,
    ensures
        entry_at(entries, name) == entry_at(entries.take(n), name),
    decreases entries.len(),
{
    if n < entries.len() {
        assert(entries.drop_last().take(n) =~= entries.take(n));
        lemma_entry_prefix(entries.drop_last(), name, n);
    } else {
        assert(entries.take(n) =~= entries);
    }
}

proof fn lemma_entry_at(entries: Seq<ResourceEntryModel>, name: ResourceNameModel)
    ensures
        entry_at(entries, name) matches Some(i) ==> 0 <= i < entries.len() && entries[i].name
            == name,
    decreases entries.len(),
{
    if entries.len() > 0 {
        lemma_entry_at(entries.drop_last(), name);
    }
}

/// The first entry of that name.
fn find_entry(dir: &ResourceDirectory, name: &ResourceName) -> (r: Option<usize>)
    ensures
        match r {
            Some(i) => entry_at(dir@, name@) == Some(i as int) && i < dir.entries@.len()
                && dir@[i as int] == dir.entries@[i as int]@ && dir@[i as int].name == name@,
            None => entry_at(dir@, name@) is None,
        },
        dir@.len() == dir.entries@.len(),
{
    let ghost all = dir@;
    let mut i: usize = 0;
    proof {
        lemma_directory_model(*dir);
    }
    while i < dir.entries.len()
        invariant
            i <= dir.entries.len(),
            all == dir@,
            all.len() == dir.entries@.len(),
            forall|j: int| 0 <= j < dir.entries@.len() ==> #[trigger] all[j] == dir.entries@[j]@,
            entry_at(all.take(i as int), name@) is None,
        decreases dir.entries.len() - i,
    {
        proof {
            assert(all.take(i + 1).drop_last() =~= all.take(i as int));
            assert(all.take(i + 1).last() == all[i as int]);
        }
        if dir.entries[i].name.same(name) {
            proof {
                lemma_entry_prefix(all, name@, i + 1);
            }
            return Some(i);
        }
        i = i + 1;
    }
    assert(all.take(i as int) =~= all);
    None
}

/// Find the subdirectory named `name`, creating it (with an empty directory)
/// if missing. Errors if the name is already a leaf.
fn ensure_subdir(dir: &mut ResourceDirectory, name: ResourceName) -> (r: PeResult<
    &mut ResourceDirectory,
>)
    ensures
        match r {
            Ok(d) => subdirectory(old(dir)@, name@) == Ok::<_, PeErrorModel>(d@) && final(dir)@
                == with_entry(old(dir)@, name@, ResourceDataModel::Directory(final(d)@)),
            Err(e) => subdirectory(old(dir)@, name@) == Err::<Seq<ResourceEntryModel>, _>(e@)
                && final(dir)@ == old(dir)@,
        },
{
    let ghost all = dir@;
    let ghost wanted = name@;
    proof {
        lemma_entry_at(all, wanted);
    }
    let idx: usize = match find_entry(dir, &name) {
        Some(i) => i,
        None => {
            let e = ResourceEntry {
                name,
                data: ResourceEntryData::Directory(ResourceDirectory::default()),
            };
            dir.entries.push(e);
            dir.entries.len() - 1
        },
    };
    proof {
        lemma_directory_model(*old(dir));
        lemma_directory_model(*dir);
        assert(dir@[idx as int] == dir.entries@[idx as int]@);
        assert(dir.entries@[idx as int].name@ == wanted);
        assert forall|j: int| 0 <= j < all.len() implies #[trigger] dir@[j] == all[j] by {
            assert(dir.entries@[j] == old(dir).entries@[j]);
        }
    }
    match &mut dir.entries[idx].data {
        ResourceEntryData::Directory(d) => Ok(d),
        ResourceEntryData::Leaf(_) => Err(invalid_argument("resource name already a leaf")),
    }
}

/// Set the leaf entry named `name`, replacing an existing leaf or adding a new
/// entry.
fn set_leaf(dir: &mut ResourceDirectory, name: ResourceName, leaf: ResourceDataEntry) -> (r:
    PeResult<()>)
    ensures
        match with_leaf(old(dir)@, name@, leaf) {
            Ok(entries) => r is Ok && final(dir)@ == entries,
            Err(e) => r is Err && r->Err_0@ == e && final(dir)@ == old(dir)@,
        },
{
    let ghost all = dir@;
    let ghost wanted = name@;
    proof {
        lemma_entry_at(all, wanted);
        lemma_directory_model(*old(dir));
    }
    match find_entry(dir, &name) {
        Some(i) => {
            let is_leaf = match &dir.entries[i].data {
                ResourceEntryData::Leaf(_) => true,
                ResourceEntryData::Directory(_) => false,
            };
            if !is_leaf {
                return Err(invalid_argument("resource name already a directory"));
            }
            dir.entries[i].data = ResourceEntryData::Leaf(leaf);
            proof {
                lemma_directory_model(*dir);
                assert(dir@ =~= with_entry(all, wanted, ResourceDataModel::Leaf(leaf)));
            }
            Ok(())
        },
        None => {
            let e = ResourceEntry { name, data: ResourceEntryData::Leaf(leaf) };
            dir.entries.push(e);
            proof {
                lemma_directory_model(*dir);
                assert(dir@ =~= with_entry(all, wanted, ResourceDataModel::Leaf(leaf)));
            }
            Ok(())
        },
    }
}

proof fn lemma_rewrite_is_identity(
    entries: Seq<ResourceEntryModel>,
    name: ResourceNameModel,
    data: ResourceDataModel,
)
    requires
        entry_at(entries, name) matches Some(i) && entries[i].data == data,
    ensures
        with_entry(entries, name, data) == entries,
{
    lemma_entry_at(entries, name);
    assert(with_entry(entries, name, data) =~= entries);
}

/// Set the leaf of a type, name and language.
fn put_resource(
    root: &mut ResourceDirectory,
    type_id: u32,
    name: ResourceName,
    lang: u16,
    leaf: ResourceDataEntry,
) -> (r: PeResult<()>)
    ensures
        match with_resource(old(root)@, type_id, name@, lang, leaf) {
            Ok(entries) => r is Ok && final(root)@ == entries,
            Err(e) => r is Err && r->Err_0@ == e && final(root)@ == old(root)@,
        },
{
    let ghost tree = root@;
    let ghost kind = ResourceNameModel::Id(type_id);
    let ghost named = name@;
    let type_dir = match ensure_subdir(root, ResourceName::Id(type_id)) {
        Ok(d) => d,
        Err(e) => {
            return Err(e);
        },
    };
    let ghost types = type_dir@;
    let name_dir = match ensure_subdir(type_dir, name) {
        Ok(d) => d,
        Err(e) => {
            proof {
                lemma_entry_at(types, named);
                if entry_at(tree, kind) is Some {
                    lemma_rewrite_is_identity(tree, kind, ResourceDataModel::Directory(types));
                }
            }
            return Err(e);
        },
    };
    let ghost names = name_dir@;
    proof {
        lemma_entry_at(names, ResourceNameModel::Id(lang as u32));
        lemma_entry_at(types, named);
        if with_leaf(names, ResourceNameModel::Id(lang as u32), leaf) is Err {
            lemma_rewrite_is_identity(types, named, ResourceDataModel::Directory(names));
            lemma_rewrite_is_identity(tree, kind, ResourceDataModel::Directory(types));
        }
    }
    set_leaf(name_dir, ResourceName::Id(lang as u32), leaf)
}

/// Removing a name that no entry has leaves the entries as they are; no entry
/// keeps a removed name.
pub proof fn removed_entry_is_gone(entries: Seq<ResourceEntryModel>, name: ResourceNameModel)
    ensures
        entry_at(entries_without(entries, name), name) is None,
        entry_at(entries, name) is None ==> entries_without(entries, name) == entries,
        entry_at(entries, name) is Some ==> entries_without(entries, name).len() < entries.len(),
        entries_without(entries, name).len() <= entries.len(),
    decreases entries.len(),
{
    if entries.len() > 0 {
        removed_entry_is_gone(entries.drop_last(), name);
        let before = entries_without(entries.drop_last(), name);
        if entries.last().name != name {
            assert(before.push(entries.last()).drop_last() =~= before);
            if entry_at(entries, name) is None {
                assert(entries.drop_last().push(entries.last()) =~= entries);
            }
        }
    }
}

/// Drop every entry of that name.
fn drop_entries(dir: &mut ResourceDirectory, name: &ResourceName)
    ensures
        final(dir)@ == entries_without(old(dir)@, name@),
        final(dir)@.len() == final(dir).entries@.len(),
{
    let ghost all = dir@;
    let ghost mut k: int = 0;
    let mut i: usize = 0;
    proof {
        lemma_directory_model(*dir);
        assert(all.take(0) =~= Seq::empty());
        assert(all.skip(0) =~= all);
    }
    while i < dir.entries.len()
        invariant
            0 <= k <= all.len(),
            dir@.len() == dir.entries@.len(),
            i == entries_without(all.take(k), name@).len(),
            dir@ == entries_without(all.take(k), name@) + all.skip(k),
        decreases dir.entries.len() - i,
    {
        proof {
            lemma_directory_model(*dir);
            assert(all.take(k + 1).drop_last() =~= all.take(k));
            assert(all.take(k + 1).last() == all[k]);
            assert(dir@[i as int] == all[k]);
        }
        let ghost before = *dir;
        if dir.entries[i].name.same(name) {
            dir.entries.remove(i);
            proof {
                lemma_directory_model(*dir);
                assert forall|j: int| 0 <= j < dir.entries@.len() implies #[trigger] dir@[j]
                    == before@.remove(i as int)[j] by {
                    assert(dir.entries@[j] == before.entries@.remove(i as int)[j]);
                }
                assert(dir@ =~= before@.remove(i as int));
                assert(before@.remove(i as int) =~= entries_without(all.take(k + 1), name@)
                    + all.skip(k + 1));
            }
        } else {
            assert(before@ =~= entries_without(all.take(k + 1), name@) + all.skip(k + 1));
            i = i + 1;
        }
        proof {
            k = k + 1;
        }
    }
    proof {
        assert(all.skip(k).len() == 0);
        assert(all.take(k) =~= all);
        assert(dir@ =~= entries_without(all, name@));
    }
}

/// Remove every resource of `name` under a type.
fn drop_resource(root: &mut ResourceDirectory, type_id: u32, name: &ResourceName) -> (r: PeResult<
    (),
>)
    ensures
        match without_resource(Some(old(root)@), type_id, name@) {
            Ok(entries) => r is Ok && final(root)@ == entries,
            Err(e) => r is Err && r->Err_0@ == e && final(root)@ == old(root)@,
        },
{
    let ghost tree = root@;
    let kind = ResourceName::Id(type_id);
    let i: usize = match find_entry(root, &kind) {
        Some(i) => i,
        None => {
            let mut m: String = "resource type ".to_owned();
            push_dec(&mut m, type_id as u64);
            m.append(" not found");
            return Err(PeError::NotFound(m));
        },
    };
    proof {
        lemma_directory_model(*root);
    }
    match &root.entries[i].data {
        ResourceEntryData::Leaf(_) => {
            return Err(invalid_argument("resource type entry is a leaf"));
        },
        ResourceEntryData::Directory(d) => {
            proof {
                removed_entry_is_gone(d@, name@);
            }
            if find_entry(d, name).is_none() {
                let mut m: String = "resource ".to_owned();
                m.append(name.debug_text().as_str());
                m.append(" not found under type ");
                push_dec(&mut m, type_id as u64);
                return Err(PeError::NotFound(m));
            }
        },
    }
    let mut empty = false;
    let ghost entries = tree[i as int].data->Directory_0;
    if let ResourceEntryData::Directory(d) = &mut root.entries[i].data {
        drop_entries(d, name);
        empty = d.entries.len() == 0;
    }
    proof {
        lemma_directory_model(*root);
        assert(root@ =~= tree.update(
            i as int,
            ResourceEntryModel {
                name: tree[i as int].name,
                data: ResourceDataModel::Directory(entries_without(entries, name@)),
            },
        ));
    }
    if empty {
        let ghost before = *root;
        root.entries.remove(i);
        proof {
            lemma_directory_model(*root);
            assert forall|j: int| 0 <= j < root.entries@.len() implies #[trigger] root@[j]
                == tree.remove(i as int)[j] by {
                assert(root.entries@[j] == before.entries@.remove(i as int)[j]);
            }
            assert(root@ =~= tree.remove(i as int));
        }
    }
    Ok(())
}

impl ResourceName {
    /// The name as its debug text.
    pub fn debug_text(&self) -> (r: String)
        ensures
            r@ == name_debug(self@),
    {
        match self {
            ResourceName::Id(id) => {
                let mut m: String = "Id(".to_owned();
                push_dec(&mut m, *id as u64);
                m.append(")");
                m
            },
            ResourceName::Named(s) => {
                let mut m: String = "Named(".to_owned();
                m.append(quoted(s.as_str()).as_str());
                m.append(")");
                m
            },
        }
    }
}

/// After a resource was added, its leaf is found under its type, name and
/// language.
pub proof fn added_resource_is_found(
    root: Seq<ResourceEntryModel>,
    type_id: u32,
    name: ResourceNameModel,
    lang: u16,
    leaf: ResourceDataEntry,
)
    requires
        with_resource(root, type_id, name, lang, leaf) is Ok,
    ensures
        found_leaf(with_resource(root, type_id, name, lang, leaf)->Ok_0, type_id, name, lang)
            == Some(leaf),
{
    let kind = ResourceNameModel::Id(type_id);
    let types = subdirectory(root, kind)->Ok_0;
    let names = subdirectory(types, name)->Ok_0;
    let lang_name = ResourceNameModel::Id(lang as u32);
    let leaves = with_leaf(names, lang_name, leaf)->Ok_0;
    let new_types = with_entry(types, name, ResourceDataModel::Directory(leaves));
    lemma_entry_set(names, lang_name, ResourceDataModel::Leaf(leaf));
    lemma_entry_set(types, name, ResourceDataModel::Directory(leaves));
    lemma_entry_set(root, kind, ResourceDataModel::Directory(new_types));
}

/// The leaf of a type, name and language.
pub open spec fn found_leaf(
    root: Seq<ResourceEntryModel>,
    type_id: u32,
    name: ResourceNameModel,
    lang: u16,
) -> Option<ResourceDataEntry> {
    match under(root, ResourceNameModel::Id(type_id)) {
        Some(ResourceDataModel::Directory(types)) => match under(types, name) {
            Some(ResourceDataModel::Directory(names)) => match under(
                names,
                ResourceNameModel::Id(lang as u32),
            ) {
                Some(ResourceDataModel::Leaf(leaf)) => Some(leaf),
                _ => None,
            },
            _ => None,
        },
        _ => None,
    }
}

/// What stands under a name.
pub open spec fn under(entries: Seq<ResourceEntryModel>, name: ResourceNameModel) -> Option<
    ResourceDataModel,
> {
    match entry_at(entries, name) {
        Some(i) => Some(entries[i].data),
        None => None,
    }
}

proof fn lemma_entry_set(
    entries: Seq<ResourceEntryModel>,
    name: ResourceNameModel,
    data: ResourceDataModel,
)
    ensures
        under(with_entry(entries, name, data), name) == Some(data),
{
    lemma_entry_at(entries, name);
    let after = with_entry(entries, name, data);
    match entry_at(entries, name) {
        Some(i) => {
            lemma_entry_names(entries, after, name);
        },
        None => {
            assert(after.drop_last() =~= entries);
        },
    }
}

proof fn lemma_entry_names(
    a: Seq<ResourceEntryModel>,
    b: Seq<ResourceEntryModel>,
    name: ResourceNameModel,
)
    requires
        a.len() == b.len(),
        forall|i: int| 0 <= i < a.len() ==> (#[trigger] a[i]).name == b[i].name,
    ensures
        entry_at(a, name) == entry_at(b, name),
    decreases a.len(),
{
    if a.len() > 0 {
        assert forall|i: int| 0 <= i < a.drop_last().len() implies (
        #[trigger] a.drop_last()[i]).name == b.drop_last()[i].name by {
            assert(a[i].name == b[i].name);
        }
        lemma_entry_names(a.drop_last(), b.drop_last(), name);
        assert(a[a.len() - 1].name == b[a.len() - 1].name);
    }
}

} // verus!
