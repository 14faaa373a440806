//! Resource directory tree (`IMAGE_RESOURCE_DIRECTORY`).

use crate::domain::types::Rva;
use vstd::prelude::*;

verus! {

/// The name of a resource: an integer ID or a named string.
#[derive(Debug, PartialEq, Eq)]
pub enum ResourceName {
    Id(u32),
    Named(String),
}

/// A resource name with its text as a character sequence.
pub enum ResourceNameModel {
    Id(u32),
    Named(Seq<char>),
}

impl View for ResourceName {
    type V = ResourceNameModel;

    open spec fn view(&self) -> ResourceNameModel {
        match self {
            ResourceName::Id(id) => ResourceNameModel::Id(*id),
            ResourceName::Named(s) => ResourceNameModel::Named(s@),
        }
    }
}

impl Clone for ResourceName {
    fn clone(&self) -> (r: ResourceName)
        ensures
            r@ == self@,
    {
        match self {
            ResourceName::Id(id) => ResourceName::Id(*id),
            ResourceName::Named(s) => ResourceName::Named(s.clone()),
        }
    }
}

impl ResourceName {
    /// Whether both are the same name.
    pub fn same(&self, other: &ResourceName) -> (r: bool)
        ensures
            r == (self@ == other@),
    {
        match self {
            ResourceName::Id(a) => match other {
                ResourceName::Id(b) => *a == *b,
                ResourceName::Named(_) => false,
            },
            ResourceName::Named(a) => match other {
                ResourceName::Id(_) => false,
                ResourceName::Named(b) => *a == *b,
            },
        }
    }
}

/// A leaf node: where the actual resource bytes live.
#[derive(Debug, Clone, Copy, PartialEq, Eq, Structural)]
pub struct ResourceDataEntry {
    pub rva: Rva,
    pub size: u32,
    pub code_page: u32,
}

/// What a resource directory entry points at.
#[derive(Debug, PartialEq, Eq)]
pub enum ResourceEntryData {
    Directory(ResourceDirectory),
    Leaf(ResourceDataEntry),
}

/// One entry of a resource directory.
#[derive(Debug, PartialEq, Eq)]
pub struct ResourceEntry {
    pub name: ResourceName,
    pub data: ResourceEntryData,
}

/// A node of the resource tree.
#[derive(Debug, PartialEq, Eq)]
pub struct ResourceDirectory {
    pub entries: Vec<ResourceEntry>,
}

/// What a resource entry points at: a directory, as the sequence of its
/// entries, or a leaf.
pub enum ResourceDataModel {
    Directory(Seq<ResourceEntryModel>),
    Leaf(ResourceDataEntry),
}

/// A resource entry: its name and what it points at.
pub struct ResourceEntryModel {
    pub name: ResourceNameModel,
    pub data: ResourceDataModel,
}

/// The entries of a directory, each with its whole subtree.
pub open spec fn directory_model(d: ResourceDirectory) -> Seq<ResourceEntryModel>
    decreases d,
{
    Seq::new(
        d.entries@.len(),
        |i: int|
            if 0 <= i < d.entries@.len() {
                entry_model(d.entries@[i])
            } else {
                arbitrary()
            },
    )
}

/// One entry with its whole subtree.
pub open spec fn entry_model(e: ResourceEntry) -> ResourceEntryModel
    decreases e,
{
    ResourceEntryModel { name: e.name@, data: data_model(e.data) }
}

/// What an entry points at, with its whole subtree.
pub open spec fn data_model(d: ResourceEntryData) -> ResourceDataModel
    decreases d,
{
    match d {
        ResourceEntryData::Directory(sub) => ResourceDataModel::Directory(directory_model(sub)),
        ResourceEntryData::Leaf(leaf) => ResourceDataModel::Leaf(leaf),
    }
}

impl View for ResourceDirectory {
    type V = Seq<ResourceEntryModel>;

    open spec fn view(&self) -> Seq<ResourceEntryModel> {
        directory_model(*self)
    }
}

impl View for ResourceEntry {
    type V = ResourceEntryModel;

    open spec fn view(&self) -> ResourceEntryModel {
        entry_model(*self)
    }
}

impl View for ResourceEntryData {
    type V = ResourceDataModel;

    open spec fn view(&self) -> ResourceDataModel {
        data_model(*self)
    }
}

/// A directory's model has one item per entry: that entry's model.
pub proof fn lemma_directory_model(d: ResourceDirectory)
    ensures
        d@.len() == d.entries@.len(),
        forall|i: int| 0 <= i < d.entries@.len() ==> #[trigger] d@[i] == d.entries@[i]@,
{
}

impl Default for ResourceDirectory {
    fn default() -> (r: ResourceDirectory)
        ensures
            r@ == Seq::<ResourceEntryModel>::empty(),
            r.entries@.len() == 0,
    {
        let r = ResourceDirectory { entries: Vec::new() };
        assert(r@ =~= Seq::empty());
        r
    }
}

/// A copy of a directory and everything under it.
pub fn clone_directory(d: &ResourceDirectory) -> (r: ResourceDirectory)
    ensures
        r@ == d@,
    decreases d,
{
    let mut entries: Vec<ResourceEntry> = Vec::new();
    let mut i: usize = 0;
    while i < d.entries.len()
        invariant
            i <= d.entries.len(),
            entries@.len() == i,
            forall|j: int| 0 <= j < i ==> (#[trigger] entries@[j])@ == d.entries@[j]@,
        decreases d.entries.len() - i,
    {
        let e: &ResourceEntry = &d.entries[i];
        let data = match &e.data {
            ResourceEntryData::Directory(sub) => {
                assert(decreases_to!(d => d.entries));
                assert(decreases_to!(d.entries => d.entries@[i as int]));
                ResourceEntryData::Directory(clone_directory(sub))
            },
            ResourceEntryData::Leaf(leaf) => ResourceEntryData::Leaf(*leaf),
        };
        entries.push(ResourceEntry { name: e.name.clone(), data });
        i = i + 1;
    }
    let r = ResourceDirectory { entries };
    assert(r@ =~= d@);
    r
}

impl Clone for ResourceDirectory {
    fn clone(&self) -> (r: ResourceDirectory)
        ensures
            r@ == self@,
    {
        clone_directory(self)
    }
}

impl Clone for ResourceEntryData {
    fn clone(&self) -> (r: ResourceEntryData)
        ensures
            r@ == self@,
    {
        match self {
            ResourceEntryData::Directory(sub) => ResourceEntryData::Directory(clone_directory(sub)),
            ResourceEntryData::Leaf(leaf) => ResourceEntryData::Leaf(*leaf),
        }
    }
}

impl Clone for ResourceEntry {
    fn clone(&self) -> (r: ResourceEntry)
        ensures
            r@ == self@,
    {
        ResourceEntry { name: self.name.clone(), data: self.data.clone() }
    }
}

/// Whether two trees are the same.
pub fn same_directory(a: &ResourceDirectory, b: &ResourceDirectory) -> (r: bool)
    ensures
        r == (a@ == b@),
    decreases a,
{
    if a.entries.len() != b.entries.len() {
        assert(a@.len() != b@.len());
        return false;
    }
    let mut i: usize = 0;
    while i < a.entries.len()
        invariant
            i <= a.entries.len(),
            a.entries.len() == b.entries.len(),
            forall|j: int| 0 <= j < i ==> (#[trigger] a.entries@[j])@ == b.entries@[j]@,
        decreases a.entries.len() - i,
    {
        let x: &ResourceEntry = &a.entries[i];
        let y: &ResourceEntry = &b.entries[i];
        let same_data = match &x.data {
            ResourceEntryData::Directory(dx) => match &y.data {
                ResourceEntryData::Directory(dy) => {
                    assert(decreases_to!(a => a.entries));
                    assert(decreases_to!(a.entries => a.entries@[i as int]));
                    same_directory(dx, dy)
                },
                ResourceEntryData::Leaf(_) => false,
            },
            ResourceEntryData::Leaf(lx) => match &y.data {
                ResourceEntryData::Directory(_) => false,
                ResourceEntryData::Leaf(ly) => *lx == *ly,
            },
        };
        if !x.name.same(&y.name) || !same_data {
            assert(a@[i as int] != b@[i as int]);
            return false;
        }
        i = i + 1;
    }
    assert(a@ =~= b@);
    true
}

/// Standard resource type IDs.
pub const RT_CURSOR: u32 = 1;

pub const RT_BITMAP: u32 = 2;

pub const RT_ICON: u32 = 3;

pub const RT_MENU: u32 = 4;

pub const RT_DIALOG: u32 = 5;

pub const RT_STRING: u32 = 6;

pub const RT_FONTDIR: u32 = 7;

pub const RT_FONT: u32 = 8;

pub const RT_ACCELERATOR: u32 = 9;

pub const RT_RCDATA: u32 = 10;

pub const RT_MESSAGETABLE: u32 = 11;

pub const RT_GROUP_CURSOR: u32 = 12;

pub const RT_GROUP_ICON: u32 = 14;

pub const RT_VERSION: u32 = 16;

pub const RT_MANIFEST: u32 = 24;

} // verus!
