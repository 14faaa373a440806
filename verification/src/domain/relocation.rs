//! Base relocation table (`IMAGE_BASE_RELOCATION`).

use crate::domain::import::{lemma_views_push, views};
use crate::domain::types::Rva;
use vstd::prelude::*;

verus! {

/// `IMAGE_REL_BASED_*` relocation types.
pub const IMAGE_REL_BASED_ABSOLUTE: u8 = 0;

pub const IMAGE_REL_BASED_HIGH: u8 = 1;

pub const IMAGE_REL_BASED_LOW: u8 = 2;

pub const IMAGE_REL_BASED_HIGHLOW: u8 = 3;

pub const IMAGE_REL_BASED_HIGHADJ: u8 = 4;

pub const IMAGE_REL_BASED_MIPS_JMPADDR: u8 = 5;

pub const IMAGE_REL_BASED_ARM_MOV32: u8 = 5;

pub const IMAGE_REL_BASED_RISCV_HIGH20: u8 = 5;

pub const IMAGE_REL_BASED_DIR64: u8 = 10;

/// One 16-bit relocation entry.
#[derive(Debug, Clone, Copy, PartialEq, Eq, Structural)]
pub struct RelocationEntry {
    pub reloc_type: u8,
    pub offset: u16,
}

/// One relocation block: all entries for a single page.
#[derive(Debug, PartialEq, Eq)]
pub struct RelocationBlock {
    pub page_rva: Rva,
    pub entries: Vec<RelocationEntry>,
}

/// A relocation block's page and entries.
#[verifier::ext_equal]
pub struct RelocationBlockModel {
    pub page_rva: Rva,
    pub entries: Seq<RelocationEntry>,
}

impl View for RelocationBlock {
    type V = RelocationBlockModel;

    open spec fn view(&self) -> RelocationBlockModel {
        RelocationBlockModel { page_rva: self.page_rva, entries: self.entries@ }
    }
}

impl Clone for RelocationBlock {
    fn clone(&self) -> (r: RelocationBlock)
        ensures
            r@ == self@,
    {
        let entries = self.entries.clone();
        assert(entries@ =~= self.entries@);
        RelocationBlock { page_rva: self.page_rva, entries }
    }
}

impl RelocationBlock {
    /// Whether both blocks are the same.
    pub fn same(&self, other: &RelocationBlock) -> (r: bool)
        ensures
            r == (self@ == other@),
    {
        if self.page_rva != other.page_rva || self.entries.len() != other.entries.len() {
            return false;
        }
        let mut i: usize = 0;
        while i < self.entries.len()
            invariant
                i <= self.entries.len(),
                self.entries.len() == other.entries.len(),
                forall|j: int| 0 <= j < i ==> self.entries@[j] == other.entries@[j],
            decreases self.entries.len() - i,
        {
            if self.entries[i] != other.entries[i] {
                return false;
            }
            i = i + 1;
        }
        assert(self.entries@ =~= other.entries@);
        true
    }
}

/// The full base relocation table.
#[derive(Debug, PartialEq, Eq)]
pub struct RelocationTable {
    pub blocks: Vec<RelocationBlock>,
}

impl View for RelocationTable {
    type V = Seq<RelocationBlockModel>;

    open spec fn view(&self) -> Seq<RelocationBlockModel> {
        views(self.blocks@)
    }
}

impl Default for RelocationTable {
    fn default() -> (r: RelocationTable)
        ensures
            r@ == Seq::<RelocationBlockModel>::empty(),
    {
        let r = RelocationTable { blocks: Vec::new() };
        assert(r@ =~= Seq::empty());
        r
    }
}

impl Clone for RelocationTable {
    fn clone(&self) -> (r: RelocationTable)
        ensures
            r@ == self@,
    {
        let mut blocks: Vec<RelocationBlock> = Vec::new();
        let mut i: usize = 0;
        while i < self.blocks.len()
            invariant
                i <= self.blocks.len(),
                views(blocks@) == views(self.blocks@).take(i as int),
            decreases self.blocks.len() - i,
        {
            let b = self.blocks[i].clone();
            proof {
                lemma_views_push(blocks@, b);
            }
            blocks.push(b);
            i = i + 1;
            assert(views(blocks@) =~= views(self.blocks@).take(i as int));
        }
        assert(views(self.blocks@).take(self.blocks.len() as int) =~= views(self.blocks@));
        RelocationTable { blocks }
    }
}

impl RelocationTable {
    /// Whether both tables are the same.
    pub fn same(&self, other: &RelocationTable) -> (r: bool)
        ensures
            r == (self@ == other@),
    {
        if self.blocks.len() != other.blocks.len() {
            assert(self@.len() != other@.len());
            return false;
        }
        let mut i: usize = 0;
        while i < self.blocks.len()
            invariant
                i <= self.blocks.len(),
                self.blocks.len() == other.blocks.len(),
                forall|j: int| 0 <= j < i ==> self.blocks@[j]@ == other.blocks@[j]@,
            decreases self.blocks.len() - i,
        {
            if !self.blocks[i].same(&other.blocks[i]) {
                assert(self@[i as int] != other@[i as int]);
                return false;
            }
            i = i + 1;
        }
        assert(self@ =~= other@);
        true
    }
}

} // verus!
