//! Section table.

use crate::domain::types::{RawOffset, Rva};
use crate::text::{text_of_utf8, utf8_text};
use vstd::prelude::*;

verus! {

pub const IMAGE_SCN_CNT_CODE: u32 = 0x0000_0020;

pub const IMAGE_SCN_CNT_INITIALIZED_DATA: u32 = 0x0000_0040;

pub const IMAGE_SCN_CNT_UNINITIALIZED_DATA: u32 = 0x0000_0080;

pub const IMAGE_SCN_MEM_DISCARDABLE: u32 = 0x0200_0000;

pub const IMAGE_SCN_MEM_SHARED: u32 = 0x1000_0000;

pub const IMAGE_SCN_MEM_EXECUTE: u32 = 0x2000_0000;

pub const IMAGE_SCN_MEM_READ: u32 = 0x4000_0000;

pub const IMAGE_SCN_MEM_WRITE: u32 = 0x8000_0000;

/// Index of a section in a document's section table, as returned by the editor.
pub type SectionId = usize;

/// `IMAGE_SECTION_HEADER`.
#[derive(Debug, Clone, Copy, PartialEq, Eq)]
pub struct SectionHeader {
    pub name: [u8; 8],
    pub virtual_size: u32,
    pub virtual_address: Rva,
    pub size_of_raw_data: u32,
    pub pointer_to_raw_data: RawOffset,
    pub characteristics: u32,
}

impl Default for SectionHeader {
    fn default() -> (r: SectionHeader)
        ensures
            r == (SectionHeader {
                name: [0, 0, 0, 0, 0, 0, 0, 0],
                virtual_size: 0,
                virtual_address: Rva(0),
                size_of_raw_data: 0,
                pointer_to_raw_data: RawOffset(0),
                characteristics: 0,
            }),
    {
        SectionHeader {
            name: [0, 0, 0, 0, 0, 0, 0, 0],
            virtual_size: 0,
            virtual_address: Rva(0),
            size_of_raw_data: 0,
            pointer_to_raw_data: RawOffset(0),
            characteristics: 0,
        }
    }
}

/// A section: its header plus the in-memory image of its bytes.
#[derive(Debug, PartialEq, Eq)]
pub struct Section {
    pub header: SectionHeader,
    pub data: Vec<u8>,
}

/// A section's header and bytes.
#[verifier::ext_equal]
pub struct SectionModel {
    pub header: SectionHeader,
    pub data: Seq<u8>,
}

impl View for Section {
    type V = SectionModel;

    open spec fn view(&self) -> SectionModel {
        SectionModel { header: self.header, data: self.data@ }
    }
}

impl Clone for Section {
    fn clone(&self) -> (r: Section)
        ensures
            r@ == self@,
    {
        Section { header: self.header, data: self.data.clone() }
    }
}

/// The bytes before the first NUL, or all of them.
pub open spec fn before_nul(b: Seq<u8>) -> Seq<u8>
    decreases b.len(),
{
    if b.len() == 0 || b[0] == 0 {
        Seq::empty()
    } else {
        seq![b[0]] + before_nul(b.drop_first())
    }
}

pub proof fn lemma_before_nul(b: Seq<u8>, n: int)
    requires
        0 <= n <= b.len(),
        forall|i: int| 0 <= i < n ==> b[i] != 0,
        n < b.len() ==> b[n] == 0,
    ensures
        before_nul(b) == b.take(n),
    decreases n,
{
    if n > 0 {
        lemma_before_nul(b.drop_first(), n - 1);
        assert(b.take(n) =~= seq![b[0]] + b.drop_first().take(n - 1));
    } else {
        assert(before_nul(b) =~= b.take(n));
    }
}

impl Section {
    /// Section name as a string (NUL-trimmed).
    pub fn name_str(&self) -> (r: String)
        ensures
            r@ == utf8_text(before_nul(self.header.name@)),
    {
        let mut out: Vec<u8> = Vec::new();
        let mut i: usize = 0;
        while i < 8 && self.header.name[i] != 0
            invariant
                i <= 8,
                out@ == self.header.name@.take(i as int),
                forall|j: int| 0 <= j < i ==> self.header.name@[j] != 0,
            decreases 8 - i,
        {
            out.push(self.header.name[i]);
            i = i + 1;
            assert(out@ =~= self.header.name@.take(i as int));
        }
        proof {
            lemma_before_nul(self.header.name@, i as int);
        }
        text_of_utf8(&out)
    }
}

} // verus!
