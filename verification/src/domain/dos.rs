//! DOS MZ header.

use vstd::prelude::*;

verus! {

/// The DOS "MZ" magic value.
pub const DOS_MAGIC: u16 = 0x5a4d;

/// The DOS header at the start of every PE file.
#[derive(Debug, PartialEq, Eq)]
pub struct DosHeader {
    pub e_magic: u16,
    pub e_cblp: u16,
    pub e_cp: u16,
    pub e_crlc: u16,
    pub e_cparhdr: u16,
    pub e_minalloc: u16,
    pub e_maxalloc: u16,
    pub e_ss: u16,
    pub e_sp: u16,
    pub e_csum: u16,
    pub e_ip: u16,
    pub e_cs: u16,
    pub e_lfarlc: u16,
    pub e_ovno: u16,
    pub e_res: [u16; 4],
    pub e_oemid: u16,
    pub e_oeminfo: u16,
    pub e_res2: [u16; 10],
    /// Offset of the "PE\0\0" signature (`e_lfanew`).
    pub e_lfanew: u32,
    /// The DOS stub: bytes between the fixed 64-byte header and `e_lfanew`.
    pub stub: Vec<u8>,
}

/// A DOS header as its thirty 16-bit words in file order, the signature offset
/// and the stub.
#[verifier::ext_equal]
pub struct DosModel {
    pub words: Seq<u16>,
    pub e_lfanew: u32,
    pub stub: Seq<u8>,
}

impl View for DosHeader {
    type V = DosModel;

    open spec fn view(&self) -> DosModel {
        DosModel {
            words: seq![
                self.e_magic,
                self.e_cblp,
                self.e_cp,
                self.e_crlc,
                self.e_cparhdr,
                self.e_minalloc,
                self.e_maxalloc,
                self.e_ss,
                self.e_sp,
                self.e_csum,
                self.e_ip,
                self.e_cs,
                self.e_lfarlc,
                self.e_ovno,
                self.e_res[0],
                self.e_res[1],
                self.e_res[2],
                self.e_res[3],
                self.e_oemid,
                self.e_oeminfo,
                self.e_res2[0],
                self.e_res2[1],
                self.e_res2[2],
                self.e_res2[3],
                self.e_res2[4],
                self.e_res2[5],
                self.e_res2[6],
                self.e_res2[7],
                self.e_res2[8],
                self.e_res2[9],
            ],
            e_lfanew: self.e_lfanew,
            stub: self.stub@,
        }
    }
}

impl Clone for DosHeader {
    fn clone(&self) -> (r: DosHeader)
        ensures
            r@ == self@,
    {
        DosHeader {
            e_magic: self.e_magic,
            e_cblp: self.e_cblp,
            e_cp: self.e_cp,
            e_crlc: self.e_crlc,
            e_cparhdr: self.e_cparhdr,
            e_minalloc: self.e_minalloc,
            e_maxalloc: self.e_maxalloc,
            e_ss: self.e_ss,
            e_sp: self.e_sp,
            e_csum: self.e_csum,
            e_ip: self.e_ip,
            e_cs: self.e_cs,
            e_lfarlc: self.e_lfarlc,
            e_ovno: self.e_ovno,
            e_res: self.e_res,
            e_oemid: self.e_oemid,
            e_oeminfo: self.e_oeminfo,
            e_res2: self.e_res2,
            e_lfanew: self.e_lfanew,
            stub: self.stub.clone(),
        }
    }
}

impl Default for DosHeader {
    fn default() -> (r: DosHeader)
        ensures
            r@.words == Seq::new(30, |i: int| 0u16),
            r@.e_lfanew == 0,
            r@.stub.len() == 0,
    {
        DosHeader {
            e_magic: 0,
            e_cblp: 0,
            e_cp: 0,
            e_crlc: 0,
            e_cparhdr: 0,
            e_minalloc: 0,
            e_maxalloc: 0,
            e_ss: 0,
            e_sp: 0,
            e_csum: 0,
            e_ip: 0,
            e_cs: 0,
            e_lfarlc: 0,
            e_ovno: 0,
            e_res: [0, 0, 0, 0],
            e_oemid: 0,
            e_oeminfo: 0,
            e_res2: [0, 0, 0, 0, 0, 0, 0, 0, 0, 0],
            e_lfanew: 0,
            stub: Vec::new(),
        }
    }
}

impl DosHeader {
    pub fn is_mz(&self) -> (r: bool)
        ensures
            r == (self.e_magic == DOS_MAGIC),
    {
        self.e_magic == DOS_MAGIC
    }
}

/// The words of a DOS header are its fields in the order of the file.
pub proof fn dos_words_are_the_fields(h: DosHeader, k: int)
    ensures
        h@.words.len() == 30,
        h@.words[0] == h.e_magic,
        h@.words[1] == h.e_cblp,
        h@.words[2] == h.e_cp,
        h@.words[3] == h.e_crlc,
        h@.words[4] == h.e_cparhdr,
        h@.words[5] == h.e_minalloc,
        h@.words[6] == h.e_maxalloc,
        h@.words[7] == h.e_ss,
        h@.words[8] == h.e_sp,
        h@.words[9] == h.e_csum,
        h@.words[10] == h.e_ip,
        h@.words[11] == h.e_cs,
        h@.words[12] == h.e_lfarlc,
        h@.words[13] == h.e_ovno,
        0 <= k < 4 ==> h@.words[14 + k] == h.e_res[k],
        h@.words[18] == h.e_oemid,
        h@.words[19] == h.e_oeminfo,
        0 <= k < 10 ==> h@.words[20 + k] == h.e_res2[k],
{
}

} // verus!
