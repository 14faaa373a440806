//! Raw ↔ VA conversion utilities.
//!
//! The document's strict `rva_to_raw`/`raw_to_rva` only accept RVAs inside a
//! section's *data*. The [`VaConverter`] here also maps the header region
//! (RVA < `size_of_headers` ↔ file offset 0) and handles dumps where a
//! section's raw size does not match its virtual size, by resolving each side
//! independently.

use crate::domain::document::{len32, DocModel, PeDocument};
use crate::domain::optional::{header_image_base, header_size_of_headers};
use crate::domain::section::SectionModel;
use crate::domain::types::{RawOffset, Rva};
use vstd::prelude::*;

verus! {

/// Converts between absolute virtual addresses, RVAs and raw file offsets for
/// one document.
#[derive(Debug)]
pub struct VaConverter {
    image_base: u64,
    size_of_headers: u32,
    /// `(virtual_address, virtual_size, raw_base, raw_size)` per section.
    sections: Vec<(Rva, u32, RawOffset, u32)>,
}

/// Where a section stands: its address, virtual size, file offset and raw size.
#[verifier::ext_equal]
pub struct Extent {
    pub va: u32,
    pub virtual_size: u32,
    pub raw: u32,
    pub raw_size: u32,
}

/// What a converter knows of its document.
#[verifier::ext_equal]
pub struct AddressMap {
    pub image_base: u64,
    pub size_of_headers: u32,
    pub extents: Seq<Extent>,
}

/// Where a section stands. One without a virtual size extends over its bytes.
pub open spec fn extent_of(s: SectionModel) -> Extent {
    Extent {
        va: s.header.virtual_address.0,
        virtual_size: if s.header.virtual_size != 0 {
            s.header.virtual_size
        } else {
            len32(s)
        },
        raw: s.header.pointer_to_raw_data.0,
        raw_size: s.header.size_of_raw_data,
    }
}

/// The address map of a document.
pub open spec fn map_of(d: DocModel) -> AddressMap {
    AddressMap {
        image_base: header_image_base(d.optional),
        size_of_headers: header_size_of_headers(d.optional),
        extents: Seq::new(d.sections.len(), |i: int| extent_of(d.sections[i])),
    }
}

impl Extent {
    /// Whether the virtual extent, held at the top of the address space, has `r`.
    pub open spec fn has_rva(self, r: u32) -> bool {
        self.va <= r < u32::MAX && r < self.va + self.virtual_size
    }

    /// Whether the raw extent, held at the top of the offset space, has `o`.
    pub open spec fn has_raw(self, o: u32) -> bool {
        self.raw <= o < u32::MAX && o < self.raw + self.raw_size
    }
}

/// The first extent that has the address `r`.
pub open spec fn extent_at_rva(e: Seq<Extent>, r: u32) -> Option<int>
    decreases e.len(),
{
    if e.len() == 0 {
        None
    } else {
        match extent_at_rva(e.drop_last(), r) {
            Some(i) => Some(i),
            None => if e.last().has_rva(r) {
                Some(e.len() - 1)
            } else {
                None
            },
        }
    }
}

/// The first extent that has the file offset `o`.
pub open spec fn extent_at_raw(e: Seq<Extent>, o: u32) -> Option<int>
    decreases e.len(),
{
    if e.len() == 0 {
        None
    } else {
        match extent_at_raw(e.drop_last(), o) {
            Some(i) => Some(i),
            None => if e.last().has_raw(o) {
                Some(e.len() - 1)
            } else {
                None
            },
        }
    }
}

impl AddressMap {
    /// The RVA of an absolute address.
    pub open spec fn rva_of_va(self, va: u64) -> Option<u32> {
        if self.image_base <= va <= self.image_base + u32::MAX {
            Some((va - self.image_base) as u32)
        } else {
            None
        }
    }

    /// The absolute address of an RVA, as a number that may be too large.
    pub open spec fn va_of_rva(self, r: u32) -> int {
        self.image_base + r
    }

    /// The file offset of an RVA, as a number that may be too large.
    pub open spec fn raw_of_rva(self, r: u32) -> Option<int> {
        if r < self.size_of_headers {
            Some(r as int)
        } else {
            match extent_at_rva(self.extents, r) {
                Some(i) => Some(self.extents[i].raw + (r - self.extents[i].va)),
                None => None,
            }
        }
    }

    /// The RVA of a file offset, as a number that may be too large.
    pub open spec fn rva_of_raw(self, o: u32) -> Option<int> {
        if o < self.size_of_headers {
            Some(o as int)
        } else {
            match extent_at_raw(self.extents, o) {
                Some(i) => Some(self.extents[i].va + (o - self.extents[i].raw)),
                None => None,
            }
        }
    }
}

proof fn lemma_rva_prefix(e: Seq<Extent>, r: u32, n: int)
    requires
        0 <= n <= e.len(),
        extent_at_rva(e.take(n), r) is Some,
    ensures
        extent_at_rva(e, r) == extent_at_rva(e.take(n), r),
    decreases e.len(),
{
    if n < e.len() {
        assert(e.drop_last().take(n) =~= e.take(n));
        lemma_rva_prefix(e.drop_last(), r, n);
    } else {
        assert(e.take(n) =~= e);
    }
}

proof fn lemma_raw_prefix(e: Seq<Extent>, o: u32, n: int)
    requires
        0 <= n <= e.len(),
        extent_at_raw(e.take(n), o) is Some,
    ensures
        extent_at_raw(e, o) == extent_at_raw(e.take(n), o),
    decreases e.len(),
{
    if n < e.len() {
        assert(e.drop_last().take(n) =~= e.take(n));
        lemma_raw_prefix(e.drop_last(), o, n);
    } else {
        assert(e.take(n) =~= e);
    }
}

proof fn lemma_extent_at_rva(e: Seq<Extent>, r: u32)
    ensures
        extent_at_rva(e, r) matches Some(i) ==> 0 <= i < e.len() && e[i].has_rva(r),
    decreases e.len(),
{
    if e.len() > 0 {
        lemma_extent_at_rva(e.drop_last(), r);
    }
}

proof fn lemma_extent_at_raw(e: Seq<Extent>, o: u32)
    ensures
        extent_at_raw(e, o) matches Some(i) ==> 0 <= i < e.len() && e[i].has_raw(o),
    decreases e.len(),
{
    if e.len() > 0 {
        lemma_extent_at_raw(e.drop_last(), o);
    }
}

proof fn lemma_extent_at_raw_is(e: Seq<Extent>, o: u32, i: int)
    requires
        0 <= i < e.len(),
        e[i].has_raw(o),
        forall|j: int| 0 <= j < i ==> !(#[trigger] e[j]).has_raw(o),
    ensures
        extent_at_raw(e, o) == Some(i),
    decreases e.len(),
{
    if i < e.len() - 1 {
        lemma_extent_at_raw_is(e.drop_last(), o, i);
    } else {
        lemma_extent_at_raw(e.drop_last(), o);
        if let Some(j) = extent_at_raw(e.drop_last(), o) {
            assert(e[j].has_raw(o));
        }
    }
}

impl View for VaConverter {
    type V = AddressMap;

    closed spec fn view(&self) -> AddressMap {
        AddressMap {
            image_base: self.image_base,
            size_of_headers: self.size_of_headers,
            extents: extents_of(self.sections@),
        }
    }
}

spec fn extents_of(s: Seq<(Rva, u32, RawOffset, u32)>) -> Seq<Extent> {
    Seq::new(
        s.len(),
        |i: int|
            Extent {
                va: s[i].0.0,
                virtual_size: s[i].1,
                raw: s[i].2.0,
                raw_size: s[i].3,
            },
    )
}

impl Clone for VaConverter {
    fn clone(&self) -> (r: VaConverter)
        ensures
            r@ == self@,
    {
        let mut sections: Vec<(Rva, u32, RawOffset, u32)> = Vec::new();
        let mut i: usize = 0;
        while i < self.sections.len()
            invariant
                i <= self.sections.len(),
                sections@ == self.sections@.take(i as int),
            decreases self.sections.len() - i,
        {
            sections.push(self.sections[i]);
            i = i + 1;
            assert(sections@ =~= self.sections@.take(i as int));
        }
        assert(sections@ =~= self.sections@);
        VaConverter {
            image_base: self.image_base,
            size_of_headers: self.size_of_headers,
            sections,
        }
    }
}

impl VaConverter {
    pub fn from_document(doc: &PeDocument) -> (r: Self)
        ensures
            r@ == map_of(doc@),
    {
        let mut sections: Vec<(Rva, u32, RawOffset, u32)> = Vec::new();
        let mut i: usize = 0;
        while i < doc.sections.len()
            invariant
                i <= doc.sections.len(),
                extents_of(sections@) == map_of(doc@).extents.take(i as int),
            decreases doc.sections.len() - i,
        {
            let s = &doc.sections[i];
            assert(doc@.sections[i as int] == s@);
            let vs: u32 = if s.header.virtual_size != 0 {
                s.header.virtual_size
            } else {
                s.data.len() as u32
            };
            let ghost before = sections@;
            sections.push(
                (
                    s.header.virtual_address,
                    vs,
                    s.header.pointer_to_raw_data,
                    s.header.size_of_raw_data,
                ),
            );
            i = i + 1;
            assert(extents_of(sections@) =~= extents_of(before).push(extent_of(s@)));
            assert(extents_of(sections@) =~= map_of(doc@).extents.take(i as int));
        }
        assert(map_of(doc@).extents.take(i as int) =~= map_of(doc@).extents);
        VaConverter {
            image_base: doc.optional.image_base(),
            size_of_headers: doc.optional.size_of_headers(),
            sections,
        }
    }

    /// The RVA of an absolute address.
    pub fn va_to_rva(&self, va: u64) -> (r: Option<Rva>)
        ensures
            r == match self@.rva_of_va(va) {
                Some(r) => Some(Rva(r)),
                None => None,
            },
    {
        if va < self.image_base {
            return None;
        }
        let r: u64 = va - self.image_base;
        if r > u32::MAX as u64 {
            return None;
        }
        Some(Rva(r as u32))
    }

    /// The absolute address of an RVA, which must fit.
    pub fn rva_to_va(&self, rva: Rva) -> (r: u64)
        requires
            self@.va_of_rva(rva.0) <= u64::MAX,
        ensures
            r == self@.va_of_rva(rva.0),
    {
        self.image_base + rva.get() as u64
    }

    /// The raw file offset of an RVA, as a number that need not fit 32 bits.
    pub fn offset_of_rva(&self, rva: Rva) -> (r: Option<u64>)
        ensures
            match self@.raw_of_rva(rva.0) {
                Some(o) => r is Some && r->0 == o,
                None => r is None,
            },
    {
        let r: u32 = rva.get();
        if r < self.size_of_headers {
            return Some(r as u64);
        }
        let ghost e = self@.extents;
        let mut i: usize = 0;
        while i < self.sections.len()
            invariant
                i <= self.sections.len(),
                r == rva.0,
                r >= self.size_of_headers,
                e == self@.extents,
                extent_at_rva(e.take(i as int), r) is None,
            decreases self.sections.len() - i,
        {
            let (va, vs, raw_base, _rs) = self.sections[i];
            proof {
                assert(e.take(i + 1).drop_last() =~= e.take(i as int));
                assert(e.take(i + 1).last() == e[i as int]);
            }
            if r >= va.get() && r < va.get().saturating_add(vs) {
                proof {
                    lemma_rva_prefix(e, r, i + 1);
                }
                return Some(raw_base.get() as u64 + (r - va.get()) as u64);
            }
            i = i + 1;
        }
        assert(e.take(i as int) =~= e);
        None
    }

    /// The RVA of a raw file offset, as a number that need not fit 32 bits.
    pub fn address_of_raw(&self, raw: RawOffset) -> (r: Option<u64>)
        ensures
            match self@.rva_of_raw(raw.0) {
                Some(a) => r is Some && r->0 == a,
                None => r is None,
            },
    {
        let o: u32 = raw.get();
        if o < self.size_of_headers {
            return Some(o as u64);
        }
        let ghost e = self@.extents;
        let mut i: usize = 0;
        while i < self.sections.len()
            invariant
                i <= self.sections.len(),
                o == raw.0,
                o >= self.size_of_headers,
                e == self@.extents,
                extent_at_raw(e.take(i as int), o) is None,
            decreases self.sections.len() - i,
        {
            let (va, _vs, raw_base, rs) = self.sections[i];
            proof {
                assert(e.take(i + 1).drop_last() =~= e.take(i as int));
                assert(e.take(i + 1).last() == e[i as int]);
            }
            if o >= raw_base.get() && o < raw_base.get().saturating_add(rs) {
                proof {
                    lemma_raw_prefix(e, o, i + 1);
                }
                return Some(va.get() as u64 + (o - raw_base.get()) as u64);
            }
            i = i + 1;
        }
        assert(e.take(i as int) =~= e);
        None
    }

    /// The address the image is loaded at.
    pub fn image_base(&self) -> (r: u64)
        ensures
            r == self@.image_base,
    {
        self.image_base
    }

    /// Map an RVA to a raw file offset. The header region maps 1:1; otherwise a
    /// section's virtual extent (virtual size) is used. The offset must fit.
    pub fn rva_to_raw(&self, rva: Rva) -> (r: Option<RawOffset>)
        requires
            self@.raw_of_rva(rva.0) matches Some(o) ==> o <= u32::MAX,
        ensures
            match self@.raw_of_rva(rva.0) {
                Some(o) => r is Some && (r->0).0 == o,
                None => r is None,
            },
    {
        match self.offset_of_rva(rva) {
            Some(o) => Some(RawOffset(o as u32)),
            None => None,
        }
    }

    /// Map a raw file offset back to an RVA (using a section's raw extent). The
    /// address must fit.
    pub fn raw_to_rva(&self, raw: RawOffset) -> (r: Option<Rva>)
        requires
            self@.rva_of_raw(raw.0) matches Some(a) ==> a <= u32::MAX,
        ensures
            match self@.rva_of_raw(raw.0) {
                Some(a) => r is Some && (r->0).0 == a,
                None => r is None,
            },
    {
        match self.address_of_raw(raw) {
            Some(a) => Some(Rva(a as u32)),
            None => None,
        }
    }

    /// The raw file offset of an absolute address.
    pub fn va_to_raw(&self, va: u64) -> (r: Option<RawOffset>)
        requires
            self@.rva_of_va(va) matches Some(a) ==> (self@.raw_of_rva(a) matches Some(o) ==> o
                <= u32::MAX),
        ensures
            match self@.rva_of_va(va) {
                Some(a) => match self@.raw_of_rva(a) {
                    Some(o) => r is Some && (r->0).0 == o,
                    None => r is None,
                },
                None => r is None,
            },
    {
        match self.va_to_rva(va) {
            Some(rva) => self.rva_to_raw(rva),
            None => None,
        }
    }

    /// The absolute address of a raw file offset.
    pub fn raw_to_va(&self, raw: RawOffset) -> (r: Option<u64>)
        requires
            self@.rva_of_raw(raw.0) matches Some(a) ==> a <= u32::MAX && self@.va_of_rva(a as u32)
                <= u64::MAX,
        ensures
            match self@.rva_of_raw(raw.0) {
                Some(a) => r is Some && r->0 == self@.va_of_rva(a as u32),
                None => r is None,
            },
    {
        match self.raw_to_rva(raw) {
            Some(rva) => Some(self.rva_to_va(rva)),
            None => None,
        }
    }
}

/// An RVA survives the way to its absolute address and back.
pub proof fn rva_va_roundtrip(m: AddressMap, r: u32)
    requires
        m.va_of_rva(r) <= u64::MAX,
    ensures
        m.rva_of_va(m.va_of_rva(r) as u64) == Some(r),
{
}

/// An absolute address inside the image survives the way to its RVA and back.
pub proof fn va_rva_roundtrip(m: AddressMap, va: u64)
    requires
        m.rva_of_va(va) is Some,
    ensures
        m.va_of_rva(m.rva_of_va(va)->0) == va,
{
}

/// The header region maps one to one in both directions.
pub proof fn headers_map_one_to_one(m: AddressMap, r: u32)
    requires
        r < m.size_of_headers,
    ensures
        m.raw_of_rva(r) == Some(r as int),
        m.rva_of_raw(r) == Some(r as int),
{
}

/// An RVA whose file offset lies in the raw extent of its section survives the
/// way to that offset and back, when neither the headers nor the raw extent of
/// an earlier section claim the offset.
pub proof fn rva_raw_roundtrip(m: AddressMap, r: u32, i: int)
    requires
        m.size_of_headers <= r,
        extent_at_rva(m.extents, r) == Some(i),
        ({
            let o = m.extents[i].raw + (r - m.extents[i].va);
            &&& m.size_of_headers <= o < u32::MAX
            &&& r - m.extents[i].va < m.extents[i].raw_size
            &&& forall|j: int| 0 <= j < i ==> !(#[trigger] m.extents[j]).has_raw(o as u32)
        }),
    ensures
        m.raw_of_rva(r) is Some,
        m.rva_of_raw(m.raw_of_rva(r)->0 as u32) == Some(r as int),
{
    lemma_extent_at_rva(m.extents, r);
    let o = (m.extents[i].raw + (r - m.extents[i].va)) as u32;
    lemma_extent_at_raw_is(m.extents, o, i);
}

proof fn lemma_extent_at_rva_is(e: Seq<Extent>, r: u32, i: int)
    ensures
        (forall|j: int| 0 <= j < e.len() ==> !(#[trigger] e[j]).has_rva(r)) ==> extent_at_rva(e, r)
            is None,
        0 <= i < e.len() && e[i].has_rva(r) && (forall|j: int|
            0 <= j < i ==> !(#[trigger] e[j]).has_rva(r)) ==> extent_at_rva(e, r) == Some(i),
    decreases e.len(),
{
    if e.len() > 0 {
        let d = e.drop_last();
        lemma_extent_at_rva_is(d, r, i);
        assert forall|j: int| 0 <= j < d.len() implies d[j] == e[j] by {}
        lemma_extent_at_rva(d, r);
    }
}

proof fn lemma_no_extent_at_raw(e: Seq<Extent>, o: u32)
    requires
        forall|j: int| 0 <= j < e.len() ==> !(#[trigger] e[j]).has_raw(o),
    ensures
        extent_at_raw(e, o) is None,
{
    lemma_extent_at_raw(e, o);
}

/// Whether the memory of a section takes up the address `r`: its virtual size,
/// or its bytes where none is stated.
pub open spec fn in_memory(s: SectionModel, r: u32) -> bool {
    let size = if s.header.virtual_size != 0 {
        s.header.virtual_size as int
    } else {
        s.data.len() as int
    };
    s.header.virtual_address.0 <= r < s.header.virtual_address.0 + size && r < u32::MAX
}

/// Whether a section takes up the offset `o` of the file.
pub open spec fn in_file(s: SectionModel, o: u32) -> bool {
    s.header.pointer_to_raw_data.0 <= o < s.header.pointer_to_raw_data.0
        + s.header.size_of_raw_data && o < u32::MAX
}

/// An address goes with the offset that is as far from the beginning of its
/// section in the file as it is from the section's address: in the headers the
/// two are the same, and elsewhere the first section that takes it up counts.
pub proof fn addresses_keep_their_distance(d: DocModel, r: u32, i: int)
    requires
        forall|j: int| 0 <= j < d.sections.len() ==> (#[trigger] d.sections[j]).data.len()
            <= u32::MAX,
    ensures
        ({
            let m = map_of(d);
            let s = d.sections[i].header;
            let head = header_size_of_headers(d.optional);
            &&& m.va_of_rva(r) == header_image_base(d.optional) + r
            &&& r < head ==> m.raw_of_rva(r) == Some(r as int) && m.rva_of_raw(r) == Some(r as int)
            &&& r >= head && (forall|j: int|
                0 <= j < d.sections.len() ==> !in_memory(#[trigger] d.sections[j], r))
                ==> m.raw_of_rva(r) is None
            &&& r >= head && 0 <= i < d.sections.len() && in_memory(d.sections[i], r) && (forall|
                j: int,
            |
                0 <= j < i ==> !in_memory(#[trigger] d.sections[j], r)) ==> m.raw_of_rva(r) == Some(
                s.pointer_to_raw_data.0 + (r - s.virtual_address.0),
            )
            &&& r >= head && (forall|j: int|
                0 <= j < d.sections.len() ==> !in_file(#[trigger] d.sections[j], r))
                ==> m.rva_of_raw(r) is None
            &&& r >= head && 0 <= i < d.sections.len() && in_file(d.sections[i], r) && (forall|
                j: int,
            |
                0 <= j < i ==> !in_file(#[trigger] d.sections[j], r)) ==> m.rva_of_raw(r) == Some(
                s.virtual_address.0 + (r - s.pointer_to_raw_data.0),
            )
        }),
{
    let e = map_of(d).extents;
    assert forall|j: int| 0 <= j < e.len() implies (#[trigger] e[j]).has_rva(r) == in_memory(
        d.sections[j],
        r,
    ) && e[j].has_raw(r) == in_file(d.sections[j], r) by {
        crate::domain::document::lemma_len32(d.sections[j]);
    }
    lemma_extent_at_rva_is(e, r, i);
    if forall|j: int| 0 <= j < d.sections.len() ==> !in_memory(#[trigger] d.sections[j], r) {
        assert forall|j: int| 0 <= j < e.len() implies !(#[trigger] e[j]).has_rva(r) by {
            assert(!in_memory(d.sections[j], r));
        }
    }
    if forall|j: int| 0 <= j < d.sections.len() ==> !in_file(#[trigger] d.sections[j], r) {
        assert forall|j: int| 0 <= j < e.len() implies !(#[trigger] e[j]).has_raw(r) by {
            assert(!in_file(d.sections[j], r));
        }
        lemma_no_extent_at_raw(e, r);
    }
    if 0 <= i < d.sections.len() {
        if in_memory(d.sections[i], r) && (forall|j: int|
            0 <= j < i ==> !in_memory(#[trigger] d.sections[j], r)) {
            assert(e[i].has_rva(r));
            assert forall|j: int| 0 <= j < i implies !(#[trigger] e[j]).has_rva(r) by {
                assert(!in_memory(d.sections[j], r));
            }
        }
        if in_file(d.sections[i], r) && (forall|j: int|
            0 <= j < i ==> !in_file(#[trigger] d.sections[j], r)) {
            assert(e[i].has_raw(r));
            assert forall|j: int| 0 <= j < i implies !(#[trigger] e[j]).has_raw(r) by {
                assert(!in_file(d.sections[j], r));
            }
            lemma_extent_at_raw_is(e, r, i);
        }
    }
}

} // verus!
