//! Section table rebuilding and merging.
//!
//! [`rebuild_section_table`] makes a document's headers internally consistent:
//! raw sizes/pointers are recomputed from each section's data, virtual
//! addresses re-aligned, and `size_of_headers` / `size_of_image` fixed.
//! [`merge_sections`] combines a contiguous run of sections into one.

use crate::bytes::{join, lemma_join_part, lemma_join_push, low, low32, push_bytes};
use crate::domain::document::{
    at_least_one, image_end, image_end_is_reached, image_end_of, image_size_holds_all_sections,
    len32, lemma_len32, section_end, DocModel, PeDocument,
};
use crate::domain::import::views;
use crate::domain::optional::{
    header_file_alignment, header_section_alignment, header_size_of_headers, header_size_of_image,
    with_size_of_headers, with_size_of_image, OptionalHeader,
};
use crate::domain::section::{Section, SectionHeader, SectionModel};
use crate::domain::types::{align_up, align_up_is_least_multiple, aligned, RawOffset, Rva};
use crate::error::{failure, invalid_argument, PeError, PeErrorModel, PeResult};
use crate::io::pe::writer::{head_end, headers_size};
use vstd::prelude::*;
use vstd::string::*;

verus! {

/// The raw size of a section's bytes, rounded up to the file alignment.
pub open spec fn raw_size(d: DocModel, s: SectionModel) -> u32 {
    aligned(len32(s), at_least_one(header_file_alignment(d.optional)))
}

/// Where the bytes of section `n` go, as a number that may be too large.
pub open spec fn raw_start(d: DocModel, n: nat) -> int
    decreases n,
{
    if n == 0 {
        headers_size(d, d.sections.len()) as int
    } else {
        raw_start(d, (n - 1) as nat) + raw_size(d, d.sections[n - 1])
    }
}

/// Section `i` of a document with its header laid out anew.
pub open spec fn relaid_section(d: DocModel, i: int) -> SectionModel {
    let s = d.sections[i];
    SectionModel {
        header: SectionHeader {
            virtual_address: Rva(
                aligned(
                    s.header.virtual_address.0,
                    at_least_one(header_section_alignment(d.optional)),
                ),
            ),
            virtual_size: len32(s),
            size_of_raw_data: raw_size(d, s),
            pointer_to_raw_data: RawOffset(raw_start(d, i as nat) as u32),
            ..s.header
        },
        data: s.data,
    }
}

/// The sections with the first `n` laid out anew.
pub open spec fn relaid_sections(d: DocModel, n: nat) -> Seq<SectionModel> {
    Seq::new(
        d.sections.len(),
        |i: int|
            if i < n {
                relaid_section(d, i)
            } else {
                d.sections[i]
            },
    )
}

/// The first of the first `n` sections past whose bytes the file would end
/// beyond 4 GiB.
pub open spec fn overflow_at(d: DocModel, n: nat) -> Option<nat>
    decreases n,
{
    if n == 0 {
        None
    } else {
        match overflow_at(d, (n - 1) as nat) {
            Some(k) => Some(k),
            None => if raw_start(d, n) > u32::MAX {
                Some((n - 1) as nat)
            } else {
                None
            },
        }
    }
}

/// What rebuilding the section table leaves, and why it stopped, if it did.
pub open spec fn rebuilt_sections(d: DocModel) -> (DocModel, Option<PeErrorModel>) {
    let optional = with_size_of_headers(d.optional, headers_size(d, d.sections.len()));
    match overflow_at(d, d.sections.len()) {
        Some(k) => (
            DocModel { optional, sections: relaid_sections(d, k + 1), ..d },
            Some(PeErrorModel::InvalidArgument("section table size overflow"@)),
        ),
        None => {
            let sections = relaid_sections(d, d.sections.len());
            let end = aligned(
                image_end(sections),
                at_least_one(header_section_alignment(d.optional)),
            );
            (DocModel { optional: with_size_of_image(optional, end), sections, ..d }, None)
        },
    }
}

/// Whether section `i + 1` begins where section `i` ends.
pub open spec fn adjoins(sections: Seq<SectionModel>, i: int) -> bool {
    sections[i + 1].header.virtual_address.0 == section_end(sections[i])
}

/// The bytes of some sections, one after the other.
pub open spec fn datas(sections: Seq<SectionModel>) -> Seq<Seq<u8>> {
    Seq::new(sections.len(), |i: int| sections[i].data)
}

/// The section that sections `start` to `end` merge into.
pub open spec fn merged_section(sections: Seq<SectionModel>, start: int, end: int) -> SectionModel {
    let data = join(datas(sections.subrange(start, end + 1)));
    SectionModel {
        header: SectionHeader {
            name: [46, 109, 101, 114, 103, 101, 100, 0],
            virtual_size: data.len() as u32,
            virtual_address: sections[start].header.virtual_address,
            size_of_raw_data: 0,
            pointer_to_raw_data: RawOffset(0),
            characteristics: sections[start].header.characteristics,
        },
        data,
    }
}

/// What merging sections leaves, and why it stopped, if it did.
pub open spec fn merged(d: DocModel, start: int, end: int) -> (DocModel, Option<PeErrorModel>) {
    if start >= end || end >= d.sections.len() {
        (d, Some(PeErrorModel::InvalidArgument("merge_sections: bad range"@)))
    } else if exists|i: int| start <= i < end && !#[trigger] adjoins(d.sections, i) {
        (d, Some(PeErrorModel::Unsupported("merge_sections: sections are not contiguous"@)))
    } else {
        rebuilt_sections(
            DocModel {
                sections: d.sections.take(start).push(merged_section(d.sections, start, end))
                    + d.sections.skip(end + 1),
                ..d
            },
        )
    }
}

proof fn lemma_overflow(d: DocModel, n: nat, to: nat)
    requires
        n < to,
        overflow_at(d, n) is None,
        raw_start(d, n + 1) > u32::MAX,
    ensures
        overflow_at(d, to) == Some(n),
    decreases to,
{
    if n + 1 < to {
        lemma_overflow(d, n, (to - 1) as nat);
    }
}

/// Re-align and re-lay-out the section table so the file is internally
/// consistent.
pub fn rebuild_section_table(doc: &mut PeDocument) -> (r: PeResult<()>)
    ensures
        (final(doc)@, failure(r)) == rebuilt_sections(old(doc)@),
{
    let ghost d = doc@;
    let fa: u32 = doc.optional.file_alignment();
    let file_alignment: u32 = if fa < 1 {
        1
    } else {
        fa
    };
    let sa: u32 = doc.optional.section_alignment();
    let section_alignment: u32 = if sa < 1 {
        1
    } else {
        sa
    };
    let optional_len: u128 = match &doc.optional {
        OptionalHeader::Bit32(_) => 96 + 128,
        OptionalHeader::Bit64(_) => 112 + 128,
    };
    let end: u128 = 64 + doc.dos.stub.len() as u128 + 4 + 20 + optional_len + 40
        * doc.sections.len() as u128;
    assert(end == head_end(d.dos.stub.len(), d.optional, d.sections.len()));
    let size_of_headers: u32 = align_up(low32(end), file_alignment);
    doc.optional.set_size_of_headers(size_of_headers);
    let ghost optional = doc.optional;
    let mut raw: u32 = size_of_headers;
    let mut i: usize = 0;
    assert(doc@.sections =~= relaid_sections(d, 0));
    while i < doc.sections.len()
        invariant
            i <= doc.sections.len(),
            doc.sections.len() == d.sections.len(),
            file_alignment == at_least_one(header_file_alignment(d.optional)),
            section_alignment == at_least_one(header_section_alignment(d.optional)),
            raw == raw_start(d, i as nat),
            overflow_at(d, i as nat) is None,
            d == old(doc)@,
            optional == with_size_of_headers(
                d.optional,
                headers_size(d, d.sections.len()),
            ),
            doc@ == (DocModel { optional, sections: relaid_sections(d, i as nat), ..d }),
        decreases doc.sections.len() - i,
    {
        let ghost before = doc@.sections;
        proof {
            assert(doc@.sections[i as int] == doc.sections@[i as int]@);
            assert(doc@.sections[i as int] == d.sections[i as int]);
        }
        let va: u32 = align_up(
            doc.sections[i].header.virtual_address.get(),
            section_alignment,
        );
        let data_len: u32 = doc.sections[i].data.len() as u32;
        let raw_len: u32 = align_up(data_len, file_alignment);
        let mut header: SectionHeader = doc.sections[i].header;
        header.virtual_address = Rva(va);
        header.virtual_size = data_len;
        header.size_of_raw_data = raw_len;
        header.pointer_to_raw_data = RawOffset(raw);
        doc.sections[i].header = header;
        proof {
            assert(doc.sections@[i as int]@ == relaid_section(d, i as int));
            assert(doc@.sections =~= before.update(i as int, relaid_section(d, i as int)));
            assert(doc@.sections =~= relaid_sections(d, (i + 1) as nat));
        }
        match raw.checked_add(raw_len) {
            Some(next) => {
                raw = next;
            },
            None => {
                proof {
                    lemma_overflow(d, i as nat, d.sections.len());
                }
                return Err(invalid_argument("section table size overflow"));
            },
        }
        i = i + 1;
    }
    let end: u32 = image_end_of(&doc.sections);
    doc.optional.set_size_of_image(align_up(end, section_alignment));
    Ok(())
}

/// Merge `sections[start..=end]` into a single section. The merged sections
/// must be contiguous in the address space (as produced by `allocate` /
/// `add_section`); otherwise internal RVAs could not be preserved and the
/// operation is rejected as unsupported.
pub fn merge_sections(doc: &mut PeDocument, start: usize, end: usize) -> (r: PeResult<()>)
    ensures
        (final(doc)@, failure(r)) == merged(old(doc)@, start as int, end as int),
{
    let ghost d = doc@;
    if start >= end || end >= doc.sections.len() {
        return Err(invalid_argument("merge_sections: bad range"));
    }
    let mut i: usize = start;
    while i < end
        invariant
            start <= i <= end,
            end < doc.sections.len(),
            *doc == *old(doc),
            d == doc@,
            forall|j: int| start <= j < i ==> #[trigger] adjoins(d.sections, j),
        decreases end - i,
    {
        proof {
            assert(d.sections[i as int] == doc.sections@[i as int]@);
            assert(d.sections[i + 1] == doc.sections@[i + 1]@);
        }
        let cur: u32 = doc.sections[i].header.virtual_address.get();
        let next: u32 = doc.sections[i + 1].header.virtual_address.get();
        if next != cur.saturating_add(doc.sections[i].data.len() as u32) {
            assert(!adjoins(d.sections, i as int));
            return Err(
                PeError::Unsupported("merge_sections: sections are not contiguous".to_owned()),
            );
        }
        assert(adjoins(d.sections, i as int));
        i = i + 1;
    }
    let first: SectionHeader = doc.sections[start].header;
    assert(d.sections[start as int] == doc.sections@[start as int]@);
    let mut data: Vec<u8> = Vec::new();
    let ghost run = d.sections.subrange(start as int, end + 1);
    let mut i: usize = start;
    assert(datas(run).take(0) =~= Seq::empty());
    while i <= end
        invariant
            start <= i <= end + 1,
            start < end < doc.sections.len(),
            *doc == *old(doc),
            d == doc@,
            run == d.sections.subrange(start as int, end + 1),
            data@ == join(datas(run).take(i - start)),
        decreases end + 1 - i,
    {
        proof {
            assert(d.sections[i as int] == doc.sections@[i as int]@);
            let parts = datas(run);
            assert(parts.take(i - start + 1) =~= parts.take(i - start).push(parts[i - start]));
            lemma_join_push(parts.take(i - start), parts[i - start]);
        }
        push_bytes(&mut data, doc.sections[i].data.as_slice());
        i = i + 1;
    }
    assert(datas(run).take(i - start) =~= datas(run));
    let name: [u8; 8] = [46, 109, 101, 114, 103, 101, 100, 0];
    let new = Section {
        header: SectionHeader {
            name,
            virtual_size: data.len() as u32,
            virtual_address: first.virtual_address,
            size_of_raw_data: 0,
            pointer_to_raw_data: RawOffset(0),
            characteristics: first.characteristics,
        },
        data,
    };
    proof {
        let wanted: [u8; 8] = [46, 109, 101, 114, 103, 101, 100, 0];
        assert(name =~= wanted);
        assert(new@ == merged_section(d.sections, start as int, end as int));
    }
    let mut k: usize = end;
    let ghost all = doc.sections@;
    while k > start
        invariant
            start <= k <= end,
            end < all.len(),
            doc.sections@ == all.take(k + 1) + all.skip(end + 1),
            doc@ == (DocModel { sections: views(doc.sections@), ..d }),
        decreases k,
    {
        let ghost before = doc.sections@;
        doc.sections.remove(k);
        assert(doc.sections@ =~= all.take(k as int) + all.skip(end + 1));
        k = k - 1;
    }
    doc.sections.set(start, new);
    proof {
        assert(doc@.sections =~= d.sections.take(start as int).push(
            merged_section(d.sections, start as int, end as int),
        ) + d.sections.skip(end + 1));
    }
    rebuild_section_table(doc)
}

/// A rebuilt section table places the bytes of the sections one after the other
/// in the file, behind the headers.
pub proof fn rebuilt_sections_are_packed(d: DocModel, i: int)
    requires
        rebuilt_sections(d).1 is None,
        0 <= i < d.sections.len(),
    ensures
        ({
            let s = rebuilt_sections(d).0.sections;
            &&& s[0].header.pointer_to_raw_data.0 == headers_size(d, d.sections.len())
            &&& i + 1 < s.len() ==> s[i + 1].header.pointer_to_raw_data.0
                == s[i].header.pointer_to_raw_data.0 + s[i].header.size_of_raw_data
            &&& s[i].data == d.sections[i].data
        }),
{
    lemma_raw_start_fits(d, i as nat, d.sections.len());
    if i + 1 < d.sections.len() {
        lemma_raw_start_fits(d, (i + 1) as nat, d.sections.len());
    }
}

proof fn lemma_raw_start_fits(d: DocModel, n: nat, to: nat)
    requires
        n <= to,
        overflow_at(d, to) is None,
    ensures
        0 <= raw_start(d, n) <= u32::MAX,
    decreases to,
{
    if n == to {
        lemma_raw_start_nonneg(d, n);
    } else {
        lemma_raw_start_fits(d, n, (to - 1) as nat);
    }
}

proof fn lemma_raw_start_nonneg(d: DocModel, n: nat)
    ensures
        raw_start(d, n) >= 0,
    decreases n,
{
    if n > 0 {
        lemma_raw_start_nonneg(d, (n - 1) as nat);
    }
}

/// In the section that a run of adjoining sections merges into, the bytes of
/// every one of them stand at the address they had.
pub proof fn merge_keeps_addresses(sections: Seq<SectionModel>, start: int, end: int, j: int)
    requires
        0 <= start <= j <= end < sections.len(),
        forall|i: int| start <= i < end ==> #[trigger] adjoins(sections, i),
        sections[start].header.virtual_address.0 + merged_section(sections, start, end).data.len()
            <= u32::MAX,
    ensures
        ({
            let m = merged_section(sections, start, end);
            let at = sections[j].header.virtual_address.0 - m.header.virtual_address.0;
            &&& 0 <= at
            &&& at + sections[j].data.len() <= m.data.len()
            &&& m.data.subrange(at, at + sections[j].data.len()) == sections[j].data
        }),
{
    let run = sections.subrange(start, end + 1);
    let parts = datas(run);
    lemma_join_part(parts, j - start);
    lemma_run_offset(sections, start, end, j);
}

proof fn lemma_run_offset(sections: Seq<SectionModel>, start: int, end: int, j: int)
    requires
        0 <= start <= j <= end < sections.len(),
        forall|i: int| start <= i < end ==> #[trigger] adjoins(sections, i),
        sections[start].header.virtual_address.0 + merged_section(sections, start, end).data.len()
            <= u32::MAX,
    ensures
        sections[j].header.virtual_address.0 == sections[start].header.virtual_address.0 + join(
            datas(sections.subrange(start, end + 1)).take(j - start),
        ).len(),
    decreases j - start,
{
    let parts = datas(sections.subrange(start, end + 1));
    if j > start {
        lemma_run_offset(sections, start, end, j - 1);
        lemma_join_part(parts, j - 1 - start);
        assert(adjoins(sections, j - 1));
        assert(parts.take(j - start) =~= parts.take(j - 1 - start).push(parts[j - 1 - start]));
        lemma_join_push(parts.take(j - 1 - start), parts[j - 1 - start]);
    } else {
        assert(parts.take(0) =~= Seq::empty());
    }
}

/// After a rebuild the image is as large as its sections need: the stated size
/// is a multiple of the section alignment, no section's bytes go beyond it, and
/// it is less than one alignment above the end of one of them.
pub proof fn rebuilt_image_size_holds_all_sections(d: DocModel)
    requires
        rebuilt_sections(d).1 is None,
        forall|i: int|
            0 <= i < d.sections.len() ==> (#[trigger] rebuilt_sections(
                d,
            ).0.sections[i]).header.virtual_address.0 + d.sections[i].data.len() + at_least_one(
                header_section_alignment(d.optional),
            ) <= u32::MAX,
    ensures
        ({
            let r = rebuilt_sections(d).0;
            let size = header_size_of_image(r.optional) as int;
            let sa = at_least_one(header_section_alignment(d.optional)) as int;
            &&& r.sections.len() == d.sections.len()
            &&& size % sa == 0
            &&& forall|i: int|
                0 <= i < r.sections.len() ==> (#[trigger] r.sections[i]).header.virtual_address.0
                    + r.sections[i].data.len() <= size
            &&& r.sections.len() > 0 ==> exists|i: int|
                0 <= i < r.sections.len() && size < (
                #[trigger] r.sections[i]).header.virtual_address.0 + r.sections[i].data.len() + sa
            &&& r.sections.len() == 0 ==> size == 0
        }),
{
    let r = rebuilt_sections(d).0;
    let sa = at_least_one(header_section_alignment(d.optional));
    image_end_is_reached(r.sections);
    assert forall|i: int| 0 <= i < r.sections.len() implies (
    #[trigger] r.sections[i]).data.len() <= u32::MAX by {
        assert(r.sections[i].data == d.sections[i].data);
    }
    if r.sections.len() > 0 {
        let i = choose|i: int|
            0 <= i < r.sections.len() && section_end(#[trigger] r.sections[i]) == image_end(
                r.sections,
            );
        lemma_len32(r.sections[i]);
    }
    image_size_holds_all_sections(r.sections, sa);
}

/// After a rebuild every section keeps its name, its flags and its bytes; its
/// virtual size is the number of its bytes, its address is the least multiple
/// of the section alignment that is not below the old one, and it takes the
/// least multiple of the file alignment that holds its bytes. Nothing else of
/// the document changes but the two sizes in the optional header.
pub proof fn rebuilt_sections_are_laid_out(d: DocModel, i: int)
    requires
        rebuilt_sections(d).1 is None,
        0 <= i < d.sections.len(),
        d.sections[i].header.virtual_address.0 + at_least_one(header_section_alignment(d.optional))
            <= u32::MAX,
        d.sections[i].data.len() + at_least_one(header_file_alignment(d.optional)) <= u32::MAX,
    ensures
        ({
            let r = rebuilt_sections(d).0;
            let old = d.sections[i];
            let new = r.sections[i];
            let sa = at_least_one(header_section_alignment(d.optional)) as int;
            let fa = at_least_one(header_file_alignment(d.optional)) as int;
            let va = new.header.virtual_address.0 as int;
            let raw = new.header.size_of_raw_data as int;
            &&& new.header.name == old.header.name
            &&& new.header.characteristics == old.header.characteristics
            &&& new.data == old.data
            &&& new.header.virtual_size == old.data.len()
            &&& va % sa == 0
            &&& old.header.virtual_address.0 <= va < old.header.virtual_address.0 + sa
            &&& raw % fa == 0
            &&& old.data.len() <= raw < old.data.len() + fa
            &&& r.optional == with_size_of_image(
                with_size_of_headers(d.optional, header_size_of_headers(r.optional)),
                header_size_of_image(r.optional),
            )
            &&& r == (DocModel { optional: r.optional, sections: r.sections, ..d })
        }),
{
    let old = d.sections[i];
    align_up_is_least_multiple(
        old.header.virtual_address.0,
        at_least_one(header_section_alignment(d.optional)),
    );
    lemma_len32(old);
    align_up_is_least_multiple(len32(old), at_least_one(header_file_alignment(d.optional)));
}

/// After a rebuild the headers take the least multiple of the file alignment
/// that holds the DOS header and stub, the signature, the file header, the
/// optional header and the section headers; the first section's bytes follow.
pub proof fn rebuilt_headers_are_sized(d: DocModel)
    requires
        rebuilt_sections(d).1 is None,
        64 + d.dos.stub.len() + 264 + 40 * d.sections.len() + at_least_one(
            header_file_alignment(d.optional),
        ) <= u32::MAX,
    ensures
        ({
            let r = rebuilt_sections(d).0;
            let size = header_size_of_headers(r.optional) as int;
            let fa = at_least_one(header_file_alignment(d.optional)) as int;
            let head = 64 + d.dos.stub.len() + 4 + 20 + (match d.optional {
                OptionalHeader::Bit32(_) => 224int,
                OptionalHeader::Bit64(_) => 240,
            }) + 40 * d.sections.len();
            &&& size % fa == 0
            &&& head <= size < head + fa
            &&& d.sections.len() > 0 ==> r.sections[0].header.pointer_to_raw_data.0 == size
        }),
{
    let n = head_end(d.dos.stub.len(), d.optional, d.sections.len());
    crate::io::pe::laws::headers::lemma_low(n);
    align_up_is_least_multiple(
        low(n),
        at_least_one(header_file_alignment(d.optional)),
    );
    if d.sections.len() > 0 {
        rebuilt_sections_are_packed(d, 0);
    }
}

/// A merge is refused for a range that is not one of two or more sections, and
/// for sections between which the image has a gap or an overlap.
pub proof fn merge_needs_adjoining_sections(d: DocModel, start: int, end: int)
    requires
        0 <= start,
    ensures
        start >= end || end >= d.sections.len() ==> merged(d, start, end) == (
            d,
            Some(PeErrorModel::InvalidArgument("merge_sections: bad range"@)),
        ),
        forall|i: int|
            #![trigger d.sections[i]]
            start <= i < end < d.sections.len() && d.sections[i].header.virtual_address.0
                + d.sections[i].data.len() != d.sections[i + 1].header.virtual_address.0
                && d.sections[i].header.virtual_address.0 + d.sections[i].data.len() < u32::MAX
                ==> merged(d, start, end) == (
                d,
                Some(PeErrorModel::Unsupported("merge_sections: sections are not contiguous"@)),
            ),
{
    assert forall|i: int|
        #![trigger d.sections[i]]
        start <= i < end < d.sections.len() && d.sections[i].header.virtual_address.0
            + d.sections[i].data.len() != d.sections[i + 1].header.virtual_address.0
            && d.sections[i].header.virtual_address.0 + d.sections[i].data.len()
            < u32::MAX implies merged(d, start, end) == (
        d,
        Some(PeErrorModel::Unsupported("merge_sections: sections are not contiguous"@)),
    ) by {
        lemma_len32(d.sections[i]);
        assert(!adjoins(d.sections, i));
    }
}

/// A merge puts one section in the place of the run: with the flags of the first
/// and as many bytes as all of them. The sections before and behind it stay.
pub proof fn merge_replaces_the_run(d: DocModel, start: int, end: int, i: int)
    requires
        0 <= start,
        merged(d, start, end).1 is None,
    ensures
        start < end < d.sections.len(),
        ({
            let s = merged(d, start, end).0.sections;
            let m = merged_section(d.sections, start, end);
            &&& s.len() == d.sections.len() - (end - start)
            &&& 0 <= i < start ==> s[i].data == d.sections[i].data && s[i].header.name
                == d.sections[i].header.name && s[i].header.characteristics
                == d.sections[i].header.characteristics
            &&& s[start].data == m.data
            &&& s[start].header.characteristics == d.sections[start].header.characteristics
            &&& end < i < d.sections.len() ==> s[i - (end - start)].data == d.sections[i].data
                && s[i - (end - start)].header.name == d.sections[i].header.name && s[i - (end
                - start)].header.characteristics == d.sections[i].header.characteristics
        }),
{
}

} // verus!
