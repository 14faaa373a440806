//! Where a written file holds every header field and every section.

use crate::bytes::{join, low, lemma_join_part};
use crate::domain::document::{at_least_one, image_end, image_size_holds_all_sections, DocModel};
use crate::domain::optional::{
    header_file_alignment, header_section_alignment, OptionalHeader, OptionalHeader32,
    OptionalHeader64,
};
use crate::domain::types::{align_up_is_least_multiple, machine_code, machine_code_roundtrip};
use crate::io::pe::decode::parsed;
use crate::io::pe::laws::format::{
    directories_are_read_in_place, dos_header_is_read_in_place, file_header_is_read_in_place,
    files_with_whole_headers_are_read, is_pe_file, optional_header_is_read_in_place,
    section_header_stands, sections_are_read_in_place, u16_at, u32_at, u64_at,
};
use crate::io::pe::laws::headers::{
    file_fits, headers_survive, lemma_data_offset, lemma_header_slices, lemma_low, lemma_nested,
    lemma_raw_offset_mono, lemma_raw_size, reread_section,
};
use crate::io::pe::laws::roundtrip::{lemma_grows, lemma_prefixes};
use crate::io::pe::writer::{
    file_plan, head_end, headers_size, raw_offset, raw_size, section_data_parts, section_file_bytes,
    serialized,
};
use vstd::prelude::*;

verus! {

/// Whether the 32-bit optional header `h` stands at `o`, for a file with sixteen
/// directories; the sizes of headers and image aside.
pub open spec fn optional32_stands(h: OptionalHeader32, b: Seq<u8>, o: int) -> bool {
    &&& u16_at(b, o) == h.magic
    &&& b[o + 2] == h.major_linker_version
    &&& b[o + 3] == h.minor_linker_version
    &&& u32_at(b, o + 4) == h.size_of_code
    &&& u32_at(b, o + 8) == h.size_of_initialized_data
    &&& u32_at(b, o + 12) == h.size_of_uninitialized_data
    &&& u32_at(b, o + 16) == h.address_of_entry_point.0
    &&& u32_at(b, o + 20) == h.base_of_code.0
    &&& u32_at(b, o + 24) == h.base_of_data.0
    &&& u32_at(b, o + 28) == h.image_base
    &&& u32_at(b, o + 32) == h.section_alignment
    &&& u32_at(b, o + 36) == h.file_alignment
    &&& u16_at(b, o + 40) == h.major_operating_system_version
    &&& u16_at(b, o + 42) == h.minor_operating_system_version
    &&& u16_at(b, o + 44) == h.major_image_version
    &&& u16_at(b, o + 46) == h.minor_image_version
    &&& u16_at(b, o + 48) == h.major_subsystem_version
    &&& u16_at(b, o + 50) == h.minor_subsystem_version
    &&& u32_at(b, o + 52) == h.win32_version_value
    &&& u32_at(b, o + 64) == h.checksum
    &&& u16_at(b, o + 68) == h.subsystem
    &&& u16_at(b, o + 70) == h.dll_characteristics
    &&& u32_at(b, o + 72) == h.size_of_stack_reserve
    &&& u32_at(b, o + 76) == h.size_of_stack_commit
    &&& u32_at(b, o + 80) == h.size_of_heap_reserve
    &&& u32_at(b, o + 84) == h.size_of_heap_commit
    &&& u32_at(b, o + 88) == h.loader_flags
    &&& u32_at(b, o + 92) == 16
}

/// Whether the 64-bit optional header `h` stands at `o`, for a file with sixteen
/// directories; the sizes of headers and image aside.
pub open spec fn optional64_stands(h: OptionalHeader64, b: Seq<u8>, o: int) -> bool {
    &&& u16_at(b, o) == h.magic
    &&& b[o + 2] == h.major_linker_version
    &&& b[o + 3] == h.minor_linker_version
    &&& u32_at(b, o + 4) == h.size_of_code
    &&& u32_at(b, o + 8) == h.size_of_initialized_data
    &&& u32_at(b, o + 12) == h.size_of_uninitialized_data
    &&& u32_at(b, o + 16) == h.address_of_entry_point.0
    &&& u32_at(b, o + 20) == h.base_of_code.0
    &&& u64_at(b, o + 24) == h.image_base
    &&& u32_at(b, o + 32) == h.section_alignment
    &&& u32_at(b, o + 36) == h.file_alignment
    &&& u16_at(b, o + 40) == h.major_operating_system_version
    &&& u16_at(b, o + 42) == h.minor_operating_system_version
    &&& u16_at(b, o + 44) == h.major_image_version
    &&& u16_at(b, o + 46) == h.minor_image_version
    &&& u16_at(b, o + 48) == h.major_subsystem_version
    &&& u16_at(b, o + 50) == h.minor_subsystem_version
    &&& u32_at(b, o + 52) == h.win32_version_value
    &&& u32_at(b, o + 64) == h.checksum
    &&& u16_at(b, o + 68) == h.subsystem
    &&& u16_at(b, o + 70) == h.dll_characteristics
    &&& u64_at(b, o + 72) == h.size_of_stack_reserve
    &&& u64_at(b, o + 80) == h.size_of_stack_commit
    &&& u64_at(b, o + 88) == h.size_of_heap_reserve
    &&& u64_at(b, o + 96) == h.size_of_heap_commit
    &&& u32_at(b, o + 104) == h.loader_flags
    &&& u32_at(b, o + 108) == 16
}

/// A written file begins with the document's DOS header and stub, the signature
/// and the file header, with the counts and sizes of what follows.
pub proof fn first_headers_are_written_in_place(d: DocModel)
    requires
        file_plan(d) is Ok,
        file_fits(d, file_plan(d)->Ok_0),
    ensures
        serialized(d) is Ok,
        ({
            let b = serialized(d)->Ok_0;
            let pe = 64 + d.dos.stub.len() as int;
            &&& is_pe_file(b)
            &&& forall|i: int| 0 <= i < 30 ==> #[trigger] d.dos.words[i] == u16_at(b, 2 * i)
            &&& u32_at(b, 60) == pe
            &&& b.subrange(64, pe) == d.dos.stub
            &&& b[pe] == 0x50 && b[pe + 1] == 0x45 && b[pe + 2] == 0 && b[pe + 3] == 0
            &&& u16_at(b, pe + 4) == machine_code(d.coff.machine)
            &&& u16_at(b, pe + 6) == file_plan(d)->Ok_0.sections.len()
            &&& u32_at(b, pe + 8) == d.coff.time_date_stamp
            &&& u32_at(b, pe + 12) == d.coff.pointer_to_symbol_table
            &&& u32_at(b, pe + 16) == d.coff.number_of_symbols
            &&& u16_at(b, pe + 20) == if d.optional is Bit32 {
                224int
            } else {
                240
            }
            &&& u16_at(b, pe + 22) == d.coff.characteristics
        }),
{
    let p = file_plan(d)->Ok_0;
    let b = serialized(d)->Ok_0;
    headers_survive(d, p);
    files_with_whole_headers_are_read(b);
    dos_header_is_read_in_place(b);
    file_header_is_read_in_place(b);
    machine_code_roundtrip(machine_code(d.coff.machine));
    machine_code_roundtrip(u16_at(b, u32_at(b, 60) + 4));
    let w = parsed(b)->Ok_0.dos.words;
    assert forall|i: int| 0 <= i < 30 implies #[trigger] d.dos.words[i] == u16_at(b, 2 * i) by {
        assert(w[i] == u16_at(b, 2 * i));
    }
}

/// A written file holds every field of the document's optional header at its
/// place.
pub proof fn optional_header_is_written_in_place(d: DocModel)
    requires
        file_plan(d) is Ok,
        file_fits(d, file_plan(d)->Ok_0),
    ensures
        serialized(d) is Ok,
        ({
            let b = serialized(d)->Ok_0;
            let o = 64 + d.dos.stub.len() + 24int;
            match d.optional {
                OptionalHeader::Bit32(h) => optional32_stands(h, b, o),
                OptionalHeader::Bit64(h) => optional64_stands(h, b, o),
            }
        }),
{
    let p = file_plan(d)->Ok_0;
    let b = serialized(d)->Ok_0;
    headers_survive(d, p);
    dos_header_is_read_in_place(b);
    optional_header_is_read_in_place(b);
    files_with_whole_headers_are_read(b);
}

/// A written file states how large it is: the headers take the least multiple of
/// the file alignment that holds them, and the image the least multiple of the
/// section alignment that holds all sections.
pub proof fn sizes_are_written_in_place(d: DocModel)
    requires
        file_plan(d) is Ok,
        file_fits(d, file_plan(d)->Ok_0),
        image_end(file_plan(d)->Ok_0.sections) + at_least_one(
            header_section_alignment(d.optional),
        ) <= u32::MAX,
    ensures
        serialized(d) is Ok,
        ({
            let b = serialized(d)->Ok_0;
            let s = file_plan(d)->Ok_0.sections;
            let o = 64 + d.dos.stub.len() + 24int;
            let fa = at_least_one(header_file_alignment(d.optional)) as int;
            let sa = at_least_one(header_section_alignment(d.optional)) as int;
            let head = o + (if d.optional is Bit32 {
                224int
            } else {
                240
            }) + 40 * s.len();
            let size = u32_at(b, o + 56) as int;
            &&& u32_at(b, o + 60) as int % fa == 0
            &&& head <= u32_at(b, o + 60) < head + fa
            &&& size % sa == 0
            &&& forall|i: int|
                0 <= i < s.len() ==> (#[trigger] s[i]).header.virtual_address.0 + s[i].data.len()
                    <= size
            &&& s.len() == 0 ==> size == 0
            &&& s.len() > 0 ==> exists|i: int|
                0 <= i < s.len() && size < (#[trigger] s[i]).header.virtual_address.0
                    + s[i].data.len() + sa
        }),
{
    let p = file_plan(d)->Ok_0;
    let b = serialized(d)->Ok_0;
    let fa = at_least_one(header_file_alignment(d.optional));
    let sa = at_least_one(header_section_alignment(d.optional));
    headers_survive(d, p);
    dos_header_is_read_in_place(b);
    optional_header_is_read_in_place(b);
    optional_header_is_written_in_place(d);
    lemma_low(head_end(d.dos.stub.len(), d.optional, p.sections.len()));
    align_up_is_least_multiple(
        low(head_end(d.dos.stub.len(), d.optional, p.sections.len())),
        fa,
    );
    image_size_holds_all_sections(p.sections, sa);
    assert forall|i: int| 0 <= i < p.sections.len() implies (
    #[trigger] p.sections[i]).data.len() <= u32::MAX by {}
}

/// The directory entries of the plan stand behind the optional header.
pub proof fn directories_are_written_in_place(d: DocModel, i: int)
    requires
        file_plan(d) is Ok,
        file_fits(d, file_plan(d)->Ok_0),
        0 <= i < 16,
    ensures
        serialized(d) is Ok,
        ({
            let b = serialized(d)->Ok_0;
            let o = 64 + d.dos.stub.len() + 24int;
            let at = if d.optional is Bit32 {
                o + 96
            } else {
                o + 112
            };
            let dd = file_plan(d)->Ok_0.dirs[i];
            &&& u32_at(b, at + 8 * i) == dd.rva.0
            &&& u32_at(b, at + 8 * i + 4) == dd.size
        }),
{
    let p = file_plan(d)->Ok_0;
    let b = serialized(d)->Ok_0;
    headers_survive(d, p);
    dos_header_is_read_in_place(b);
    optional_header_is_written_in_place(d);
    directories_are_read_in_place(b, i);
    assert(parsed(b)->Ok_0.data_directories == p.dirs.take(16));
    assert(p.dirs.take(16)[i] == p.dirs[i]);
}

/// Where the header of section `i` stands in a written file.
pub open spec fn section_header_place(d: DocModel, i: int) -> int {
    match d.optional {
        OptionalHeader::Bit32(_) => 64 + d.dos.stub.len() + 24 + 224 + 40 * i,
        OptionalHeader::Bit64(_) => 64 + d.dos.stub.len() + 24 + 240 + 40 * i,
    }
}

/// The bytes of section `i` in the file.
proof fn lemma_section_bytes(d: DocModel, i: int)
    requires
        file_plan(d) is Ok,
        file_fits(d, file_plan(d)->Ok_0),
        0 <= i < file_plan(d)->Ok_0.sections.len(),
    ensures
        ({
            let b = serialized(d)->Ok_0;
            let p = file_plan(d)->Ok_0;
            let s = p.sections[i];
            let raw = raw_size(d, s) as int;
            let ptr = raw_offset(d, p.sections, i) as int;
            &&& s.data.len() <= raw
            &&& ptr + raw <= b.len()
            &&& ptr <= u32::MAX
            &&& b.subrange(ptr, ptr + s.data.len()) == s.data
            &&& forall|j: int| s.data.len() <= j < raw ==> #[trigger] b[ptr + j] == 0
        }),
{
    let p = file_plan(d)->Ok_0;
    let b = serialized(d)->Ok_0;
    let n = p.sections.len();
    let s = p.sections[i];
    lemma_raw_offset_mono(d, p.sections, i + 1, n as int);
    lemma_raw_offset_mono(d, p.sections, 0, i);
    lemma_header_slices(d, p);
    lemma_data_offset(d, p, i);
    lemma_raw_size(d, p, i);
    let parts = section_data_parts(d, p.sections);
    lemma_join_part(parts, i);
    let hs = headers_size(d, n) as int;
    lemma_data_offset(d, p, n as int);
    assert(parts.take(n as int) =~= parts);
    assert(b.subrange(hs, hs + join(parts).len()) =~= join(parts));
    lemma_nested(b, hs, join(parts), join(parts.take(i)).len() as int, parts[i]);
    let f = section_file_bytes(d, s);
    let ptr = raw_offset(d, p.sections, i) as int;
    assert(b.subrange(ptr, ptr + f.len()) == f);
    assert forall|j: int| 0 <= j < f.len() implies #[trigger] b[ptr + j] == f[j] by {
        assert(b[ptr + j] == b.subrange(ptr, ptr + f.len())[j]);
    }
    assert(b.subrange(ptr, ptr + s.data.len()) =~= s.data) by {
        assert forall|j: int| 0 <= j < s.data.len() implies b.subrange(
            ptr,
            ptr + s.data.len(),
        )[j] == s.data[j] by {
            assert(b[ptr + j] == f[j]);
        }
    }
}

/// Where a written file says that its section headers stand.
proof fn lemma_place(d: DocModel, i: int)
    requires
        file_plan(d) is Ok,
        file_fits(d, file_plan(d)->Ok_0),
    ensures
        ({
            let b = serialized(d)->Ok_0;
            let pe = u32_at(b, 60);
            section_header_place(d, i) == pe + 24 + u16_at(b, pe + 20) + 40 * i
        }),
{
    first_headers_are_written_in_place(d);
}

/// The header of section `i` in the file.
proof fn lemma_section_header(d: DocModel, i: int)
    requires
        file_plan(d) is Ok,
        file_fits(d, file_plan(d)->Ok_0),
        0 <= i < file_plan(d)->Ok_0.sections.len(),
    ensures
        section_header_stands(
            reread_section(d, file_plan(d)->Ok_0.sections, i).header,
            serialized(d)->Ok_0,
            section_header_place(d, i),
        ),
{
    let p = file_plan(d)->Ok_0;
    let b = serialized(d)->Ok_0;
    assert(parsed(b) is Ok && parsed(b)->Ok_0.sections.len() == p.sections.len() && parsed(
        b,
    )->Ok_0.sections[i] == reread_section(d, p.sections, i)) by {
        headers_survive(d, p);
    }
    lemma_place(d, i);
    sections_are_read_in_place(b, i);
}

/// Every section of the plan has its header behind the optional header, and its
/// bytes where the header points, with zeros up to the next file alignment.
pub proof fn sections_are_written_in_place(d: DocModel, i: int)
    requires
        file_plan(d) is Ok,
        file_fits(d, file_plan(d)->Ok_0),
        0 <= i < file_plan(d)->Ok_0.sections.len(),
    ensures
        serialized(d) is Ok,
        ({
            let b = serialized(d)->Ok_0;
            let s = file_plan(d)->Ok_0.sections[i];
            let at = section_header_place(d, i);
            let raw = u32_at(b, at + 16) as int;
            let ptr = u32_at(b, at + 20) as int;
            &&& forall|k: int| 0 <= k < 8 ==> #[trigger] s.header.name[k] == b[at + k]
            &&& u32_at(b, at + 8) == s.header.virtual_size
            &&& u32_at(b, at + 12) == s.header.virtual_address.0
            &&& u32_at(b, at + 36) == s.header.characteristics
            &&& s.data.len() <= raw
            &&& ptr + raw <= b.len()
            &&& b.subrange(ptr, ptr + s.data.len()) == s.data
            &&& forall|j: int| s.data.len() <= j < raw ==> #[trigger] b[ptr + j] == 0
        }),
{
    let p = file_plan(d)->Ok_0;
    let b = serialized(d)->Ok_0;
    lemma_section_bytes(d, i);
    lemma_section_header(d, i);
    let at = section_header_place(d, i);
    let h = reread_section(d, p.sections, i).header;
    let s = p.sections[i];
    assert(h.name == s.header.name);
    assert(u32_at(b, at + 20) == raw_offset(d, p.sections, i));
    assert(u32_at(b, at + 16) == raw_size(d, s));
}

/// The document's own sections are written first, in their order.
pub proof fn own_sections_come_first(d: DocModel, i: int)
    requires
        file_plan(d) is Ok,
        0 <= i < d.sections.len(),
    ensures
        d.sections.len() <= file_plan(d)->Ok_0.sections.len(),
        file_plan(d)->Ok_0.sections[i] == d.sections[i],
{
    lemma_grows(d);
    lemma_prefixes(d);
    let s = file_plan(d)->Ok_0.sections;
    assert(s[i] == s.take(d.sections.len() as int)[i]);
}

/// A file is laid out in multiples of its alignment: the headers take the least
/// multiple that holds them, and every section the least that holds its bytes,
/// one after the other without a gap.
pub proof fn file_parts_are_aligned(d: DocModel, i: int)
    requires
        file_plan(d) is Ok,
        file_fits(d, file_plan(d)->Ok_0),
        0 <= i < file_plan(d)->Ok_0.sections.len(),
    ensures
        ({
            let b = serialized(d)->Ok_0;
            let s = file_plan(d)->Ok_0.sections;
            let r = parsed(b)->Ok_0.sections;
            let fa = at_least_one(header_file_alignment(d.optional)) as int;
            let head = 64 + d.dos.stub.len() + 24 + (if d.optional is Bit32 {
                224int
            } else {
                240
            }) + 40 * s.len();
            let first = r[0].header.pointer_to_raw_data.0;
            let size = r[i].header.size_of_raw_data;
            let ptr = r[i].header.pointer_to_raw_data.0;
            &&& first as int % fa == 0
            &&& head <= first < head + fa
            &&& size as int % fa == 0
            &&& s[i].data.len() <= size < s[i].data.len() + fa
            &&& i + 1 < s.len() ==> r[i + 1].header.pointer_to_raw_data.0 == ptr + size
            &&& i + 1 == s.len() ==> b.len() == ptr + size
        }),
{
    let p = file_plan(d)->Ok_0;
    let fa = at_least_one(header_file_alignment(d.optional));
    let n = p.sections.len() as int;
    headers_survive(d, p);
    lemma_header_slices(d, p);
    lemma_low(head_end(d.dos.stub.len(), d.optional, p.sections.len()));
    align_up_is_least_multiple(
        low(head_end(d.dos.stub.len(), d.optional, p.sections.len())),
        fa,
    );
    assert(p.sections[i].data.len() + fa - 1 <= u32::MAX);
    lemma_low(p.sections[i].data.len());
    align_up_is_least_multiple(low(p.sections[i].data.len()), fa);
    lemma_raw_offset_mono(d, p.sections, i, n);
    lemma_raw_offset_mono(d, p.sections, i + 1, n);
    lemma_raw_offset_mono(d, p.sections, 0, n);
    let r = parsed(serialized(d)->Ok_0)->Ok_0.sections;
    assert(r[0] == reread_section(d, p.sections, 0));
    assert(r[i] == reread_section(d, p.sections, i));
    if i + 1 < n {
        assert(r[i + 1] == reread_section(d, p.sections, i + 1));
    }
}

} // verus!
