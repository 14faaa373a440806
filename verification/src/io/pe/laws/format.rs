//! Where every header field stands in a file, byte by byte.

use crate::bytes::{decode_fields, layout_size, le_value, lemma_decode_len};
use crate::domain::coff::CoffHeader;
use crate::domain::data_directory::{empty_directory, DataDirectory};
use crate::domain::optional::{
    header_arch, header_number_of_rva_and_sizes, OptionalHeader, OptionalHeader32, OptionalHeader64,
};
use crate::domain::section::{SectionHeader, SectionModel};
use crate::domain::types::{machine_of, Arch, Machine, RawOffset, Rva};
use crate::io::pe::decode::{
    coff_of, counted_directories, directories_of, optional32_of, optional64_of, optional_at, parsed,
    section_header_of, section_of, sections_at, skeleton,
};
use crate::io::pe::layout::{
    coff_fields, directories_fields, dos_fields, lemma_coff_size, lemma_directories_size,
    lemma_dos_size, lemma_optional32_size, lemma_optional64_size, lemma_section_size,
    optional32_fields, optional64_fields, section_fields,
};
use vstd::prelude::*;

verus! {

/// The 16-bit number at `o`, its low byte first.
pub open spec fn u16_at(b: Seq<u8>, o: int) -> u16 {
    (b[o] + 0x100 * b[o + 1]) as u16
}

/// The 32-bit number at `o`, its low byte first.
pub open spec fn u32_at(b: Seq<u8>, o: int) -> u32 {
    (b[o] + 0x100 * b[o + 1] + 0x1_0000 * b[o + 2] + 0x100_0000 * b[o + 3]) as u32
}

/// The 64-bit number at `o`, its low byte first.
pub open spec fn u64_at(b: Seq<u8>, o: int) -> u64 {
    (b[o] + 0x100 * b[o + 1] + 0x1_0000 * b[o + 2] + 0x100_0000 * b[o + 3] + 0x1_0000_0000 * b[o
        + 4] + 0x100_0000_0000 * b[o + 5] + 0x1_0000_0000_0000 * b[o + 6] + 0x100_0000_0000_0000
        * b[o + 7]) as u64
}

/// A little-endian number is the sum of its bytes, each at its weight.
pub proof fn numbers_are_little_endian(b: Seq<u8>, o: int)
    requires
        0 <= o,
    ensures
        o + 1 <= b.len() ==> le_value(b.subrange(o, o + 1)) == b[o],
        o + 2 <= b.len() ==> le_value(b.subrange(o, o + 2)) == u16_at(b, o),
        o + 4 <= b.len() ==> le_value(b.subrange(o, o + 4)) == u32_at(b, o),
        o + 8 <= b.len() ==> le_value(b.subrange(o, o + 8)) == u64_at(b, o),
{
    lemma_le_step(b, o, o + 1);
    lemma_le_step(b, o, o + 2);
    lemma_le_step(b, o + 1, o + 2);
    lemma_le_step(b, o, o + 4);
    lemma_le_step(b, o + 1, o + 4);
    lemma_le_step(b, o + 2, o + 4);
    lemma_le_step(b, o + 3, o + 4);
    lemma_le_step(b, o, o + 8);
    lemma_le_step(b, o + 1, o + 8);
    lemma_le_step(b, o + 2, o + 8);
    lemma_le_step(b, o + 3, o + 8);
    lemma_le_step(b, o + 4, o + 8);
    lemma_le_step(b, o + 5, o + 8);
    lemma_le_step(b, o + 6, o + 8);
    lemma_le_step(b, o + 7, o + 8);
}

proof fn lemma_le_step(b: Seq<u8>, i: int, j: int)
    requires
        0 <= i < j,
    ensures
        j <= b.len() ==> le_value(b.subrange(i, j)) == b[i] + 256 * le_value(b.subrange(i + 1, j)),
        le_value(b.subrange(j, j)) == 0 || j > b.len(),
{
    if j <= b.len() {
        assert(b.subrange(i, j).drop_first() =~= b.subrange(i + 1, j));
        assert(b.subrange(j, j) =~= Seq::empty());
    }
}

/// Field `i` of a record stands behind the fields before it.
pub proof fn lemma_number(ws: Seq<u8>, b: Seq<u8>, i: int, o: int)
    requires
        0 <= i < ws.len(),
        layout_size(ws.take(i)) == o,
        ws[i] == 1 || ws[i] == 2 || ws[i] == 4 || ws[i] == 8,
        o + ws[i] <= b.len(),
    ensures
        layout_size(ws.take(i + 1)) == o + ws[i],
        decode_fields(ws, b).len() == ws.len(),
        ws[i] == 1 ==> decode_fields(ws, b)[i] == b[o],
        ws[i] == 2 ==> decode_fields(ws, b)[i] == u16_at(b, o),
        ws[i] == 4 ==> decode_fields(ws, b)[i] == u32_at(b, o),
        ws[i] == 8 ==> decode_fields(ws, b)[i] == u64_at(b, o),
{
    lemma_decode_len(ws, b);
    lemma_decode_take(ws, b, i + 1);
    lemma_decode_len(ws.take(i + 1), b);
    assert(ws.take(i + 1).drop_last() =~= ws.take(i));
    lemma_decode_len(ws.take(i), b);
    assert(decode_fields(ws, b)[i] == decode_fields(ws, b).take(i + 1)[i]);
    numbers_are_little_endian(b, o);
}

proof fn lemma_decode_take(ws: Seq<u8>, b: Seq<u8>, i: int)
    requires
        0 <= i <= ws.len(),
    ensures
        decode_fields(ws.take(i), b) == decode_fields(ws, b).take(i),
    decreases ws.len(),
{
    lemma_decode_len(ws, b);
    lemma_decode_len(ws.take(i), b);
    if i == ws.len() {
        assert(ws.take(i) =~= ws);
        assert(decode_fields(ws, b).take(i) =~= decode_fields(ws, b));
    } else {
        lemma_decode_take(ws.drop_last(), b, i);
        lemma_decode_len(ws.drop_last(), b);
        assert(ws.drop_last().take(i) =~= ws.take(i));
        assert(decode_fields(ws, b).take(i) =~= decode_fields(ws.drop_last(), b).take(i));
    }
}

/// Numbers in a part of a byte string are those of the whole.
pub proof fn lemma_part(b: Seq<u8>, lo: int, hi: int, o: int)
    requires
        0 <= lo <= hi <= b.len(),
        0 <= o,
    ensures
        o + 1 <= hi - lo ==> b.subrange(lo, hi)[o] == b[lo + o],
        o + 2 <= hi - lo ==> u16_at(b.subrange(lo, hi), o) == u16_at(b, lo + o),
        o + 4 <= hi - lo ==> u32_at(b.subrange(lo, hi), o) == u32_at(b, lo + o),
        o + 8 <= hi - lo ==> u64_at(b.subrange(lo, hi), o) == u64_at(b, lo + o),
{
}

/// The fields of the header at `o`.
pub proof fn lemma_coff_fields(b: Seq<u8>, o: int)
    requires
        0 <= o,
        o + 20 <= b.len(),
    ensures
        coff_of(decode_fields(coff_fields(), b.subrange(o, o + 20))) == (CoffHeader {
            machine: machine_of(u16_at(b, o)),
            number_of_sections: u16_at(b, o + 2),
            time_date_stamp: u32_at(b, o + 4),
            pointer_to_symbol_table: u32_at(b, o + 8),
            number_of_symbols: u32_at(b, o + 12),
            size_of_optional_header: u16_at(b, o + 16),
            characteristics: u16_at(b, o + 18),
        }),
{
    let ws = coff_fields();
    let r = b.subrange(o, o + 20);
    lemma_coff_size();
    assert(ws.take(0) =~= Seq::empty());
    lemma_number(ws, r, 0, 0);
    lemma_number(ws, r, 1, 2);
    lemma_number(ws, r, 2, 4);
    lemma_number(ws, r, 3, 8);
    lemma_number(ws, r, 4, 12);
    lemma_number(ws, r, 5, 16);
    lemma_number(ws, r, 6, 18);
}

/// The fields of the header at `o`.
pub proof fn lemma_optional32_fields(b: Seq<u8>, o: int)
    requires
        0 <= o,
        o + 96 <= b.len(),
    ensures
        optional32_of(decode_fields(optional32_fields(), b.subrange(o, o + 96))) == (OptionalHeader32 {
            magic: u16_at(b, o),
            major_linker_version: b[o + 2],
            minor_linker_version: b[o + 3],
            size_of_code: u32_at(b, o + 4),
            size_of_initialized_data: u32_at(b, o + 8),
            size_of_uninitialized_data: u32_at(b, o + 12),
            address_of_entry_point: Rva(u32_at(b, o + 16)),
            base_of_code: Rva(u32_at(b, o + 20)),
            base_of_data: Rva(u32_at(b, o + 24)),
            image_base: u32_at(b, o + 28),
            section_alignment: u32_at(b, o + 32),
            file_alignment: u32_at(b, o + 36),
            major_operating_system_version: u16_at(b, o + 40),
            minor_operating_system_version: u16_at(b, o + 42),
            major_image_version: u16_at(b, o + 44),
            minor_image_version: u16_at(b, o + 46),
            major_subsystem_version: u16_at(b, o + 48),
            minor_subsystem_version: u16_at(b, o + 50),
            win32_version_value: u32_at(b, o + 52),
            size_of_image: u32_at(b, o + 56),
            size_of_headers: u32_at(b, o + 60),
            checksum: u32_at(b, o + 64),
            subsystem: u16_at(b, o + 68),
            dll_characteristics: u16_at(b, o + 70),
            size_of_stack_reserve: u32_at(b, o + 72),
            size_of_stack_commit: u32_at(b, o + 76),
            size_of_heap_reserve: u32_at(b, o + 80),
            size_of_heap_commit: u32_at(b, o + 84),
            loader_flags: u32_at(b, o + 88),
            number_of_rva_and_sizes: u32_at(b, o + 92),
        }),
{
    let ws = optional32_fields();
    let r = b.subrange(o, o + 96);
    lemma_optional32_size();
    assert(ws.take(0) =~= Seq::empty());
    lemma_number(ws, r, 0, 0);
    lemma_number(ws, r, 1, 2);
    lemma_number(ws, r, 2, 3);
    lemma_number(ws, r, 3, 4);
    lemma_number(ws, r, 4, 8);
    lemma_number(ws, r, 5, 12);
    lemma_number(ws, r, 6, 16);
    lemma_number(ws, r, 7, 20);
    lemma_number(ws, r, 8, 24);
    lemma_number(ws, r, 9, 28);
    lemma_number(ws, r, 10, 32);
    lemma_number(ws, r, 11, 36);
    lemma_number(ws, r, 12, 40);
    lemma_number(ws, r, 13, 42);
    lemma_number(ws, r, 14, 44);
    lemma_number(ws, r, 15, 46);
    lemma_number(ws, r, 16, 48);
    lemma_number(ws, r, 17, 50);
    lemma_number(ws, r, 18, 52);
    lemma_number(ws, r, 19, 56);
    lemma_number(ws, r, 20, 60);
    lemma_number(ws, r, 21, 64);
    lemma_number(ws, r, 22, 68);
    lemma_number(ws, r, 23, 70);
    lemma_number(ws, r, 24, 72);
    lemma_number(ws, r, 25, 76);
    lemma_number(ws, r, 26, 80);
    lemma_number(ws, r, 27, 84);
    lemma_number(ws, r, 28, 88);
    lemma_number(ws, r, 29, 92);
}

/// The fields of the header at `o`.
pub proof fn lemma_optional64_fields(b: Seq<u8>, o: int)
    requires
        0 <= o,
        o + 112 <= b.len(),
    ensures
        optional64_of(decode_fields(optional64_fields(), b.subrange(o, o + 112))) == (OptionalHeader64 {
            magic: u16_at(b, o),
            major_linker_version: b[o + 2],
            minor_linker_version: b[o + 3],
            size_of_code: u32_at(b, o + 4),
            size_of_initialized_data: u32_at(b, o + 8),
            size_of_uninitialized_data: u32_at(b, o + 12),
            address_of_entry_point: Rva(u32_at(b, o + 16)),
            base_of_code: Rva(u32_at(b, o + 20)),
            image_base: u64_at(b, o + 24),
            section_alignment: u32_at(b, o + 32),
            file_alignment: u32_at(b, o + 36),
            major_operating_system_version: u16_at(b, o + 40),
            minor_operating_system_version: u16_at(b, o + 42),
            major_image_version: u16_at(b, o + 44),
            minor_image_version: u16_at(b, o + 46),
            major_subsystem_version: u16_at(b, o + 48),
            minor_subsystem_version: u16_at(b, o + 50),
            win32_version_value: u32_at(b, o + 52),
            size_of_image: u32_at(b, o + 56),
            size_of_headers: u32_at(b, o + 60),
            checksum: u32_at(b, o + 64),
            subsystem: u16_at(b, o + 68),
            dll_characteristics: u16_at(b, o + 70),
            size_of_stack_reserve: u64_at(b, o + 72),
            size_of_stack_commit: u64_at(b, o + 80),
            size_of_heap_reserve: u64_at(b, o + 88),
            size_of_heap_commit: u64_at(b, o + 96),
            loader_flags: u32_at(b, o + 104),
            number_of_rva_and_sizes: u32_at(b, o + 108),
        }),
{
    let ws = optional64_fields();
    let r = b.subrange(o, o + 112);
    lemma_optional64_size();
    assert(ws.take(0) =~= Seq::empty());
    lemma_number(ws, r, 0, 0);
    lemma_number(ws, r, 1, 2);
    lemma_number(ws, r, 2, 3);
    lemma_number(ws, r, 3, 4);
    lemma_number(ws, r, 4, 8);
    lemma_number(ws, r, 5, 12);
    lemma_number(ws, r, 6, 16);
    lemma_number(ws, r, 7, 20);
    lemma_number(ws, r, 8, 24);
    lemma_number(ws, r, 9, 32);
    lemma_number(ws, r, 10, 36);
    lemma_number(ws, r, 11, 40);
    lemma_number(ws, r, 12, 42);
    lemma_number(ws, r, 13, 44);
    lemma_number(ws, r, 14, 46);
    lemma_number(ws, r, 15, 48);
    lemma_number(ws, r, 16, 50);
    lemma_number(ws, r, 17, 52);
    lemma_number(ws, r, 18, 56);
    lemma_number(ws, r, 19, 60);
    lemma_number(ws, r, 20, 64);
    lemma_number(ws, r, 21, 68);
    lemma_number(ws, r, 22, 70);
    lemma_number(ws, r, 23, 72);
    lemma_number(ws, r, 24, 80);
    lemma_number(ws, r, 25, 88);
    lemma_number(ws, r, 26, 96);
    lemma_number(ws, r, 27, 104);
    lemma_number(ws, r, 28, 108);
}

/// The fields of the section header at `o`.
proof fn lemma_section_fields(b: Seq<u8>, o: int)
    requires
        0 <= o,
        o + 40 <= b.len(),
    ensures
        section_header_stands(
            section_header_of(decode_fields(section_fields(), b.subrange(o, o + 40))),
            b,
            o,
        ),
{
    let ws = section_fields();
    let r = b.subrange(o, o + 40);
    lemma_section_size();
    assert(ws.take(0) =~= Seq::empty());
    lemma_number(ws, r, 0, 0);
    lemma_number(ws, r, 1, 1);
    lemma_number(ws, r, 2, 2);
    lemma_number(ws, r, 3, 3);
    lemma_number(ws, r, 4, 4);
    lemma_number(ws, r, 5, 5);
    lemma_number(ws, r, 6, 6);
    lemma_number(ws, r, 7, 7);
    lemma_number(ws, r, 8, 8);
    lemma_number(ws, r, 9, 12);
    lemma_number(ws, r, 10, 16);
    lemma_number(ws, r, 11, 20);
    lemma_number(ws, r, 12, 24);
    lemma_number(ws, r, 13, 28);
    lemma_number(ws, r, 14, 32);
    lemma_number(ws, r, 15, 34);
    lemma_number(ws, r, 16, 36);
}

/// Whether `h` is the section header that stands at `o`.
pub open spec fn section_header_stands(h: SectionHeader, b: Seq<u8>, o: int) -> bool {
    &&& forall|k: int| 0 <= k < 8 ==> #[trigger] h.name[k] == b[o + k]
    &&& h.virtual_size == u32_at(b, o + 8)
    &&& h.virtual_address == Rva(u32_at(b, o + 12))
    &&& h.size_of_raw_data == u32_at(b, o + 16)
    &&& h.pointer_to_raw_data == RawOffset(u32_at(b, o + 20))
    &&& h.characteristics == u32_at(b, o + 36)
}

/// The fields of the DOS header.
proof fn lemma_dos_fields(b: Seq<u8>)
    requires
        64 <= b.len(),
    ensures
        ({
            let v = decode_fields(dos_fields(), b.subrange(0, 64));
            &&& v.len() == 31
            &&& forall|i: int| 0 <= i < 30 ==> #[trigger] v[i] == u16_at(b, 2 * i)
            &&& v[30] == u32_at(b, 60)
        }),
{
    let ws = dos_fields();
    let r = b.subrange(0, 64);
    lemma_dos_size();
    assert(ws.take(0) =~= Seq::empty());
    lemma_number(ws, r, 0, 0);
    lemma_number(ws, r, 1, 2);
    lemma_number(ws, r, 2, 4);
    lemma_number(ws, r, 3, 6);
    lemma_number(ws, r, 4, 8);
    lemma_number(ws, r, 5, 10);
    lemma_number(ws, r, 6, 12);
    lemma_number(ws, r, 7, 14);
    lemma_number(ws, r, 8, 16);
    lemma_number(ws, r, 9, 18);
    lemma_number(ws, r, 10, 20);
    lemma_number(ws, r, 11, 22);
    lemma_number(ws, r, 12, 24);
    lemma_number(ws, r, 13, 26);
    lemma_number(ws, r, 14, 28);
    lemma_number(ws, r, 15, 30);
    lemma_number(ws, r, 16, 32);
    lemma_number(ws, r, 17, 34);
    lemma_number(ws, r, 18, 36);
    lemma_number(ws, r, 19, 38);
    lemma_number(ws, r, 20, 40);
    lemma_number(ws, r, 21, 42);
    lemma_number(ws, r, 22, 44);
    lemma_number(ws, r, 23, 46);
    lemma_number(ws, r, 24, 48);
    lemma_number(ws, r, 25, 50);
    lemma_number(ws, r, 26, 52);
    lemma_number(ws, r, 27, 54);
    lemma_number(ws, r, 28, 56);
    lemma_number(ws, r, 29, 58);
    lemma_number(ws, r, 30, 60);
    let v = decode_fields(ws, r);
    assert forall|i: int| 0 <= i < 30 implies #[trigger] v[i] == u16_at(b, 2 * i) by {
        lemma_part(b, 0, 64, 2 * i);
        assert(i == 0 ==> v[i] == u16_at(r, 0));
        assert(i == 1 ==> v[i] == u16_at(r, 2));
        assert(i == 2 ==> v[i] == u16_at(r, 4));
        assert(i == 3 ==> v[i] == u16_at(r, 6));
        assert(i == 4 ==> v[i] == u16_at(r, 8));
        assert(i == 5 ==> v[i] == u16_at(r, 10));
        assert(i == 6 ==> v[i] == u16_at(r, 12));
        assert(i == 7 ==> v[i] == u16_at(r, 14));
        assert(i == 8 ==> v[i] == u16_at(r, 16));
        assert(i == 9 ==> v[i] == u16_at(r, 18));
        assert(i == 10 ==> v[i] == u16_at(r, 20));
        assert(i == 11 ==> v[i] == u16_at(r, 22));
        assert(i == 12 ==> v[i] == u16_at(r, 24));
        assert(i == 13 ==> v[i] == u16_at(r, 26));
        assert(i == 14 ==> v[i] == u16_at(r, 28));
        assert(i == 15 ==> v[i] == u16_at(r, 30));
        assert(i == 16 ==> v[i] == u16_at(r, 32));
        assert(i == 17 ==> v[i] == u16_at(r, 34));
        assert(i == 18 ==> v[i] == u16_at(r, 36));
        assert(i == 19 ==> v[i] == u16_at(r, 38));
        assert(i == 20 ==> v[i] == u16_at(r, 40));
        assert(i == 21 ==> v[i] == u16_at(r, 42));
        assert(i == 22 ==> v[i] == u16_at(r, 44));
        assert(i == 23 ==> v[i] == u16_at(r, 46));
        assert(i == 24 ==> v[i] == u16_at(r, 48));
        assert(i == 25 ==> v[i] == u16_at(r, 50));
        assert(i == 26 ==> v[i] == u16_at(r, 52));
        assert(i == 27 ==> v[i] == u16_at(r, 54));
        assert(i == 28 ==> v[i] == u16_at(r, 56));
        assert(i == 29 ==> v[i] == u16_at(r, 58));
    }
}

/// The directory entries at `o`.
proof fn lemma_directory_fields(b: Seq<u8>, o: int)
    requires
        0 <= o,
        o + 128 <= b.len(),
    ensures
        ({
            let dirs = directories_of(decode_fields(directories_fields(), b.subrange(o, o + 128)));
            forall|i: int|
                0 <= i < 16 ==> (#[trigger] dirs[i]) == (DataDirectory {
                    rva: Rva(u32_at(b, o + 8 * i)),
                    size: u32_at(b, o + 8 * i + 4),
                })
        }),
{
    let ws = directories_fields();
    let r = b.subrange(o, o + 128);
    lemma_directories_size();
    lemma_fours(ws, 32);
    let v = decode_fields(ws, r);
    let dirs = directories_of(v);
    assert forall|i: int| 0 <= i < 16 implies (#[trigger] dirs[i]) == (DataDirectory {
        rva: Rva(u32_at(b, o + 8 * i)),
        size: u32_at(b, o + 8 * i + 4),
    }) by {
        lemma_fours(ws, 2 * i);
        lemma_fours(ws, 2 * i + 1);
        assert(ws[2 * i] == 4 && ws[2 * i + 1] == 4);
        lemma_number(ws, r, 2 * i, 8 * i);
        lemma_number(ws, r, 2 * i + 1, 8 * i + 4);
        lemma_part(b, o, o + 128, 8 * i);
        lemma_part(b, o, o + 128, 8 * i + 4);
    }
}

/// The first `n` of fields that are all four bytes wide take `4 * n` bytes.
proof fn lemma_fours(ws: Seq<u8>, n: int)
    requires
        0 <= n <= ws.len(),
        ws == directories_fields(),
    ensures
        layout_size(ws.take(n)) == 4 * n,
    decreases n,
{
    if n > 0 {
        lemma_fours(ws, n - 1);
        assert(ws.take(n).drop_last() =~= ws.take(n - 1));
        assert(ws[n - 1] == 4);
    } else {
        assert(ws.take(0) =~= Seq::empty());
    }
}

/// Whether a byte string can be read as a PE file: the DOS header with its magic
/// and, where that points, the signature, the file header, an optional header of
/// a known kind with its sixteen directories, and the section headers.
pub open spec fn is_pe_file(b: Seq<u8>) -> bool {
    let pe = u32_at(b, 60) as int;
    let size = u16_at(b, pe + 20) as int;
    let magic = u16_at(b, pe + 24);
    let count = u16_at(b, pe + 6) as int;
    &&& b.len() >= 64
    &&& b[0] == 0x4d && b[1] == 0x5a
    &&& pe + 24 <= b.len()
    &&& b[pe] == 0x50 && b[pe + 1] == 0x45 && b[pe + 2] == 0 && b[pe + 3] == 0
    &&& size >= 96
    &&& (magic == 0x10b && pe + 248 <= b.len()) || (magic == 0x20b && pe + 264 <= b.len())
    &&& count > 0 ==> pe + 24 + size + 40 * count <= b.len()
}

/// Whether a section holds what the file holds for it: its raw bytes, cut or
/// zero-filled to its virtual size.
pub open spec fn section_is_loaded(s: SectionModel, b: Seq<u8>) -> bool {
    let at = s.header.pointer_to_raw_data.0 as int;
    let raw = s.header.size_of_raw_data as int;
    let size = s.header.virtual_size as int;
    let held = if at >= b.len() {
        0
    } else if at + raw <= b.len() {
        raw
    } else {
        b.len() - at
    };
    &&& s.data.len() == if size == 0 || (held < size && size > 0x1000_0000) {
        held
    } else {
        size
    }
    &&& forall|j: int|
        0 <= j < s.data.len() ==> #[trigger] s.data[j] == if j < held {
            b[at + j]
        } else {
            0
        }
}

proof fn lemma_section_loaded(b: Seq<u8>, h: SectionHeader)
    ensures
        section_is_loaded(section_of(b, h), b),
        section_of(b, h).header == h,
{
}

proof fn lemma_sections(b: Seq<u8>, o: nat, n: nat)
    ensures
        sections_at(b, o, n) is Ok <==> (n > 0 ==> o + 40 * n <= b.len()),
        sections_at(b, o, n) matches Ok(s) ==> s.len() == n && forall|i: int|
            0 <= i < n ==> section_header_stands((#[trigger] s[i]).header, b, o + 40 * i)
                && section_is_loaded(s[i], b),
    decreases n,
{
    if n > 0 {
        lemma_sections(b, o, (n - 1) as nat);
        lemma_section_size();
        if sections_at(b, o, n) is Ok {
            let at = o + 40 * (n - 1);
            lemma_section_fields(b, at);
            let h = section_header_of(decode_fields(section_fields(), b.subrange(at, at + 40)));
            lemma_section_loaded(b, h);
        }
    }
}

/// The parts that a file is read from, as far as they are there.
proof fn lemma_skeleton(b: Seq<u8>)
    ensures
        skeleton(b) is Ok <==> is_pe_file(b),
        skeleton(b) matches Ok(d) ==> ({
            let pe = u32_at(b, 60) as int;
            let size = u16_at(b, pe + 20) as int;
            &&& d.dos.e_lfanew == pe
            &&& d.coff == coff_of(decode_fields(coff_fields(), b.subrange(pe + 4, pe + 24)))
            &&& optional_at(b, (pe + 24) as nat, size as nat) matches Ok((optional, dirs))
                && d.optional == optional && d.data_directories == counted_directories(
                dirs,
                header_number_of_rva_and_sizes(optional),
            ) && d.arch == header_arch(optional)
            &&& sections_at(b, (pe + 24 + size) as nat, u16_at(b, pe + 6) as nat) matches Ok(s)
                && d.sections == s
        }),
{
    lemma_dos_size();
    lemma_coff_size();
    if b.len() >= 64 {
        lemma_dos_fields(b);
        let v = decode_fields(dos_fields(), b.subrange(0, 64));
        assert(v[0] == u16_at(b, 0));
        let pe = u32_at(b, 60) as int;
        assert(u16_at(b, 0) == 0x5a4d <==> b[0] == 0x4d && b[1] == 0x5a);
        if pe + 4 <= b.len() {
            let sig = b.subrange(pe, pe + 4);
            assert(sig[0] == b[pe] && sig[1] == b[pe + 1] && sig[2] == b[pe + 2] && sig[3] == b[pe
                + 3]);
            assert(sig =~= seq![80u8, 69u8, 0u8, 0u8] <==> b[pe] == 0x50 && b[pe + 1] == 0x45
                && b[pe + 2] == 0 && b[pe + 3] == 0);
            if pe + 24 <= b.len() {
                lemma_coff_fields(b, pe + 4);
                numbers_are_little_endian(b, pe + 24);
                lemma_sections(
                    b,
                    (pe + 24 + u16_at(b, pe + 20)) as nat,
                    u16_at(b, pe + 6) as nat,
                );
            }
        }
    }
}

/// A file is accepted if and only if its headers are all there and have the
/// marks of the format.
pub proof fn files_with_whole_headers_are_read(b: Seq<u8>)
    ensures
        parsed(b) is Ok <==> is_pe_file(b),
{
    lemma_skeleton(b);
}

/// The DOS header's sixteen-bit words stand one after the other from the
/// beginning of the file, the place of the signature at byte 60, and between
/// the header and the signature the stub.
pub proof fn dos_header_is_read_in_place(b: Seq<u8>)
    requires
        parsed(b) is Ok,
    ensures
        ({
            let dos = parsed(b)->Ok_0.dos;
            let pe = u32_at(b, 60);
            &&& dos.words.len() == 30
            &&& forall|i: int| 0 <= i < 30 ==> #[trigger] dos.words[i] == u16_at(b, 2 * i)
            &&& dos.e_lfanew == pe
            &&& dos.stub == if 64 <= pe < 0x8000_0000 {
                b.subrange(64, pe as int)
            } else {
                Seq::empty()
            }
        }),
{
    lemma_skeleton(b);
    lemma_dos_size();
    lemma_dos_fields(b);
    let v = decode_fields(dos_fields(), b.subrange(0, 64));
    let dos = parsed(b)->Ok_0.dos;
    assert forall|i: int| 0 <= i < 30 implies #[trigger] dos.words[i] == u16_at(b, 2 * i) by {
        assert(v[i] == u16_at(b, 2 * i));
    }
}

/// The file header stands behind the signature.
pub proof fn file_header_is_read_in_place(b: Seq<u8>)
    requires
        parsed(b) is Ok,
    ensures
        ({
            let pe = u32_at(b, 60) as int;
            parsed(b)->Ok_0.coff == (CoffHeader {
                machine: machine_of(u16_at(b, pe + 4)),
                number_of_sections: u16_at(b, pe + 6),
                time_date_stamp: u32_at(b, pe + 8),
                pointer_to_symbol_table: u32_at(b, pe + 12),
                number_of_symbols: u32_at(b, pe + 16),
                size_of_optional_header: u16_at(b, pe + 20),
                characteristics: u16_at(b, pe + 22),
            })
        }),
{
    lemma_skeleton(b);
    lemma_coff_fields(b, u32_at(b, 60) + 4);
}

/// The optional header stands behind the file header, and its magic says which
/// of the two kinds it is.
pub proof fn optional_header_is_read_in_place(b: Seq<u8>)
    requires
        parsed(b) is Ok,
    ensures
        ({
            let o = u32_at(b, 60) + 24;
            let d = parsed(b)->Ok_0;
            &&& u16_at(b, o) == 0x10b ==> d.arch == Arch::Bit32 && d.optional
                == OptionalHeader::Bit32(OptionalHeader32 {
                magic: u16_at(b, o),
                major_linker_version: b[o + 2],
                minor_linker_version: b[o + 3],
                size_of_code: u32_at(b, o + 4),
                size_of_initialized_data: u32_at(b, o + 8),
                size_of_uninitialized_data: u32_at(b, o + 12),
                address_of_entry_point: Rva(u32_at(b, o + 16)),
                base_of_code: Rva(u32_at(b, o + 20)),
                base_of_data: Rva(u32_at(b, o + 24)),
                image_base: u32_at(b, o + 28),
                section_alignment: u32_at(b, o + 32),
                file_alignment: u32_at(b, o + 36),
                major_operating_system_version: u16_at(b, o + 40),
                minor_operating_system_version: u16_at(b, o + 42),
                major_image_version: u16_at(b, o + 44),
                minor_image_version: u16_at(b, o + 46),
                major_subsystem_version: u16_at(b, o + 48),
                minor_subsystem_version: u16_at(b, o + 50),
                win32_version_value: u32_at(b, o + 52),
                size_of_image: u32_at(b, o + 56),
                size_of_headers: u32_at(b, o + 60),
                checksum: u32_at(b, o + 64),
                subsystem: u16_at(b, o + 68),
                dll_characteristics: u16_at(b, o + 70),
                size_of_stack_reserve: u32_at(b, o + 72),
                size_of_stack_commit: u32_at(b, o + 76),
                size_of_heap_reserve: u32_at(b, o + 80),
                size_of_heap_commit: u32_at(b, o + 84),
                loader_flags: u32_at(b, o + 88),
                number_of_rva_and_sizes: u32_at(b, o + 92),
            })
            &&& u16_at(b, o) == 0x20b ==> d.arch == Arch::Bit64 && d.optional
                == OptionalHeader::Bit64(OptionalHeader64 {
                magic: u16_at(b, o),
                major_linker_version: b[o + 2],
                minor_linker_version: b[o + 3],
                size_of_code: u32_at(b, o + 4),
                size_of_initialized_data: u32_at(b, o + 8),
                size_of_uninitialized_data: u32_at(b, o + 12),
                address_of_entry_point: Rva(u32_at(b, o + 16)),
                base_of_code: Rva(u32_at(b, o + 20)),
                image_base: u64_at(b, o + 24),
                section_alignment: u32_at(b, o + 32),
                file_alignment: u32_at(b, o + 36),
                major_operating_system_version: u16_at(b, o + 40),
                minor_operating_system_version: u16_at(b, o + 42),
                major_image_version: u16_at(b, o + 44),
                minor_image_version: u16_at(b, o + 46),
                major_subsystem_version: u16_at(b, o + 48),
                minor_subsystem_version: u16_at(b, o + 50),
                win32_version_value: u32_at(b, o + 52),
                size_of_image: u32_at(b, o + 56),
                size_of_headers: u32_at(b, o + 60),
                checksum: u32_at(b, o + 64),
                subsystem: u16_at(b, o + 68),
                dll_characteristics: u16_at(b, o + 70),
                size_of_stack_reserve: u64_at(b, o + 72),
                size_of_stack_commit: u64_at(b, o + 80),
                size_of_heap_reserve: u64_at(b, o + 88),
                size_of_heap_commit: u64_at(b, o + 96),
                loader_flags: u32_at(b, o + 104),
                number_of_rva_and_sizes: u32_at(b, o + 108),
            })
        }),
{
    lemma_skeleton(b);
    let o = u32_at(b, 60) + 24;
    numbers_are_little_endian(b, o);
    if u16_at(b, o) == 0x10b {
        lemma_optional32_fields(b, o);
    } else {
        lemma_optional64_fields(b, o);
    }
}

proof fn lemma_directories_at(b: Seq<u8>, o: int, size: nat, i: int)
    requires
        0 <= o,
        optional_at(b, o as nat, size) is Ok,
        0 <= i < 16,
    ensures
        ({
            let (h, dirs) = optional_at(b, o as nat, size)->Ok_0;
            let (at, count) = if u16_at(b, o) == 0x10b {
                (o + 96, u32_at(b, o + 92))
            } else {
                (o + 112, u32_at(b, o + 108))
            };
            &&& header_number_of_rva_and_sizes(h) == count
            &&& dirs[i] == DataDirectory {
                rva: Rva(u32_at(b, at + 8 * i)),
                size: u32_at(b, at + 8 * i + 4),
            }
        }),
{
    numbers_are_little_endian(b, o);
    if u16_at(b, o) == 0x10b {
        lemma_optional32_fields(b, o);
        lemma_directory_fields(b, o + 96);
        let r = b.subrange(o + 96, o + 96 + 128);
        assert(r == b.subrange(o + 96, o + 224));
        let dirs = directories_of(decode_fields(directories_fields(), r));
        assert(optional_at(b, o as nat, size)->Ok_0.1 == dirs);
        assert(dirs[i].rva.0 == u32_at(b, o + 96 + 8 * i));
    } else {
        lemma_optional64_fields(b, o);
        lemma_directory_fields(b, o + 112);
        let r = b.subrange(o + 112, o + 112 + 128);
        assert(r == b.subrange(o + 112, o + 240));
        let dirs = directories_of(decode_fields(directories_fields(), r));
        assert(optional_at(b, o as nat, size)->Ok_0.1 == dirs);
        assert(dirs[i].rva.0 == u32_at(b, o + 112 + 8 * i));
    }
}

/// The directory entries stand behind the fixed part of the optional header,
/// eight bytes each; those past the stated count are empty.
pub proof fn directories_are_read_in_place(b: Seq<u8>, i: int)
    requires
        parsed(b) is Ok,
        0 <= i < 16,
    ensures
        ({
            let o = u32_at(b, 60) + 24;
            let d = parsed(b)->Ok_0;
            let (at, count) = if u16_at(b, o) == 0x10b {
                (o + 96, u32_at(b, o + 92))
            } else {
                (o + 112, u32_at(b, o + 108))
            };
            &&& d.data_directories.len() == 16
            &&& d.data_directories[i].rva.0 == if i < count {
                u32_at(b, at + 8 * i)
            } else {
                0
            }
            &&& d.data_directories[i].size == if i < count {
                u32_at(b, at + 8 * i + 4)
            } else {
                0
            }
        }),
{
    lemma_skeleton(b);
    let pe = u32_at(b, 60);
    lemma_directories_at(b, pe + 24, u16_at(b, pe + 20) as nat, i);
    assert(empty_directory().rva.0 == 0 && empty_directory().size == 0);
}

/// The section headers stand behind the optional header, forty bytes each, and
/// every section holds the bytes that its header points at.
pub proof fn sections_are_read_in_place(b: Seq<u8>, i: int)
    requires
        parsed(b) is Ok,
    ensures
        ({
            let pe = u32_at(b, 60) as int;
            let s = parsed(b)->Ok_0.sections;
            &&& s.len() == u16_at(b, pe + 6)
            &&& 0 <= i < s.len() ==> section_header_stands(
                s[i].header,
                b,
                pe + 24 + u16_at(b, pe + 20) + 40 * i,
            ) && section_is_loaded(s[i], b)
        }),
{
    lemma_skeleton(b);
    let pe = u32_at(b, 60) as int;
    lemma_sections(b, (pe + 24 + u16_at(b, pe + 20)) as nat, u16_at(b, pe + 6) as nat);
}

/// The machines that have a name, by the number that stands in the file.
pub proof fn machines_by_number(v: u16)
    ensures
        machine_of(v) == Machine::I386 <==> v == 0x14c,
        machine_of(v) == Machine::Amd64 <==> v == 0x8664,
        machine_of(v) == Machine::Arm64 <==> v == 0xaa64,
        v != 0x14c && v != 0x8664 && v != 0xaa64 ==> machine_of(v) == Machine::Unknown(v),
{
}

} // verus!
