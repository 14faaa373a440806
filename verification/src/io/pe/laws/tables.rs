//! What the tables of an image say, wherever they come from: each number at
//! its place, byte by byte.

use crate::bytes::{decode_fields, layout_size, le_value, zeros};
use crate::domain::data_directory::{directory_slot, DataDirectory, DataDirectoryIndex};
use crate::domain::document::{
    covers, image_read, lemma_len32, lemma_locate, lemma_locate_is, DocModel,
};
use crate::domain::export::ExportSymbolModel;
use crate::domain::import::{ImportDescriptorModel, ImportFunctionModel};
use crate::domain::load_config::LoadConfigDirectory;
use crate::domain::relocation::{RelocationBlockModel, RelocationEntry};
use crate::domain::resource::{
    ResourceDataEntry, ResourceDataModel, ResourceEntryModel, ResourceNameModel,
};
use crate::domain::section::SectionModel;
use crate::domain::tls::TlsDirectory;
use crate::domain::types::{pointer_size, Arch, Rva};
use crate::io::pe::decode::{
    cstring, cstring_from, descriptor_thunks, export_symbol, export_symbols, exports_at, exports_of,
    import_step, imports_from, imports_of, load_config_at, load_config_extent, load_config_in,
    reloc_entries, reloc_extent, relocations_of, relocs_from, resource_entries, resource_name_at,
    resources_at, resources_of, table_entry, thunk_function, thunks_from, tls_at, tls_in, units_of,
    ImportStep, MAX_RESOURCE_DEPTH,
};
use crate::io::pe::laws::format::{lemma_number, numbers_are_little_endian, u16_at, u32_at, u64_at};
use crate::io::pe::layout::{
    export_fields, import_fields, lemma_export_size, lemma_import_size, lemma_load_config32_size,
    lemma_load_config64_size, lemma_reloc_size, lemma_resource_data_size, lemma_resource_dir_size,
    lemma_resource_entry_size, lemma_tls32_size, lemma_tls64_size, load_config32_fields,
    load_config64_fields, reloc_fields, resource_data_fields, resource_dir_fields,
    resource_entry_fields, tls32_fields, tls64_fields,
};
use crate::text::{utf16_decode, utf8_text};
use vstd::prelude::*;

verus! {

/// Whether the bytes of a section take up the address `r`.
pub open spec fn holds(s: SectionModel, r: u32) -> bool {
    s.header.virtual_address.0 <= r < s.header.virtual_address.0 + s.data.len() && r < u32::MAX
}

/// Reading an image gives the bytes of the first section that takes up the
/// address, as far from its beginning as the address is from the section's. It
/// fails where no section does, and where the section ends too early.
pub proof fn reads_come_from_the_first_section(
    sections: Seq<SectionModel>,
    r: u32,
    n: nat,
    i: int,
)
    requires
        forall|j: int| 0 <= j < sections.len() ==> (#[trigger] sections[j]).data.len() <= u32::MAX,
    ensures
        (forall|j: int| 0 <= j < sections.len() ==> !holds(#[trigger] sections[j], r))
            ==> image_read(sections, r, n) is None,
        0 <= i < sections.len() && holds(sections[i], r) && (forall|j: int|
            0 <= j < i ==> !holds(#[trigger] sections[j], r)) ==> image_read(sections, r, n) == ({
            let at = r - sections[i].header.virtual_address.0;
            if at + n <= sections[i].data.len() {
                Some(sections[i].data.subrange(at, at + n))
            } else {
                None
            }
        }),
{
    assert forall|j: int| 0 <= j < sections.len() implies covers(#[trigger] sections[j], r)
        == holds(sections[j], r) by {
        lemma_len32(sections[j]);
    }
    lemma_locate(sections, r);
    if 0 <= i < sections.len() && holds(sections[i], r) && (forall|j: int|
        0 <= j < i ==> !holds(#[trigger] sections[j], r)) {
        assert forall|j: int| 0 <= j < i implies !covers(sections[j], r) by {
            assert(!holds(sections[j], r));
        }
        assert(covers(sections[i], r));
        lemma_locate_is(sections, r, i);
    }
}

/// The 16-bit number at an address of an image.
pub open spec fn image_u16(sections: Seq<SectionModel>, r: int) -> Option<u16> {
    if r > u32::MAX {
        None
    } else {
        match image_read(sections, r as u32, 2) {
            Some(b) => Some(u16_at(b, 0)),
            None => None,
        }
    }
}

/// The 32-bit number at an address of an image.
pub open spec fn image_u32(sections: Seq<SectionModel>, r: int) -> Option<u32> {
    if r > u32::MAX {
        None
    } else {
        match image_read(sections, r as u32, 4) {
            Some(b) => Some(u32_at(b, 0)),
            None => None,
        }
    }
}

/// The pointer at an address of an image.
pub open spec fn image_pointer(sections: Seq<SectionModel>, r: int, ps: nat) -> Option<u64> {
    if r > u32::MAX {
        None
    } else {
        match image_read(sections, r as u32, ps) {
            Some(b) => Some(
                if ps == 8 {
                    u64_at(b, 0)
                } else {
                    u32_at(b, 0) as u64
                },
            ),
            None => None,
        }
    }
}

proof fn lemma_read_len(sections: Seq<SectionModel>, r: u32, n: nat)
    ensures
        image_read(sections, r, n) matches Some(b) ==> {
            &&& b.len() == n
            &&& n == 2 ==> le_value(b) == u16_at(b, 0)
            &&& n == 4 ==> le_value(b) == u32_at(b, 0)
            &&& n == 8 ==> le_value(b) == u64_at(b, 0)
        },
{
    if let Some(b) = image_read(sections, r, n) {
        lemma_locate(sections, r);
        numbers_are_little_endian(b, 0);
        assert(b.subrange(0, n as int) =~= b);
    }
}

pub proof fn lemma_export_numbers(b: Seq<u8>)
    requires
        b.len() >= 40,
    ensures
        layout_size(export_fields()) == 40,
        ({
            let v = decode_fields(export_fields(), b);
            &&& v.len() == 11
            &&& v[0] == u32_at(b, 0)
            &&& v[1] == u32_at(b, 4)
            &&& v[2] == u16_at(b, 8)
            &&& v[3] == u16_at(b, 10)
            &&& v[4] == u32_at(b, 12)
            &&& v[5] == u32_at(b, 16)
            &&& v[6] == u32_at(b, 20)
            &&& v[7] == u32_at(b, 24)
            &&& v[8] == u32_at(b, 28)
            &&& v[9] == u32_at(b, 32)
            &&& v[10] == u32_at(b, 36)
        }),
{
    let ws = export_fields();
    lemma_export_size();
    assert(ws.take(0) =~= Seq::empty());
    lemma_number(ws, b, 0, 0);
    lemma_number(ws, b, 1, 4);
    lemma_number(ws, b, 2, 8);
    lemma_number(ws, b, 3, 10);
    lemma_number(ws, b, 4, 12);
    lemma_number(ws, b, 5, 16);
    lemma_number(ws, b, 6, 20);
    lemma_number(ws, b, 7, 24);
    lemma_number(ws, b, 8, 28);
    lemma_number(ws, b, 9, 32);
    lemma_number(ws, b, 10, 36);
}

pub proof fn lemma_import_numbers(b: Seq<u8>)
    requires
        b.len() >= 20,
    ensures
        layout_size(import_fields()) == 20,
        ({
            let v = decode_fields(import_fields(), b);
            &&& v.len() == 5
            &&& v[0] == u32_at(b, 0)
            &&& v[1] == u32_at(b, 4)
            &&& v[2] == u32_at(b, 8)
            &&& v[3] == u32_at(b, 12)
            &&& v[4] == u32_at(b, 16)
        }),
{
    let ws = import_fields();
    lemma_import_size();
    assert(ws.take(0) =~= Seq::empty());
    lemma_number(ws, b, 0, 0);
    lemma_number(ws, b, 1, 4);
    lemma_number(ws, b, 2, 8);
    lemma_number(ws, b, 3, 12);
    lemma_number(ws, b, 4, 16);
}

pub proof fn lemma_resource_dir_numbers(b: Seq<u8>)
    requires
        b.len() >= 16,
    ensures
        layout_size(resource_dir_fields()) == 16,
        ({
            let v = decode_fields(resource_dir_fields(), b);
            &&& v.len() == 6
            &&& v[0] == u32_at(b, 0)
            &&& v[1] == u32_at(b, 4)
            &&& v[2] == u16_at(b, 8)
            &&& v[3] == u16_at(b, 10)
            &&& v[4] == u16_at(b, 12)
            &&& v[5] == u16_at(b, 14)
        }),
{
    let ws = resource_dir_fields();
    lemma_resource_dir_size();
    assert(ws.take(0) =~= Seq::empty());
    lemma_number(ws, b, 0, 0);
    lemma_number(ws, b, 1, 4);
    lemma_number(ws, b, 2, 8);
    lemma_number(ws, b, 3, 10);
    lemma_number(ws, b, 4, 12);
    lemma_number(ws, b, 5, 14);
}

proof fn lemma_resource_entry_numbers(b: Seq<u8>)
    requires
        b.len() >= 8,
    ensures
        layout_size(resource_entry_fields()) == 8,
        ({
            let v = decode_fields(resource_entry_fields(), b);
            &&& v.len() == 2
            &&& v[0] == u32_at(b, 0)
            &&& v[1] == u32_at(b, 4)
        }),
{
    let ws = resource_entry_fields();
    lemma_resource_entry_size();
    assert(ws.take(0) =~= Seq::empty());
    lemma_number(ws, b, 0, 0);
    lemma_number(ws, b, 1, 4);
}

proof fn lemma_resource_data_numbers(b: Seq<u8>)
    requires
        b.len() >= 16,
    ensures
        layout_size(resource_data_fields()) == 16,
        ({
            let v = decode_fields(resource_data_fields(), b);
            &&& v.len() == 4
            &&& v[0] == u32_at(b, 0)
            &&& v[1] == u32_at(b, 4)
            &&& v[2] == u32_at(b, 8)
            &&& v[3] == u32_at(b, 12)
        }),
{
    let ws = resource_data_fields();
    lemma_resource_data_size();
    assert(ws.take(0) =~= Seq::empty());
    lemma_number(ws, b, 0, 0);
    lemma_number(ws, b, 1, 4);
    lemma_number(ws, b, 2, 8);
    lemma_number(ws, b, 3, 12);
}

proof fn lemma_reloc_numbers(b: Seq<u8>)
    requires
        b.len() >= 8,
    ensures
        layout_size(reloc_fields()) == 8,
        ({
            let v = decode_fields(reloc_fields(), b);
            &&& v.len() == 2
            &&& v[0] == u32_at(b, 0)
            &&& v[1] == u32_at(b, 4)
        }),
{
    let ws = reloc_fields();
    lemma_reloc_size();
    assert(ws.take(0) =~= Seq::empty());
    lemma_number(ws, b, 0, 0);
    lemma_number(ws, b, 1, 4);
}

proof fn lemma_tls32_numbers(b: Seq<u8>)
    requires
        b.len() >= 24,
    ensures
        layout_size(tls32_fields()) == 24,
        ({
            let v = decode_fields(tls32_fields(), b);
            &&& v.len() == 6
            &&& v[0] == u32_at(b, 0)
            &&& v[1] == u32_at(b, 4)
            &&& v[2] == u32_at(b, 8)
            &&& v[3] == u32_at(b, 12)
            &&& v[4] == u32_at(b, 16)
            &&& v[5] == u32_at(b, 20)
        }),
{
    let ws = tls32_fields();
    lemma_tls32_size();
    assert(ws.take(0) =~= Seq::empty());
    lemma_number(ws, b, 0, 0);
    lemma_number(ws, b, 1, 4);
    lemma_number(ws, b, 2, 8);
    lemma_number(ws, b, 3, 12);
    lemma_number(ws, b, 4, 16);
    lemma_number(ws, b, 5, 20);
}

proof fn lemma_tls64_numbers(b: Seq<u8>)
    requires
        b.len() >= 40,
    ensures
        layout_size(tls64_fields()) == 40,
        ({
            let v = decode_fields(tls64_fields(), b);
            &&& v.len() == 6
            &&& v[0] == u64_at(b, 0)
            &&& v[1] == u64_at(b, 8)
            &&& v[2] == u64_at(b, 16)
            &&& v[3] == u64_at(b, 24)
            &&& v[4] == u32_at(b, 32)
            &&& v[5] == u32_at(b, 36)
        }),
{
    let ws = tls64_fields();
    lemma_tls64_size();
    assert(ws.take(0) =~= Seq::empty());
    lemma_number(ws, b, 0, 0);
    lemma_number(ws, b, 1, 8);
    lemma_number(ws, b, 2, 16);
    lemma_number(ws, b, 3, 24);
    lemma_number(ws, b, 4, 32);
    lemma_number(ws, b, 5, 36);
}

proof fn lemma_load_config32_numbers(b: Seq<u8>)
    requires
        b.len() >= 192,
    ensures
        layout_size(load_config32_fields()) == 192,
        ({
            let v = decode_fields(load_config32_fields(), b);
            &&& v.len() == 52
            &&& v[0] == u32_at(b, 0)
            &&& v[1] == u32_at(b, 4)
            &&& v[2] == u16_at(b, 8)
            &&& v[3] == u16_at(b, 10)
            &&& v[4] == u32_at(b, 12)
            &&& v[5] == u32_at(b, 16)
            &&& v[6] == u32_at(b, 20)
            &&& v[7] == u32_at(b, 24)
            &&& v[8] == u32_at(b, 28)
            &&& v[9] == u32_at(b, 32)
            &&& v[10] == u32_at(b, 36)
            &&& v[11] == u32_at(b, 40)
            &&& v[12] == u32_at(b, 44)
            &&& v[13] == u32_at(b, 48)
            &&& v[14] == u16_at(b, 52)
            &&& v[15] == u16_at(b, 54)
            &&& v[16] == u32_at(b, 56)
            &&& v[17] == u32_at(b, 60)
            &&& v[18] == u32_at(b, 64)
            &&& v[19] == u32_at(b, 68)
            &&& v[20] == u32_at(b, 72)
            &&& v[21] == u32_at(b, 76)
            &&& v[22] == u32_at(b, 80)
            &&& v[23] == u32_at(b, 84)
            &&& v[24] == u32_at(b, 88)
            &&& v[25] == u16_at(b, 92)
            &&& v[26] == u16_at(b, 94)
            &&& v[27] == u32_at(b, 96)
            &&& v[28] == u32_at(b, 100)
            &&& v[29] == u32_at(b, 104)
            &&& v[30] == u32_at(b, 108)
            &&& v[31] == u32_at(b, 112)
            &&& v[32] == u32_at(b, 116)
            &&& v[33] == u32_at(b, 120)
            &&& v[34] == u32_at(b, 124)
            &&& v[35] == u32_at(b, 128)
            &&& v[36] == u32_at(b, 132)
            &&& v[37] == u32_at(b, 136)
            &&& v[38] == u16_at(b, 140)
            &&& v[39] == u16_at(b, 142)
            &&& v[40] == u32_at(b, 144)
            &&& v[41] == u32_at(b, 148)
            &&& v[42] == u32_at(b, 152)
            &&& v[43] == u32_at(b, 156)
            &&& v[44] == u32_at(b, 160)
            &&& v[45] == u32_at(b, 164)
            &&& v[46] == u32_at(b, 168)
            &&& v[47] == u32_at(b, 172)
            &&& v[48] == u32_at(b, 176)
            &&& v[49] == u32_at(b, 180)
            &&& v[50] == u32_at(b, 184)
            &&& v[51] == u32_at(b, 188)
        }),
{
    let ws = load_config32_fields();
    lemma_load_config32_size();
    assert(ws.take(0) =~= Seq::empty());
    lemma_number(ws, b, 0, 0);
    lemma_number(ws, b, 1, 4);
    lemma_number(ws, b, 2, 8);
    lemma_number(ws, b, 3, 10);
    lemma_number(ws, b, 4, 12);
    lemma_number(ws, b, 5, 16);
    lemma_number(ws, b, 6, 20);
    lemma_number(ws, b, 7, 24);
    lemma_number(ws, b, 8, 28);
    lemma_number(ws, b, 9, 32);
    lemma_number(ws, b, 10, 36);
    lemma_number(ws, b, 11, 40);
    lemma_number(ws, b, 12, 44);
    lemma_number(ws, b, 13, 48);
    lemma_number(ws, b, 14, 52);
    lemma_number(ws, b, 15, 54);
    lemma_number(ws, b, 16, 56);
    lemma_number(ws, b, 17, 60);
    lemma_number(ws, b, 18, 64);
    lemma_number(ws, b, 19, 68);
    lemma_number(ws, b, 20, 72);
    lemma_number(ws, b, 21, 76);
    lemma_number(ws, b, 22, 80);
    lemma_number(ws, b, 23, 84);
    lemma_number(ws, b, 24, 88);
    lemma_number(ws, b, 25, 92);
    lemma_number(ws, b, 26, 94);
    lemma_number(ws, b, 27, 96);
    lemma_number(ws, b, 28, 100);
    lemma_number(ws, b, 29, 104);
    lemma_number(ws, b, 30, 108);
    lemma_number(ws, b, 31, 112);
    lemma_number(ws, b, 32, 116);
    lemma_number(ws, b, 33, 120);
    lemma_number(ws, b, 34, 124);
    lemma_number(ws, b, 35, 128);
    lemma_number(ws, b, 36, 132);
    lemma_number(ws, b, 37, 136);
    lemma_number(ws, b, 38, 140);
    lemma_number(ws, b, 39, 142);
    lemma_number(ws, b, 40, 144);
    lemma_number(ws, b, 41, 148);
    lemma_number(ws, b, 42, 152);
    lemma_number(ws, b, 43, 156);
    lemma_number(ws, b, 44, 160);
    lemma_number(ws, b, 45, 164);
    lemma_number(ws, b, 46, 168);
    lemma_number(ws, b, 47, 172);
    lemma_number(ws, b, 48, 176);
    lemma_number(ws, b, 49, 180);
    lemma_number(ws, b, 50, 184);
    lemma_number(ws, b, 51, 188);
}

proof fn lemma_load_config64_numbers(b: Seq<u8>)
    requires
        b.len() >= 320,
    ensures
        layout_size(load_config64_fields()) == 320,
        ({
            let v = decode_fields(load_config64_fields(), b);
            &&& v.len() == 52
            &&& v[0] == u32_at(b, 0)
            &&& v[1] == u32_at(b, 4)
            &&& v[2] == u16_at(b, 8)
            &&& v[3] == u16_at(b, 10)
            &&& v[4] == u32_at(b, 12)
            &&& v[5] == u32_at(b, 16)
            &&& v[6] == u32_at(b, 20)
            &&& v[7] == u64_at(b, 24)
            &&& v[8] == u64_at(b, 32)
            &&& v[9] == u64_at(b, 40)
            &&& v[10] == u64_at(b, 48)
            &&& v[11] == u64_at(b, 56)
            &&& v[12] == u64_at(b, 64)
            &&& v[13] == u32_at(b, 72)
            &&& v[14] == u16_at(b, 76)
            &&& v[15] == u16_at(b, 78)
            &&& v[16] == u64_at(b, 80)
            &&& v[17] == u64_at(b, 88)
            &&& v[18] == u64_at(b, 96)
            &&& v[19] == u64_at(b, 104)
            &&& v[20] == u64_at(b, 112)
            &&& v[21] == u64_at(b, 120)
            &&& v[22] == u64_at(b, 128)
            &&& v[23] == u64_at(b, 136)
            &&& v[24] == u32_at(b, 144)
            &&& v[25] == u16_at(b, 148)
            &&& v[26] == u16_at(b, 150)
            &&& v[27] == u32_at(b, 152)
            &&& v[28] == u32_at(b, 156)
            &&& v[29] == u64_at(b, 160)
            &&& v[30] == u64_at(b, 168)
            &&& v[31] == u64_at(b, 176)
            &&& v[32] == u64_at(b, 184)
            &&& v[33] == u64_at(b, 192)
            &&& v[34] == u64_at(b, 200)
            &&& v[35] == u64_at(b, 208)
            &&& v[36] == u64_at(b, 216)
            &&& v[37] == u32_at(b, 224)
            &&& v[38] == u16_at(b, 228)
            &&& v[39] == u16_at(b, 230)
            &&& v[40] == u64_at(b, 232)
            &&& v[41] == u32_at(b, 240)
            &&& v[42] == u32_at(b, 244)
            &&& v[43] == u64_at(b, 248)
            &&& v[44] == u64_at(b, 256)
            &&& v[45] == u64_at(b, 264)
            &&& v[46] == u64_at(b, 272)
            &&& v[47] == u64_at(b, 280)
            &&& v[48] == u64_at(b, 288)
            &&& v[49] == u64_at(b, 296)
            &&& v[50] == u64_at(b, 304)
            &&& v[51] == u64_at(b, 312)
        }),
{
    let ws = load_config64_fields();
    lemma_load_config64_size();
    assert(ws.take(0) =~= Seq::empty());
    lemma_number(ws, b, 0, 0);
    lemma_number(ws, b, 1, 4);
    lemma_number(ws, b, 2, 8);
    lemma_number(ws, b, 3, 10);
    lemma_number(ws, b, 4, 12);
    lemma_number(ws, b, 5, 16);
    lemma_number(ws, b, 6, 20);
    lemma_number(ws, b, 7, 24);
    lemma_number(ws, b, 8, 32);
    lemma_number(ws, b, 9, 40);
    lemma_number(ws, b, 10, 48);
    lemma_number(ws, b, 11, 56);
    lemma_number(ws, b, 12, 64);
    lemma_number(ws, b, 13, 72);
    lemma_number(ws, b, 14, 76);
    lemma_number(ws, b, 15, 78);
    lemma_number(ws, b, 16, 80);
    lemma_number(ws, b, 17, 88);
    lemma_number(ws, b, 18, 96);
    lemma_number(ws, b, 19, 104);
    lemma_number(ws, b, 20, 112);
    lemma_number(ws, b, 21, 120);
    lemma_number(ws, b, 22, 128);
    lemma_number(ws, b, 23, 136);
    lemma_number(ws, b, 24, 144);
    lemma_number(ws, b, 25, 148);
    lemma_number(ws, b, 26, 150);
    lemma_number(ws, b, 27, 152);
    lemma_number(ws, b, 28, 156);
    lemma_number(ws, b, 29, 160);
    lemma_number(ws, b, 30, 168);
    lemma_number(ws, b, 31, 176);
    lemma_number(ws, b, 32, 184);
    lemma_number(ws, b, 33, 192);
    lemma_number(ws, b, 34, 200);
    lemma_number(ws, b, 35, 208);
    lemma_number(ws, b, 36, 216);
    lemma_number(ws, b, 37, 224);
    lemma_number(ws, b, 38, 228);
    lemma_number(ws, b, 39, 230);
    lemma_number(ws, b, 40, 232);
    lemma_number(ws, b, 41, 240);
    lemma_number(ws, b, 42, 244);
    lemma_number(ws, b, 43, 248);
    lemma_number(ws, b, 44, 256);
    lemma_number(ws, b, 45, 264);
    lemma_number(ws, b, 46, 272);
    lemma_number(ws, b, 47, 280);
    lemma_number(ws, b, 48, 288);
    lemma_number(ws, b, 49, 296);
    lemma_number(ws, b, 50, 304);
    lemma_number(ws, b, 51, 312);
}

/// Whether `b` is the text that begins at `r`: it holds no NUL, stands there
/// byte by byte, and a NUL follows within 4096 bytes.
pub open spec fn text_stands(sections: Seq<SectionModel>, r: u32, b: Seq<u8>) -> bool {
    &&& b.len() < 4096
    &&& r + b.len() <= u32::MAX
    &&& forall|i: int|
        0 <= i < b.len() ==> #[trigger] b[i] != 0 && image_read(sections, (r + i) as u32, 1)
            == Some(seq![b[i]])
    &&& image_read(sections, (r + b.len()) as u32, 1) == Some(seq![0u8])
}

proof fn lemma_one(sections: Seq<SectionModel>, r: u32)
    ensures
        image_read(sections, r, 1) matches Some(x) ==> x == seq![x[0]],
{
    lemma_read_len(sections, r, 1);
    if let Some(x) = image_read(sections, r, 1) {
        assert(x =~= seq![x[0]]);
    }
}

proof fn lemma_text_from(sections: Seq<SectionModel>, r: u32, i: nat)
    ensures
        cstring_from(sections, r, i) matches Some(b) ==> {
            &&& i + b.len() < 4096
            &&& r + i + b.len() <= u32::MAX
            &&& forall|k: int|
                0 <= k < b.len() ==> #[trigger] b[k] != 0 && image_read(
                    sections,
                    (r + i + k) as u32,
                    1,
                ) == Some(seq![b[k]])
            &&& image_read(sections, (r + i + b.len()) as u32, 1) == Some(seq![0u8])
        },
    decreases 4096 - i,
{
    if i < 4096 && r + i <= u32::MAX {
        lemma_one(sections, (r + i) as u32);
        if let Some(x) = image_read(sections, (r + i) as u32, 1) {
            if x[0] != 0 {
                lemma_text_from(sections, r, i + 1);
                if let Some(rest) = cstring_from(sections, r, i + 1) {
                    let b = seq![x[0]] + rest;
                    assert forall|k: int| 0 <= k < b.len() implies #[trigger] b[k] != 0
                        && image_read(sections, (r + i + k) as u32, 1) == Some(seq![b[k]]) by {
                        if k > 0 {
                            assert(b[k] == rest[k - 1]);
                            assert(r + i + k == r + (i + 1) + (k - 1));
                        }
                    }
                }
            }
        }
    }
}

proof fn lemma_text_is(sections: Seq<SectionModel>, r: u32, b: Seq<u8>, i: nat)
    requires
        text_stands(sections, r, b),
        i <= b.len(),
    ensures
        cstring_from(sections, r, i) == Some(b.skip(i as int)),
    decreases b.len() - i,
{
    if i < b.len() {
        lemma_text_is(sections, r, b, i + 1);
        assert(b[i as int] != 0);
        let x = seq![b[i as int]];
        assert(x[0] == b[i as int]);
        assert(x + b.skip((i + 1) as int) =~= b.skip(i as int));
    } else {
        let x = seq![0u8];
        assert(x[0] == 0);
        assert(b.skip(i as int) =~= Seq::empty());
    }
}

/// A text is read up to its NUL: exactly the bytes that stand before it.
pub proof fn texts_end_at_their_nul(sections: Seq<SectionModel>, r: u32, b: Seq<u8>)
    ensures
        text_stands(sections, r, b) ==> cstring(sections, r) == Some(utf8_text(b)),
        cstring(sections, r) is Some ==> exists|x: Seq<u8>| #[trigger]
            text_stands(sections, r, x) && cstring(sections, r) == Some(utf8_text(x)),
{
    if text_stands(sections, r, b) {
        lemma_text_is(sections, r, b, 0);
        assert(b.skip(0) =~= b);
    }
    lemma_text_from(sections, r, 0);
    if let Some(x) = cstring_from(sections, r, 0) {
        assert(text_stands(sections, r, x));
    }
}

/// The directory entries by name.
pub proof fn directories_by_number(d: DataDirectoryIndex)
    ensures
        directory_slot(d) == match d {
            DataDirectoryIndex::Export => 0int,
            DataDirectoryIndex::Import => 1,
            DataDirectoryIndex::Resource => 2,
            DataDirectoryIndex::Exception => 3,
            DataDirectoryIndex::Security => 4,
            DataDirectoryIndex::BaseReloc => 5,
            DataDirectoryIndex::Debug => 6,
            DataDirectoryIndex::Architecture => 7,
            DataDirectoryIndex::GlobalPtr => 8,
            DataDirectoryIndex::Tls => 9,
            DataDirectoryIndex::LoadConfig => 10,
            DataDirectoryIndex::BoundImport => 11,
            DataDirectoryIndex::Iat => 12,
            DataDirectoryIndex::DelayImport => 13,
            DataDirectoryIndex::ComDescriptor => 14,
        },
{
}

/// The tables of a document are those that its directory entries point at; one
/// whose entry is missing or has address 0 is not there.
pub proof fn tables_are_where_directories_point(d: DocModel)
    ensures
        ({
            let dirs = d.data_directories;
            let there = |i: int| i < dirs.len() && dirs[i].rva.0 != 0;
            let ps = pointer_size(d.arch);
            &&& exports_of(d) == if there(0) {
                exports_at(d.sections, dirs[0])
            } else {
                None
            }
            &&& imports_of(d) == if there(1) && imports_from(
                d.sections,
                dirs[1].rva.0 as int,
                ps,
            ) is Some {
                imports_from(d.sections, dirs[1].rva.0 as int, ps)->0
            } else {
                Seq::empty()
            }
            &&& resources_of(d) == if there(2) {
                resources_at(d.sections, dirs[2].rva.0, dirs[2].rva.0, 0)
            } else {
                None
            }
            &&& relocations_of(d) == if there(5) {
                relocs_from(d.sections, dirs[5], 0)
            } else {
                None
            }
            &&& tls_in(d) == if there(9) {
                tls_at(d.sections, d.arch, dirs[9])
            } else {
                None
            }
            &&& load_config_in(d) == if there(10) {
                load_config_at(d.sections, d.arch, dirs[10])
            } else {
                None
            }
        }),
{
}

proof fn lemma_entry(sections: Seq<SectionModel>, r: u32, i: nat)
    ensures
        table_entry(sections, r, i, 4) == match image_u32(sections, r + 4 * i) {
            Some(v) => Some(v as nat),
            None => None,
        },
        table_entry(sections, r, i, 2) == match image_u16(sections, r + 2 * i) {
            Some(v) => Some(v as nat),
            None => None,
        },
{
    if r + 4 * i <= u32::MAX {
        lemma_read_len(sections, (r + 4 * i) as u32, 4);
    }
    if r + 2 * i <= u32::MAX {
        lemma_read_len(sections, (r + 2 * i) as u32, 2);
    }
}

/// Name entry `i` of the export directory whose header is `h`: where its name
/// stands, and which function it names.
pub open spec fn export_name_at(sections: Seq<SectionModel>, h: Seq<u8>, i: int) -> Option<u32> {
    image_u32(sections, u32_at(h, 32) + 4 * i)
}

pub open spec fn export_index_at(sections: Seq<SectionModel>, h: Seq<u8>, i: int) -> Option<u16> {
    image_u16(sections, u32_at(h, 36) + 2 * i)
}

/// The address of function `k`.
pub open spec fn export_address_at(sections: Seq<SectionModel>, h: Seq<u8>, k: int) -> Option<u32> {
    image_u32(sections, u32_at(h, 28) + 4 * k)
}

/// Whether an address lies in the export directory itself.
pub open spec fn in_directory(dd: DataDirectory, r: u32) -> bool {
    dd.rva.0 <= r < dd.rva.0 + dd.size && r < u32::MAX
}

/// Whether name entry `i` can be read with everything that it leads to.
pub open spec fn export_readable(
    sections: Seq<SectionModel>,
    dd: DataDirectory,
    h: Seq<u8>,
    i: int,
) -> bool {
    &&& export_name_at(sections, h, i) matches Some(n) && cstring(sections, n) is Some
    &&& export_index_at(sections, h, i) matches Some(k) && (export_address_at(
        sections,
        h,
        k as int,
    ) matches Some(f) && (in_directory(dd, f) ==> cstring(sections, f) is Some))
}

/// Whether `s` is the symbol of name entry `i`: its name is the text that the
/// name table points at; the number `k` beside it in the ordinal table picks
/// its address and, counted from the base, its ordinal.
pub open spec fn is_export(
    s: ExportSymbolModel,
    sections: Seq<SectionModel>,
    dd: DataDirectory,
    h: Seq<u8>,
    i: int,
) -> bool {
    let k = export_index_at(sections, h, i)->0;
    let f = export_address_at(sections, h, k as int)->0;
    &&& s.name == cstring(sections, export_name_at(sections, h, i)->0)
    &&& s.rva.0 == f
    &&& s.ordinal as int == if u32_at(h, 16) + k <= u32::MAX {
        (u32_at(h, 16) + k) % 0x1_0000
    } else {
        0
    }
    &&& s.forwarder == if in_directory(dd, f) {
        cstring(sections, f)
    } else {
        None
    }
}

proof fn lemma_export(sections: Seq<SectionModel>, dd: DataDirectory, h: Seq<u8>, i: nat)
    requires
        h.len() == 40,
    ensures
        ({
            let d = decode_fields(export_fields(), h);
            let s = export_symbol(sections, dd, d, i);
            &&& s is Some <==> export_readable(sections, dd, h, i as int)
            &&& s is Some ==> is_export(s->0, sections, dd, h, i as int)
        }),
{
    let d = decode_fields(export_fields(), h);
    lemma_export_numbers(h);
    lemma_entry(sections, d[9] as u32, i);
    lemma_entry(sections, d[10] as u32, i);
    if let Some(k) = export_index_at(sections, h, i as int) {
        lemma_entry(sections, d[8] as u32, k as nat);
        let n = (u32_at(h, 16) + k) as u32;
        assert((n as u16) as int == n as int % 0x1_0000) by (bit_vector);
    }
}

proof fn lemma_exports(sections: Seq<SectionModel>, dd: DataDirectory, h: Seq<u8>, n: nat)
    requires
        h.len() == 40,
    ensures
        ({
            let s = export_symbols(sections, dd, decode_fields(export_fields(), h), n);
            &&& s is Some <==> forall|i: int|
                0 <= i < n ==> #[trigger] export_readable(sections, dd, h, i)
            &&& s is Some ==> s->0.len() == n && forall|i: int|
                0 <= i < n ==> is_export(#[trigger] s->0[i], sections, dd, h, i)
        }),
    decreases n,
{
    if n > 0 {
        lemma_exports(sections, dd, h, (n - 1) as nat);
        lemma_export(sections, dd, h, (n - 1) as nat);
    }
}

/// What an export directory says, whoever wrote it: its base, its counts, the
/// name of the module, and for every entry of the name table a symbol with the
/// ordinal and the address that the number beside it in the ordinal table picks,
/// whatever order the names stand in. It is read if and only if all of this can
/// be.
pub proof fn export_names_pick_their_functions(sections: Seq<SectionModel>, dd: DataDirectory)
    ensures
        ({
            let h = image_read(sections, dd.rva.0, 40);
            &&& exports_at(sections, dd) is Some <==> h is Some && forall|i: int|
                0 <= i < u32_at(h->0, 24) ==> #[trigger] export_readable(sections, dd, h->0, i)
            &&& exports_at(sections, dd) matches Some(t) ==> {
                &&& t.module_name == cstring(sections, u32_at(h->0, 12))
                &&& t.base == u32_at(h->0, 16)
                &&& t.number_of_functions == u32_at(h->0, 20)
                &&& t.symbols.len() == u32_at(h->0, 24)
                &&& forall|i: int|
                    0 <= i < t.symbols.len() ==> is_export(
                        #[trigger] t.symbols[i],
                        sections,
                        dd,
                        h->0,
                        i,
                    )
            }
        }),
{
    lemma_export_size();
    lemma_read_len(sections, dd.rva.0, 40);
    if let Some(h) = image_read(sections, dd.rva.0, 40) {
        lemma_export_numbers(h);
        lemma_exports(sections, dd, h, u32_at(h, 24) as nat);
    }
}

/// What the pointer `v` in an import table stands for: with its top bit set, an
/// ordinal in its low sixteen bits; without it, the address of a hint and a name.
pub open spec fn is_import(
    f: ImportFunctionModel,
    sections: Seq<SectionModel>,
    ps: nat,
    v: u64,
) -> bool {
    let top = if ps == 8 {
        0x8000_0000_0000_0000u64
    } else {
        0x8000_0000u64
    };
    let r = v as int % 0x1_0000_0000;
    if v >= top {
        f matches ImportFunctionModel::Ordinal(n) && n as int == v as int % 0x1_0000
    } else {
        f matches ImportFunctionModel::Name(hint, name) && image_u16(sections, r) == Some(hint)
            && r + 2 <= u32::MAX && cstring(sections, (r + 2) as u32) == Some(name)
    }
}

proof fn lemma_import(sections: Seq<SectionModel>, ps: nat, v: u64)
    ensures
        thunk_function(sections, v as nat, ps) matches Some(f) ==> is_import(f, sections, ps, v),
        v < (if ps == 8 {
            0x8000_0000_0000_0000u64
        } else {
            0x8000_0000u64
        }) && thunk_function(sections, v as nat, ps) is None ==> ({
            let r = v as int % 0x1_0000_0000;
            image_u16(sections, r) is None || r + 2 > u32::MAX || cstring(
                sections,
                (r + 2) as u32,
            ) is None
        }),
        v >= (if ps == 8 {
            0x8000_0000_0000_0000u64
        } else {
            0x8000_0000u64
        }) ==> thunk_function(sections, v as nat, ps) is Some,
{
    lemma_read_len(sections, (v as nat % 0x1_0000_0000) as u32, 2);
}

/// Whether the pointer at `at` stands for the import `f`.
pub open spec fn import_stands(
    f: ImportFunctionModel,
    sections: Seq<SectionModel>,
    at: int,
    ps: nat,
) -> bool {
    image_pointer(sections, at, ps) matches Some(v) && v != 0 && is_import(f, sections, ps, v)
}

/// Whether `fs` are the imports of the pointers from `base` on, up to a zero or
/// the end of what can be read.
pub open spec fn are_imports(
    fs: Seq<ImportFunctionModel>,
    sections: Seq<SectionModel>,
    base: int,
    ps: nat,
) -> bool {
    &&& forall|k: int|
        0 <= k < fs.len() ==> import_stands(#[trigger] fs[k], sections, base + ps * k, ps)
    &&& image_pointer(sections, base + ps * fs.len(), ps) matches Some(v) ==> v == 0
}

proof fn lemma_pointer(sections: Seq<SectionModel>, r: int, ps: nat)
    requires
        ps == 4 || ps == 8,
        0 <= r <= u32::MAX,
    ensures
        image_pointer(sections, r, ps) == match image_read(sections, r as u32, ps) {
            Some(b) => Some(le_value(b) as u64),
            None => None,
        },
        image_read(sections, r as u32, ps) matches Some(b) ==> le_value(b) <= u64::MAX,
{
    lemma_read_len(sections, r as u32, ps);
}

/// A pointer of an image is the little-endian number of its four or eight bytes.
pub proof fn numbers_of_pointers(sections: Seq<SectionModel>, r: int, ps: nat)
    requires
        ps == 4 || ps == 8,
        0 <= r <= u32::MAX,
    ensures
        image_pointer(sections, r, ps) == match image_read(sections, r as u32, ps) {
            Some(b) => Some(le_value(b) as u64),
            None => None,
        },
{
    lemma_pointer(sections, r, ps);
}

proof fn lemma_thunks(sections: Seq<SectionModel>, base: int, ps: nat)
    requires
        ps == 4 || ps == 8,
        0 <= base,
    ensures
        thunks_from(sections, base, ps) matches Some(fs) ==> are_imports(fs, sections, base, ps),
    decreases 0x1_0000_0020 - base,
{
    let none = Seq::<ImportFunctionModel>::empty();
    assert(base + ps * none.len() == base) by (nonlinear_arith)
        requires
            none.len() == 0,
    ;
    if base <= u32::MAX {
        lemma_pointer(sections, base, ps);
        if let Some(b) = image_read(sections, base as u32, ps) {
            let v = le_value(b);
            if v != 0 {
                lemma_import(sections, ps, v as u64);
                lemma_thunks(sections, base + ps, ps);
                if let Some(fs) = thunks_from(sections, base, ps) {
                    let rest = thunks_from(sections, base + ps, ps)->0;
                    let f = thunk_function(sections, v, ps)->0;
                    assert(fs == seq![f] + rest);
                    assert forall|k: int| 0 <= k < fs.len() implies import_stands(
                        #[trigger] fs[k],
                        sections,
                        base + ps * k,
                        ps,
                    ) by {
                        if k > 0 {
                            assert(fs[k] == rest[k - 1]);
                            assert(base + ps + ps * (k - 1) == base + ps * k) by (nonlinear_arith);
                            assert(import_stands(rest[k - 1], sections, base + ps + ps * (k - 1), ps));
                        } else {
                            assert(base + ps * k == base) by (nonlinear_arith)
                                requires
                                    k == 0,
                            ;
                            assert(fs[0] == f);
                        }
                    }
                    assert(base + ps + ps * rest.len() == base + ps * fs.len())
                        by (nonlinear_arith)
                        requires
                            fs.len() == rest.len() + 1,
                    ;
                    assert(are_imports(fs, sections, base, ps));
                }
            } else {
                assert(are_imports(none, sections, base, ps));
            }
        } else {
            assert(are_imports(none, sections, base, ps));
        }
    } else {
        assert(are_imports(none, sections, base, ps));
    }
}

/// The two pointer arrays and the name of import descriptor `h`.
pub open spec fn import_pointers(h: Seq<u8>) -> int {
    if u32_at(h, 0) != 0 {
        u32_at(h, 0) as int
    } else {
        u32_at(h, 16) as int
    }
}

/// Whether `im` is the module of the descriptor at `at`: its name is the text
/// that the fourth field points at, its imports those of the original pointer
/// array, or of the bound one where there is no original.
pub open spec fn is_module(
    im: ImportDescriptorModel,
    sections: Seq<SectionModel>,
    at: int,
    ps: nat,
) -> bool {
    &&& at <= u32::MAX
    &&& image_read(sections, at as u32, 20) matches Some(h) && import_pointers(h) != 0 && cstring(
        sections,
        u32_at(h, 12),
    ) == Some(im.name) && are_imports(im.functions, sections, import_pointers(h), ps)
}

/// Whether no further descriptor stands at `at`.
pub open spec fn imports_end(sections: Seq<SectionModel>, at: int) -> bool {
    at > u32::MAX || (image_read(sections, at as u32, 20) matches Some(h) ==> import_pointers(h)
        == 0)
}

proof fn lemma_descriptor(sections: Seq<SectionModel>, at: int)
    requires
        0 <= at <= u32::MAX,
    ensures
        layout_size(import_fields()) == 20,
        image_read(sections, at as u32, 20) matches Some(h) ==> ({
            let d = decode_fields(import_fields(), h);
            descriptor_thunks(d) == import_pointers(h) && d[3] == u32_at(h, 12)
        }),
{
    lemma_import_size();
    lemma_read_len(sections, at as u32, 20);
    if let Some(h) = image_read(sections, at as u32, 20) {
        lemma_import_numbers(h);
    }
}

/// What an import table says, whoever wrote it: its descriptors stand one after
/// the other, twenty bytes each, up to one without pointer arrays.
pub proof fn import_descriptors_stand_in_a_row(sections: Seq<SectionModel>, addr: int, ps: nat)
    requires
        ps == 4 || ps == 8,
        0 <= addr,
    ensures
        imports_from(sections, addr, ps) matches Some(im) ==> {
            &&& forall|m: int|
                0 <= m < im.len() ==> is_module(#[trigger] im[m], sections, addr + 20 * m, ps)
            &&& imports_end(sections, addr + 20 * im.len())
        },
    decreases 0x1_0000_0020 - addr,
{
    if addr <= u32::MAX {
        lemma_descriptor(sections, addr);
        if let ImportStep::Item(d) = import_step(sections, addr as u32, ps) {
            let h = image_read(sections, addr as u32, 20)->0;
            lemma_thunks(sections, import_pointers(h), ps);
            import_descriptors_stand_in_a_row(sections, addr + 20, ps);
            if let Some(im) = imports_from(sections, addr, ps) {
                let rest = imports_from(sections, addr + 20, ps)->0;
                assert(im == seq![d] + rest);
                assert forall|m: int| 0 <= m < im.len() implies is_module(
                    #[trigger] im[m],
                    sections,
                    addr + 20 * m,
                    ps,
                ) by {
                    if m > 0 {
                        assert(im[m] == rest[m - 1]);
                    }
                }
            }
        }
    }
}

/// A relocation: the kind in the top four bits of its sixteen, the offset in the
/// others.
pub open spec fn is_relocation(e: RelocationEntry, v: u16) -> bool {
    e.reloc_type as int == v as int / 0x1000 && e.offset as int == v as int % 0x1000
}

/// Whether `blocks` are the relocation blocks of the directory from `off` on:
/// each with its page and its size, then its relocations, two bytes each, and
/// the next block behind it, up to the end of the directory or a block too small
/// to be one.
pub open spec fn are_blocks(
    blocks: Seq<RelocationBlockModel>,
    sections: Seq<SectionModel>,
    dd: DataDirectory,
    off: int,
) -> bool
    decreases blocks.len(),
{
    let extent: int = if dd.size != 0 {
        dd.size as int
    } else {
        0x1000
    };
    let at = dd.rva.0 + off;
    let h = image_read(sections, at as u32, 8)->0;
    let size = u32_at(h, 4);
    let body = image_read(sections, (at + 8) as u32, (size - 8) as nat);
    if off + 8 > extent {
        blocks.len() == 0
    } else {
        &&& at <= u32::MAX
        &&& image_read(sections, at as u32, 8) is Some
        &&& size < 8 ==> blocks.len() == 0
        &&& size >= 8 ==> {
            &&& blocks.len() > 0
            &&& at + 8 <= u32::MAX
            &&& body is Some
            &&& blocks[0].page_rva.0 == u32_at(h, 0)
            &&& blocks[0].entries.len() == (size - 8) / 2
            &&& forall|i: int|
                0 <= i < blocks[0].entries.len() ==> is_relocation(
                    #[trigger] blocks[0].entries[i],
                    u16_at(body->0, 2 * i),
                )
            &&& are_blocks(blocks.drop_first(), sections, dd, off + size)
        }
    }
}

proof fn lemma_units(b: Seq<u8>, i: int)
    requires
        0 <= i < b.len() / 2,
    ensures
        units_of(b)[i] == u16_at(b, 2 * i),
{
    numbers_are_little_endian(b, 2 * i);
}

/// What a relocation directory says, whoever wrote it.
pub proof fn relocation_blocks_follow_each_other(
    sections: Seq<SectionModel>,
    dd: DataDirectory,
    off: nat,
)
    ensures
        relocs_from(sections, dd, off) matches Some(blocks) ==> are_blocks(
            blocks,
            sections,
            dd,
            off as int,
        ),
    decreases reloc_extent(dd) + 0x1_0000_0000 - off,
{
    let at = dd.rva.0 + off;
    if relocs_from(sections, dd, off) is Some && off + 8 <= reloc_extent(dd) {
        let blocks = relocs_from(sections, dd, off)->0;
        lemma_reloc_size();
        lemma_read_len(sections, at as u32, 8);
        let h = image_read(sections, at as u32, 8)->0;
        lemma_reloc_numbers(h);
        let size = u32_at(h, 4);
        if size >= 8 {
            let body = image_read(sections, (at + 8) as u32, (size - 8) as nat)->0;
            lemma_read_len(sections, (at + 8) as u32, (size - 8) as nat);
            relocation_blocks_follow_each_other(sections, dd, off + size as nat);
            let rest = relocs_from(sections, dd, off + size as nat)->0;
            assert(blocks.drop_first() =~= rest);
            let e = blocks[0].entries;
            assert(e == reloc_entries(body));
            assert forall|i: int| 0 <= i < e.len() implies is_relocation(
                #[trigger] e[i],
                u16_at(body, 2 * i),
            ) by {
                lemma_units(body, i);
            }
        }
    }
}

/// Whether `e` is entry `i` of the resource directory at `dir`. The first half
/// of its eight bytes is an id or, with the top bit set, the place of a name;
/// the second half the place of a leaf or, with the top bit set, of a directory.
/// Places count from `base`.
pub open spec fn is_resource(
    e: ResourceEntryModel,
    sections: Seq<SectionModel>,
    base: u32,
    dir: u32,
    depth: nat,
    i: int,
) -> bool {
    let at = dir + 16 + 8 * i;
    let v = image_read(sections, at as u32, 8)->0;
    let name = u32_at(v, 0);
    let data = u32_at(v, 4);
    &&& at <= u32::MAX
    &&& image_read(sections, at as u32, 8) is Some
    &&& if name < 0x8000_0000 {
        e.name == ResourceNameModel::Id(name)
    } else {
        e.name matches ResourceNameModel::Named(s) && is_resource_name(
            s,
            sections,
            base + (name - 0x8000_0000),
        )
    }
    &&& if data < 0x8000_0000 {
        &&& base + data <= u32::MAX
        &&& image_read(sections, (base + data) as u32, 16) matches Some(l) && e.data
            == ResourceDataModel::Leaf(
            ResourceDataEntry {
                rva: Rva(u32_at(l, 0)),
                size: u32_at(l, 4),
                code_page: u32_at(l, 8),
            },
        )
    } else {
        &&& base + (data - 0x8000_0000) <= u32::MAX
        &&& e.data matches ResourceDataModel::Directory(sub) && resources_at(
            sections,
            base,
            (base + (data - 0x8000_0000)) as u32,
            depth + 1,
        ) == Some(sub)
    }
}

/// Whether `s` is the resource name at `at`: a count of sixteen-bit units, and
/// then the units.
pub open spec fn is_resource_name(s: Seq<char>, sections: Seq<SectionModel>, at: int) -> bool {
    &&& at + 2 <= u32::MAX
    &&& image_u16(sections, at) matches Some(n) && n <= 0x1000 && (image_read(
        sections,
        (at + 2) as u32,
        2 * n as nat,
    ) matches Some(u) && s == utf16_decode(Seq::new(n as nat, |k: int| u16_at(u, 2 * k))))
}

proof fn lemma_resource_name(sections: Seq<SectionModel>, base: u32, o: int)
    requires
        0 <= o,
    ensures
        resource_name_at(sections, base, o) matches Some(s) ==> is_resource_name(
            s,
            sections,
            base + o,
        ),
{
    if resource_name_at(sections, base, o) is Some {
        lemma_read_len(sections, (base + o) as u32, 2);
        let n = image_u16(sections, base + o)->0;
        lemma_read_len(sections, (base + o + 2) as u32, 2 * n as nat);
        let u = image_read(sections, (base + o + 2) as u32, 2 * n as nat)->0;
        let w = Seq::new(n as nat, |k: int| u16_at(u, 2 * k));
        assert(units_of(u) =~= w) by {
            assert forall|k: int| 0 <= k < n implies units_of(u)[k] == w[k] by {
                lemma_units(u, k);
            }
        }
    }
}

proof fn lemma_resource_entries(
    sections: Seq<SectionModel>,
    base: u32,
    dir: u32,
    depth: nat,
    n: nat,
)
    requires
        depth <= MAX_RESOURCE_DEPTH,
    ensures
        resource_entries(sections, base, dir, depth, n) matches Some(s) ==> s.len() == n
            && forall|i: int|
            0 <= i < n ==> is_resource(#[trigger] s[i], sections, base, dir, depth, i),
    decreases n,
{
    if n > 0 && resource_entries(sections, base, dir, depth, n) is Some {
        lemma_resource_entries(sections, base, dir, depth, (n - 1) as nat);
        let at = dir + 16 + 8 * (n - 1);
        lemma_resource_entry_size();
        lemma_read_len(sections, at as u32, 8);
        let v = image_read(sections, at as u32, 8)->0;
        lemma_resource_entry_numbers(v);
        let name = u32_at(v, 0);
        let data = u32_at(v, 4);
        if name >= 0x8000_0000 {
            lemma_resource_name(sections, base, name - 0x8000_0000);
        }
        if data < 0x8000_0000 {
            lemma_resource_data_size();
            lemma_read_len(sections, (base + data) as u32, 16);
            let l = image_read(sections, (base + data) as u32, 16)->0;
            lemma_resource_data_numbers(l);
        }
    }
}

/// What a resource directory says, whoever wrote it: behind its sixteen bytes
/// stand as many entries as its last two numbers count together.
pub proof fn resource_entries_stand_in_a_row(
    sections: Seq<SectionModel>,
    base: u32,
    dir: u32,
    depth: nat,
)
    ensures
        resources_at(sections, base, dir, depth) matches Some(s) ==> ({
            let h = image_read(sections, dir, 16);
            &&& depth <= 8
            &&& h is Some
            &&& s.len() == u16_at(h->0, 12) + u16_at(h->0, 14)
            &&& forall|i: int|
                0 <= i < s.len() ==> is_resource(#[trigger] s[i], sections, base, dir, depth, i)
        }),
{
    if resources_at(sections, base, dir, depth) is Some {
        lemma_resource_dir_size();
        lemma_read_len(sections, dir, 16);
        let h = image_read(sections, dir, 16)->0;
        lemma_resource_dir_numbers(h);
        lemma_resource_entries(
            sections,
            base,
            dir,
            depth,
            (u16_at(h, 12) + u16_at(h, 14)) as nat,
        );
    }
}

/// The TLS directory's fields, each at its place.
pub proof fn tls_fields_stand_in_place(
    sections: Seq<SectionModel>,
    arch: Arch,
    dd: DataDirectory,
)
    ensures
        arch == Arch::Bit64 ==> tls_at(sections, arch, dd) == match image_read(
            sections,
            dd.rva.0,
            40,
        ) {
            Some(b) => Some(
                TlsDirectory {
                    start_address_of_raw_data: u64_at(b, 0),
                    end_address_of_raw_data: u64_at(b, 8),
                    address_of_index: u64_at(b, 16),
                    address_of_callbacks: u64_at(b, 24),
                    size_of_zero_fill: u32_at(b, 32),
                    characteristics: u32_at(b, 36),
                },
            ),
            None => None,
        },
        arch == Arch::Bit32 ==> tls_at(sections, arch, dd) == match image_read(
            sections,
            dd.rva.0,
            24,
        ) {
            Some(b) => Some(
                TlsDirectory {
                    start_address_of_raw_data: u32_at(b, 0) as u64,
                    end_address_of_raw_data: u32_at(b, 4) as u64,
                    address_of_index: u32_at(b, 8) as u64,
                    address_of_callbacks: u32_at(b, 12) as u64,
                    size_of_zero_fill: u32_at(b, 16),
                    characteristics: u32_at(b, 20),
                },
            ),
            None => None,
        },
{
    lemma_tls64_size();
    lemma_tls32_size();
    lemma_read_len(sections, dd.rva.0, 40);
    lemma_read_len(sections, dd.rva.0, 24);
    if let Some(b) = image_read(sections, dd.rva.0, 40) {
        lemma_tls64_numbers(b);
    }
    if let Some(b) = image_read(sections, dd.rva.0, 24) {
        lemma_tls32_numbers(b);
    }
}

/// The load configuration with the bytes `b`, in a 64-bit image.
pub open spec fn load_config64_in(b: Seq<u8>) -> LoadConfigDirectory {
    LoadConfigDirectory {
        size: u32_at(b, 0),
        time_date_stamp: u32_at(b, 4),
        major_version: u16_at(b, 8),
        minor_version: u16_at(b, 10),
        global_flags_clear: u32_at(b, 12),
        global_flags_set: u32_at(b, 16),
        security_cookie: u64_at(b, 88),
        se_handler_table: u64_at(b, 96),
        se_handler_count: u64_at(b, 104),
        guard_cf_check_function_pointer: u64_at(b, 112),
        guard_cf_dispatch_function_pointer: u64_at(b, 120),
        guard_cf_function_table: u64_at(b, 128),
        guard_cf_function_count: u64_at(b, 136),
        guard_flags: u32_at(b, 144),
        guard_address_taken_iat_entry_table: u64_at(b, 160),
        guard_address_taken_iat_entry_count: u64_at(b, 168),
        guard_long_jump_target_table: u64_at(b, 176),
        guard_long_jump_target_count: u64_at(b, 184),
        guard_eh_continuation_table: u64_at(b, 264),
        guard_eh_continuation_count: u64_at(b, 272),
        guard_xfg_check_function_pointer: u64_at(b, 280),
        guard_xfg_dispatch_function_pointer: u64_at(b, 288),
        chpe_metadata_pointer: u64_at(b, 200),
        hot_patch_table_offset: u32_at(b, 240),
    }
}

/// The load configuration with the bytes `b`, in a 32-bit image.
pub open spec fn load_config32_in(b: Seq<u8>) -> LoadConfigDirectory {
    LoadConfigDirectory {
        size: u32_at(b, 0),
        time_date_stamp: u32_at(b, 4),
        major_version: u16_at(b, 8),
        minor_version: u16_at(b, 10),
        global_flags_clear: u32_at(b, 12),
        global_flags_set: u32_at(b, 16),
        security_cookie: u32_at(b, 60) as u64,
        se_handler_table: u32_at(b, 64) as u64,
        se_handler_count: u32_at(b, 68) as u64,
        guard_cf_check_function_pointer: u32_at(b, 72) as u64,
        guard_cf_dispatch_function_pointer: u32_at(b, 76) as u64,
        guard_cf_function_table: u32_at(b, 80) as u64,
        guard_cf_function_count: u32_at(b, 84) as u64,
        guard_flags: u32_at(b, 88),
        guard_address_taken_iat_entry_table: u32_at(b, 104) as u64,
        guard_address_taken_iat_entry_count: u32_at(b, 108) as u64,
        guard_long_jump_target_table: u32_at(b, 112) as u64,
        guard_long_jump_target_count: u32_at(b, 116) as u64,
        guard_eh_continuation_table: u32_at(b, 164) as u64,
        guard_eh_continuation_count: u32_at(b, 168) as u64,
        guard_xfg_check_function_pointer: u32_at(b, 172) as u64,
        guard_xfg_dispatch_function_pointer: u32_at(b, 176) as u64,
        chpe_metadata_pointer: u32_at(b, 124) as u64,
        hot_patch_table_offset: u32_at(b, 148),
    }
}

/// The load configuration's fields, each at its place, as far as its own size
/// goes; the rest of the structure is zero.
pub proof fn load_config_fields_stand_in_place(
    sections: Seq<SectionModel>,
    arch: Arch,
    dd: DataDirectory,
)
    ensures
        ({
            let whole: nat = match arch {
                Arch::Bit64 => 320,
                Arch::Bit32 => 192,
            };
            match image_read(sections, dd.rva.0, 4) {
                None => load_config_at(sections, arch, dd) is None,
                Some(s) => {
                    let n = if u32_at(s, 0) <= whole {
                        u32_at(s, 0) as nat
                    } else {
                        whole
                    };
                    match image_read(sections, dd.rva.0, n) {
                        None => load_config_at(sections, arch, dd) is None,
                        Some(b) => {
                            let c = b + zeros((whole - n) as nat);
                            load_config_at(sections, arch, dd) == Some(
                                match arch {
                                    Arch::Bit64 => load_config64_in(c),
                                    Arch::Bit32 => load_config32_in(c),
                                },
                            )
                        },
                    }
                },
            }
        }),
{
    lemma_load_config64_size();
    lemma_load_config32_size();
    lemma_read_len(sections, dd.rva.0, 4);
    if let Some(s) = image_read(sections, dd.rva.0, 4) {
        let n = load_config_extent(u32_at(s, 0), arch);
        lemma_read_len(sections, dd.rva.0, n);
        if let Some(b) = image_read(sections, dd.rva.0, n) {
            match arch {
                Arch::Bit64 => lemma_load_config64_numbers(b + zeros((320 - n) as nat)),
                Arch::Bit32 => lemma_load_config32_numbers(b + zeros((192 - n) as nat)),
            }
        }
    }
}

proof fn lemma_import_is(sections: Seq<SectionModel>, ps: nat, v: u64, f: ImportFunctionModel)
    requires
        is_import(f, sections, ps, v),
    ensures
        thunk_function(sections, v as nat, ps) == Some(f),
{
    lemma_read_len(sections, (v as nat % 0x1_0000_0000) as u32, 2);
}

proof fn lemma_thunks_are(
    sections: Seq<SectionModel>,
    base: int,
    ps: nat,
    fs: Seq<ImportFunctionModel>,
    k: int,
)
    requires
        ps == 4 || ps == 8,
        0 <= base,
        0 <= k <= fs.len(),
        are_imports(fs, sections, base, ps),
    ensures
        thunks_from(sections, base + ps * k, ps) == Some(fs.skip(k)),
    decreases fs.len() - k,
{
    let at = base + ps * k;
    assert(at >= 0) by (nonlinear_arith)
        requires
            at == base + ps * k,
            base >= 0,
            k >= 0,
    ;
    if at <= u32::MAX {
        lemma_pointer(sections, at, ps);
    }
    if k < fs.len() {
        assert(import_stands(fs[k], sections, at, ps));
        let v = image_pointer(sections, at, ps)->0;
        lemma_import_is(sections, ps, v, fs[k]);
        assert(base + ps * (k + 1) == at + ps) by (nonlinear_arith)
            requires
                at == base + ps * k,
        ;
        lemma_thunks_are(sections, base, ps, fs, k + 1);
        assert(seq![fs[k]] + fs.skip(k + 1) =~= fs.skip(k));
    } else {
        assert(fs.skip(k) =~= Seq::empty());
    }
}

/// And every import table that stands in an image is read, whatever it imports.
pub proof fn standing_imports_are_read(
    sections: Seq<SectionModel>,
    addr: int,
    ps: nat,
    im: Seq<ImportDescriptorModel>,
    m: int,
)
    requires
        ps == 4 || ps == 8,
        0 <= addr,
        0 <= m <= im.len(),
        forall|m: int|
            0 <= m < im.len() ==> is_module(#[trigger] im[m], sections, addr + 20 * m, ps),
        imports_end(sections, addr + 20 * im.len()),
    ensures
        imports_from(sections, addr + 20 * m, ps) == Some(im.skip(m)),
    decreases im.len() - m,
{
    let at = addr + 20 * m;
    if at <= u32::MAX {
        lemma_descriptor(sections, at);
    }
    if m < im.len() {
        assert(is_module(im[m], sections, at, ps));
        let h = image_read(sections, at as u32, 20)->0;
        let fs = im[m].functions;
        lemma_thunks_are(sections, import_pointers(h), ps, fs, 0);
        assert(import_pointers(h) + ps * 0 == import_pointers(h)) by (nonlinear_arith);
        assert(fs.skip(0) =~= fs);
        standing_imports_are_read(sections, addr, ps, im, m + 1);
        assert(addr + 20 * (m + 1) == at + 20);
        assert(seq![im[m]] + im.skip(m + 1) =~= im.skip(m));
    } else {
        assert(im.skip(m) =~= Seq::empty());
    }
}

/// And every relocation directory that stands in an image is read.
pub proof fn standing_relocations_are_read(
    sections: Seq<SectionModel>,
    dd: DataDirectory,
    off: nat,
    blocks: Seq<RelocationBlockModel>,
)
    requires
        are_blocks(blocks, sections, dd, off as int),
    ensures
        relocs_from(sections, dd, off) == Some(blocks),
    decreases blocks.len(),
{
    let at = dd.rva.0 + off;
    if off + 8 <= reloc_extent(dd) {
        lemma_reloc_size();
        lemma_read_len(sections, at as u32, 8);
        let h = image_read(sections, at as u32, 8)->0;
        lemma_reloc_numbers(h);
        let size = u32_at(h, 4);
        if size >= 8 {
            let body = image_read(sections, (at + 8) as u32, (size - 8) as nat)->0;
            lemma_read_len(sections, (at + 8) as u32, (size - 8) as nat);
            standing_relocations_are_read(sections, dd, off + size as nat, blocks.drop_first());
            let e = blocks[0].entries;
            assert(reloc_entries(body) =~= e) by {
                assert forall|i: int| 0 <= i < e.len() implies reloc_entries(body)[i] == e[i] by {
                    lemma_units(body, i);
                    assert(is_relocation(e[i], u16_at(body, 2 * i)));
                }
            }
            let b = RelocationBlockModel { page_rva: Rva(u32_at(h, 0)), entries: e };
            assert(b == blocks[0]);
            assert(seq![b] + blocks.drop_first() =~= blocks);
        } else {
            assert(blocks =~= Seq::empty());
        }
    } else {
        assert(blocks =~= Seq::empty());
    }
}

proof fn lemma_resource_name_is(sections: Seq<SectionModel>, base: u32, o: int, s: Seq<char>)
    requires
        0 <= o,
        is_resource_name(s, sections, base + o),
    ensures
        resource_name_at(sections, base, o) == Some(s),
{
    lemma_read_len(sections, (base + o) as u32, 2);
    let n = image_u16(sections, base + o)->0;
    lemma_read_len(sections, (base + o + 2) as u32, 2 * n as nat);
    let u = image_read(sections, (base + o + 2) as u32, 2 * n as nat)->0;
    let w = Seq::new(n as nat, |k: int| u16_at(u, 2 * k));
    assert(units_of(u) =~= w) by {
        assert forall|k: int| 0 <= k < n implies units_of(u)[k] == w[k] by {
            lemma_units(u, k);
        }
    }
}

proof fn lemma_resource_entries_are(
    sections: Seq<SectionModel>,
    base: u32,
    dir: u32,
    depth: nat,
    s: Seq<ResourceEntryModel>,
    n: nat,
)
    requires
        depth <= MAX_RESOURCE_DEPTH,
        n <= s.len(),
        forall|i: int|
            0 <= i < s.len() ==> is_resource(#[trigger] s[i], sections, base, dir, depth, i),
    ensures
        resource_entries(sections, base, dir, depth, n) == Some(s.take(n as int)),
    decreases n,
{
    if n > 0 {
        lemma_resource_entries_are(sections, base, dir, depth, s, (n - 1) as nat);
        let e = s[n - 1];
        assert(is_resource(e, sections, base, dir, depth, n - 1));
        let at = dir + 16 + 8 * (n - 1);
        lemma_resource_entry_size();
        lemma_read_len(sections, at as u32, 8);
        let v = image_read(sections, at as u32, 8)->0;
        lemma_resource_entry_numbers(v);
        let name = u32_at(v, 0);
        let data = u32_at(v, 4);
        if name >= 0x8000_0000 {
            if let ResourceNameModel::Named(t) = e.name {
                lemma_resource_name_is(sections, base, name - 0x8000_0000, t);
            }
        }
        if data < 0x8000_0000 {
            lemma_resource_data_size();
            lemma_read_len(sections, (base + data) as u32, 16);
            let l = image_read(sections, (base + data) as u32, 16)->0;
            lemma_resource_data_numbers(l);
        }
        let before = s.take(n - 1);
        assert(resource_entries(sections, base, dir, depth, n) == Some(before.push(e)));
        assert(before.push(e) =~= s.take(n as int));
    } else {
        assert(s.take(0) =~= Seq::empty());
    }
}

/// And every resource directory that stands in an image is read, down to the
/// depth that is followed.
pub proof fn standing_resources_are_read(
    sections: Seq<SectionModel>,
    base: u32,
    dir: u32,
    depth: nat,
    s: Seq<ResourceEntryModel>,
)
    requires
        depth <= 8,
        image_read(sections, dir, 16) is Some,
        s.len() == u16_at(image_read(sections, dir, 16)->0, 12) + u16_at(
            image_read(sections, dir, 16)->0,
            14,
        ),
        forall|i: int|
            0 <= i < s.len() ==> is_resource(#[trigger] s[i], sections, base, dir, depth, i),
    ensures
        resources_at(sections, base, dir, depth) == Some(s),
{
    lemma_resource_dir_size();
    lemma_read_len(sections, dir, 16);
    let h = image_read(sections, dir, 16)->0;
    lemma_resource_dir_numbers(h);
    lemma_resource_entries_are(sections, base, dir, depth, s, s.len());
    assert(s.take(s.len() as int) =~= s);
}

} // verus!
