//! Rendered TLS, load configuration, relocation and resource directories are
//! read back as they were.

use crate::bytes::{
    encode_fields, fields_fit, join, layout_ok, layout_size, le_bytes, le_value, lemma_encode_len,
    lemma_fields_roundtrip, lemma_join_part, lemma_le_bytes_len, lemma_le_roundtrip,
    lemma_pow256_values, low, pow256, splice, zeros,
};
use crate::domain::data_directory::DataDirectory;
use crate::domain::document::image_read;
use crate::domain::load_config::LoadConfigDirectory;
use crate::domain::relocation::{RelocationBlockModel, RelocationEntry};
use crate::domain::resource::{
    ResourceDataEntry, ResourceDataModel, ResourceEntryModel, ResourceNameModel,
};
use crate::domain::section::SectionModel;
use crate::domain::tls::TlsDirectory;
use crate::domain::types::Arch;
use crate::io::pe::decode::{
    image_record, load_config_at, load_config_extent, load_config_fields, load_config_of,
    reloc_entries, reloc_entry, relocs_from, resource_entries, resource_leaf_at, resource_name_at,
    resource_name_of, resources_at, tls_at, tls_fields, units_of,
};
use crate::io::pe::directory_render::{
    directory_head, leaf_bytes, lemma_directory_head_len, lemma_with_directory_len,
    lemma_with_entries_len, load_config_bytes, load_config_values, name_string, named_count,
    reloc_bytes, reloc_entry_parts, reloc_parts, reloc_value, tls_bytes, tls_values, unit_parts,
    with_data, with_directory, with_entries, with_name, MAX_RENDER_RESOURCE_DEPTH,
};
use crate::io::pe::laws::format::u16_at;
use crate::io::pe::laws::headers::{lemma_low, lemma_nested};
use crate::io::pe::laws::image::{image_holds, lemma_held_number, lemma_held_record};
use crate::io::pe::laws::imports::lemma_zeros_fields;
use crate::io::pe::laws::tables::lemma_resource_dir_numbers;
use crate::io::pe::layout::{
    lemma_load_config32_size, lemma_load_config64_size, lemma_reloc_size, lemma_resource_data_size,
    lemma_resource_dir_size, lemma_resource_entry_size, lemma_tls32_size, lemma_tls64_size,
    reloc_fields, resource_data_fields, resource_dir_fields, resource_entry_fields, tls32_fields,
    tls64_fields,
};
use crate::text::{utf16_encode, utf16_roundtrip};
use vstd::prelude::*;

verus! {

/// Whether the addresses of a TLS directory fit the architecture.
pub open spec fn tls_fits(t: TlsDirectory, arch: Arch) -> bool {
    arch == Arch::Bit32 ==> t.start_address_of_raw_data <= u32::MAX && t.end_address_of_raw_data
        <= u32::MAX && t.address_of_index <= u32::MAX && t.address_of_callbacks <= u32::MAX
}

/// A rendered TLS directory that stands in an image is read back.
pub proof fn tls_survives(
    sections: Seq<SectionModel>,
    t: TlsDirectory,
    arch: Arch,
    dd: DataDirectory,
)
    requires
        tls_fits(t, arch),
        image_holds(sections, dd.rva.0, tls_bytes(t, arch)),
    ensures
        tls_at(sections, arch, dd) == Some(t),
{
    lemma_tls32_size();
    lemma_tls64_size();
    lemma_pow256_values();
    let ws = tls_fields(arch);
    let vs = tls_values(t);
    assert(fields_fit(ws, vs));
    lemma_encode_len(ws, vs);
    let b = tls_bytes(t, arch);
    assert(b.subrange(0, 0int + layout_size(ws)) =~= encode_fields(ws, vs));
    lemma_held_record(sections, dd.rva.0, b, 0, ws, vs);
}

/// Whether a load configuration fits the architecture and holds nothing beyond
/// its own stated size.
pub open spec fn load_config_sound(lc: LoadConfigDirectory, arch: Arch) -> bool {
    &&& fields_fit(load_config_fields(arch), load_config_values(lc))
    &&& forall|i: int|
        load_config_extent(lc.size, arch) <= i < load_config_bytes(lc, arch).len()
            ==> #[trigger] load_config_bytes(lc, arch)[i] == 0
}

/// The first four bytes of a record whose first field has four bytes are that field.
proof fn lemma_first_dword(ws: Seq<u8>, vs: Seq<u64>)
    requires
        layout_ok(ws),
        fields_fit(ws, vs),
        ws.len() > 0,
        ws[0] == 4,
    ensures
        encode_fields(ws, vs).len() >= 4,
        le_value(encode_fields(ws, vs).subrange(0, 4)) == vs[0],
    decreases ws.len(),
{
    let e = encode_fields(ws, vs);
    if ws.len() == 1 {
        assert(ws.drop_last().len() == 0);
        assert(ws.last() == 4 && vs.last() == vs[0]);
        assert(encode_fields(ws.drop_last(), vs.drop_last()) =~= Seq::empty());
        assert(e =~= le_bytes(4, vs[0] as nat));
        lemma_le_roundtrip(4, vs[0] as nat);
        assert(e.subrange(0, 4) =~= e);
    } else {
        let w1 = ws.drop_last();
        let v1 = vs.drop_last();
        assert forall|i: int| 0 <= i < w1.len() implies #[trigger] v1[i] < pow256(w1[i] as nat) by {
            assert(vs[i] < pow256(ws[i] as nat));
        }
        assert forall|i: int| 0 <= i < w1.len() implies #[trigger] w1[i] <= 8 by {
            assert(ws[i] <= 8);
        }
        lemma_first_dword(w1, v1);
        assert(e.subrange(0, 4) =~= encode_fields(w1, v1).subrange(0, 4));
    }
}

/// A rendered load configuration that stands in an image is read back.
pub proof fn load_config_survives(
    sections: Seq<SectionModel>,
    lc: LoadConfigDirectory,
    arch: Arch,
    dd: DataDirectory,
)
    requires
        load_config_sound(lc, arch),
        image_holds(sections, dd.rva.0, load_config_bytes(lc, arch)),
    ensures
        load_config_at(sections, arch, dd) == Some(lc),
{
    lemma_load_config32_size();
    lemma_load_config64_size();
    let ws = load_config_fields(arch);
    let vs = load_config_values(lc);
    let b = load_config_bytes(lc, arch);
    let full = layout_size(ws);
    lemma_fields_roundtrip(ws, vs);
    assert(ws[0] == 4);
    lemma_first_dword(ws, vs);
    assert(vs[0] == lc.size);
    let n = load_config_extent(lc.size, arch);
    assert(image_read(sections, (dd.rva.0 + 0) as u32, 4) == Some(b.subrange(0, 4)));
    assert(image_read(sections, (dd.rva.0 + 0) as u32, n) == Some(b.subrange(0, n as int)));
    assert(b.subrange(0, n as int) + zeros((full - n) as nat) =~= b);
    assert(load_config_of(vs) == lc);
}

/// Whether a relocation block can be read back: types below 16, offsets
/// inside a page, and a size that fits its field.
pub open spec fn block_sound(b: RelocationBlockModel) -> bool {
    &&& 8 + 2 * b.entries.len() <= u32::MAX
    &&& forall|i: int|
        0 <= i < b.entries.len() ==> (#[trigger] b.entries[i]).reloc_type < 16
            && b.entries[i].offset < 0x1000
}

proof fn lemma_unit_parts_len(u: Seq<u16>, i: int)
    requires
        0 <= i <= u.len(),
    ensures
        join(unit_parts(u).take(i)).len() == 2 * i,
    decreases i,
{
    let parts = unit_parts(u);
    if i > 0 {
        lemma_unit_parts_len(u, i - 1);
        lemma_le_bytes_len(2, u[i - 1] as nat);
        assert(parts.take(i).drop_last() =~= parts.take(i - 1));
    } else {
        assert(parts.take(0) =~= Seq::empty());
    }
}

/// Code units are read back from their bytes.
proof fn lemma_units(u: Seq<u16>)
    ensures
        join(unit_parts(u)).len() == 2 * u.len(),
        units_of(join(unit_parts(u))) == u,
{
    let parts = unit_parts(u);
    let b = join(parts);
    lemma_unit_parts_len(u, u.len() as int);
    assert(parts.take(u.len() as int) =~= parts);
    assert forall|i: int| 0 <= i < u.len() implies units_of(b)[i] == u[i] by {
        lemma_unit_parts_len(u, i);
        lemma_join_part(parts, i);
        lemma_le_bytes_len(2, u[i] as nat);
        lemma_pow256_values();
        lemma_le_roundtrip(2, u[i] as nat);
        assert(b.subrange(2 * i, 2 * i + 2) == le_bytes(2, u[i] as nat));
    }
    assert(units_of(b) =~= u);
}

/// A relocation entry is read back from its 16-bit value.
proof fn lemma_reloc_entry(e: RelocationEntry)
    requires
        e.reloc_type < 16,
        e.offset < 0x1000,
    ensures
        reloc_value(e) < 0x1_0000,
        reloc_entry(reloc_value(e) as u16) == e,
{
}

/// The entries of a block are read back from their bytes.
proof fn lemma_entries(e: Seq<RelocationEntry>)
    requires
        forall|i: int|
            0 <= i < e.len() ==> (#[trigger] e[i]).reloc_type < 16 && e[i].offset < 0x1000,
    ensures
        join(reloc_entry_parts(e)).len() == 2 * e.len(),
        reloc_entries(join(reloc_entry_parts(e))) == e,
{
    let u = Seq::new(e.len(), |i: int| reloc_value(e[i]) as u16);
    assert forall|i: int| 0 <= i < e.len() implies #[trigger] unit_parts(u)[i]
        == reloc_entry_parts(e)[i] by {
        lemma_reloc_entry(e[i]);
    }
    assert(unit_parts(u) =~= reloc_entry_parts(e));
    lemma_units(u);
    let b = join(reloc_entry_parts(e));
    assert forall|i: int| 0 <= i < e.len() implies reloc_entries(b)[i] == e[i] by {
        lemma_reloc_entry(e[i]);
        assert(units_of(b)[i] == u[i]);
    }
    assert(reloc_entries(b) =~= e);
}

/// Block `i` stands in its place in the table and is read back.
proof fn lemma_block(
    sections: Seq<SectionModel>,
    t: Seq<RelocationBlockModel>,
    base: u32,
    i: int,
)
    requires
        0 <= i < t.len(),
        block_sound(t[i]),
        image_holds(sections, base, reloc_bytes(t)),
    ensures
        ({
            let off = join(reloc_parts(t).take(i)).len();
            let n = t[i].entries.len();
            let vs = seq![t[i].page_rva.0 as u64, (8 + 2 * n) as u64];
            &&& join(reloc_parts(t).take(i + 1)).len() == off + 8 + 2 * n
            &&& off + 8 + 2 * n + 8 <= reloc_bytes(t).len()
            &&& image_record(sections, (base + off) as u32, reloc_fields()) == Some(vs)
            &&& image_read(sections, (base + off + 8) as u32, 2 * n) == Some(
                join(reloc_entry_parts(t[i].entries)),
            )
        }),
{
    let blob = reloc_bytes(t);
    let parts = reloc_parts(t);
    let blk = t[i];
    let off = join(parts.take(i)).len() as int;
    lemma_reloc_size();
    lemma_pow256_values();
    lemma_join_part(parts, i);
    lemma_entries(blk.entries);
    lemma_low(8 + 2 * blk.entries.len());
    let vs = seq![blk.page_rva.0 as u64, low(8 + 2 * blk.entries.len()) as u64];
    let head = encode_fields(reloc_fields(), vs);
    let body = join(reloc_entry_parts(blk.entries));
    lemma_encode_len(reloc_fields(), vs);
    assert(blob.subrange(0, 0int + join(parts).len()) =~= join(parts));
    lemma_nested(blob, 0, join(parts), off, parts[i]);
    assert(parts[i] == head + body);
    assert(parts[i].subrange(0, 0int + head.len()) =~= head);
    assert(parts[i].subrange(8, 8int + body.len()) =~= body);
    lemma_nested(blob, off, parts[i], 0, head);
    lemma_nested(blob, off, parts[i], 8, body);
    assert(reloc_fields()[0] == 4 && reloc_fields()[1] == 4);
    assert(fields_fit(reloc_fields(), vs));
    lemma_held_record(sections, base, blob, off, reloc_fields(), vs);
    assert(image_read(sections, (base + (off + 8)) as u32, body.len()) == Some(
        blob.subrange(off + 8, off + 8 + body.len()),
    ));
}

/// The relocation blocks from block `i` on are read back.
proof fn lemma_relocs_from(
    sections: Seq<SectionModel>,
    t: Seq<RelocationBlockModel>,
    dd: DataDirectory,
    i: int,
)
    requires
        forall|j: int| 0 <= j < t.len() ==> #[trigger] block_sound(t[j]),
        dd.size == reloc_bytes(t).len(),
        image_holds(sections, dd.rva.0, reloc_bytes(t)),
        0 <= i <= t.len(),
    ensures
        relocs_from(sections, dd, join(reloc_parts(t).take(i)).len()) == Some(t.skip(i)),
    decreases t.len() - i,
{
    let blob = reloc_bytes(t);
    let parts = reloc_parts(t);
    let base = dd.rva.0;
    if i < t.len() {
        let blk = t[i];
        assert(block_sound(blk));
        lemma_block(sections, t, base, i);
        lemma_entries(blk.entries);
        lemma_relocs_from(sections, t, dd, i + 1);
        assert(t.skip(i) =~= seq![blk] + t.skip(i + 1));
        assert(RelocationBlockModel {
            page_rva: blk.page_rva,
            entries: reloc_entries(join(reloc_entry_parts(blk.entries))),
        } == blk);
    } else {
        lemma_reloc_size();
        assert(parts.take(i) =~= parts);
        let off = join(parts).len() as int;
        let b = blob.subrange(off, off + 8);
        assert(image_read(sections, (base + off) as u32, 8) == Some(b));
        lemma_zeros_fields(reloc_fields(), b);
        assert(t.skip(i) =~= Seq::empty());
    }
}

/// A rendered relocation table that stands in an image is read back.
pub proof fn relocations_survive(
    sections: Seq<SectionModel>,
    t: Seq<RelocationBlockModel>,
    dd: DataDirectory,
)
    requires
        forall|j: int| 0 <= j < t.len() ==> #[trigger] block_sound(t[j]),
        dd.size == reloc_bytes(t).len(),
        image_holds(sections, dd.rva.0, reloc_bytes(t)),
    ensures
        relocs_from(sections, dd, 0) == Some(t),
{
    lemma_relocs_from(sections, t, dd, 0);
    assert(reloc_parts(t).take(0) =~= Seq::empty());
    assert(t.skip(0) =~= t);
}

/// Whether a resource tree can be read back: ids below the name flag, names
/// of a readable length, and entry counts that fit their fields.
pub open spec fn tree_sound(e: Seq<ResourceEntryModel>) -> bool
    decreases e,
{
    &&& named_count(e) <= u16::MAX
    &&& e.len() - named_count(e) <= u16::MAX
    &&& forall|i: int|
        0 <= i < e.len() ==> name_sound((#[trigger] e[i]).name) && match e[i].data {
            ResourceDataModel::Directory(sub) => tree_sound(sub),
            ResourceDataModel::Leaf(_) => true,
        }
}

pub open spec fn name_sound(n: ResourceNameModel) -> bool {
    match n {
        ResourceNameModel::Id(id) => id < 0x8000_0000,
        ResourceNameModel::Named(s) => utf16_encode(s).len() <= 0x1000,
    }
}

/// `a` and `b` hold the same bytes from `lo` to `hi`.
pub open spec fn agree(a: Seq<u8>, b: Seq<u8>, lo: int, hi: int) -> bool {
    &&& hi <= a.len()
    &&& hi <= b.len()
    &&& forall|i: int| lo <= i < hi ==> a[i] == b[i]
}

/// Writing a name only appends.
proof fn lemma_name_appends(out: Seq<u8>, name: ResourceNameModel)
    requires
        with_name(out, name) is Ok,
    ensures
        agree((with_name(out, name)->Ok_0).0, out, 0, out.len() as int),
{
}

proof fn lemma_data_appends(out: Seq<u8>, data: ResourceDataModel, depth: nat)
    requires
        depth <= MAX_RENDER_RESOURCE_DEPTH,
        with_data(out, data, depth) is Ok,
    ensures
        agree((with_data(out, data, depth)->Ok_0).0, out, 0, out.len() as int),
        (with_data(out, data, depth)->Ok_0).0.len() >= out.len() + 16,
    decreases MAX_RENDER_RESOURCE_DEPTH - depth, 2nat, 0nat,
{
    match data {
        ResourceDataModel::Directory(sub) => {
            lemma_directory_appends(out, sub, depth + 1);
            lemma_with_directory_len(out, sub, depth + 1);
        },
        ResourceDataModel::Leaf(l) => {
            lemma_resource_data_size();
            lemma_encode_len(
                resource_data_fields(),
                seq![l.rva.0 as u64, l.size as u64, l.code_page as u64, 0u64],
            );
        },
    }
}

proof fn lemma_directory_appends(out: Seq<u8>, e: Seq<ResourceEntryModel>, depth: nat)
    requires
        with_directory(out, e, depth) is Ok,
    ensures
        agree(with_directory(out, e, depth)->Ok_0, out, 0, out.len() as int),
    decreases MAX_RENDER_RESOURCE_DEPTH + 1 - depth, 0nat, 0nat,
{
    let full = out + directory_head(e);
    lemma_directory_head_len(e);
    lemma_entries_keep(full, out.len(), e, depth, 0, e.len());
}

/// From entry `i` on, filling in entries changes nothing that was there but
/// the slots of those entries.
proof fn lemma_entries_keep(
    out: Seq<u8>,
    dir: nat,
    e: Seq<ResourceEntryModel>,
    depth: nat,
    i: nat,
    n: nat,
)
    requires
        depth <= MAX_RENDER_RESOURCE_DEPTH,
        i <= n <= e.len(),
        dir + 16 + 8 * e.len() <= out.len(),
        with_entries(out, dir, e, depth, n) is Ok,
    ensures
        with_entries(out, dir, e, depth, i) is Ok,
        ({
            let a = with_entries(out, dir, e, depth, i)->Ok_0;
            let b = with_entries(out, dir, e, depth, n)->Ok_0;
            &&& out.len() <= a.len() <= b.len()
            &&& agree(a, b, 0, (dir + 16 + 8 * i) as int)
            &&& agree(a, b, (dir + 16 + 8 * n) as int, a.len() as int)
        }),
    decreases MAX_RENDER_RESOURCE_DEPTH - depth, 3nat, n,
{
    lemma_with_entries_len(out, dir, e, depth, i);
    if i < n {
        let k = (n - 1) as nat;
        assert(with_entries(out, dir, e, depth, k) is Ok);
        lemma_entries_keep(out, dir, e, depth, i, k);
        let b = with_entries(out, dir, e, depth, k)->Ok_0;
        lemma_name_appends(b, e[k as int].name);
        let (b1, name) = with_name(b, e[k as int].name)->Ok_0;
        lemma_data_appends(b1, e[k as int].data, depth);
        let (b2, data) = with_data(b1, e[k as int].data, depth)->Ok_0;
        lemma_resource_entry_size();
        lemma_encode_len(resource_entry_fields(), seq![name as u64, data as u64]);
        let x = encode_fields(resource_entry_fields(), seq![name as u64, data as u64]);
        let r = splice(b2, (dir + 16 + 8 * k) as int, x);
        assert(with_entries(out, dir, e, depth, n)->Ok_0 == r);
        assert forall|q: int| 0 <= q < b2.len() && !(dir + 16 + 8 * k <= q < dir + 16 + 8 * k + 8)
            implies r[q] == b2[q] by {}
    }
}

/// The bytes that filling in entry `j` leaves behind, in the finished table:
/// the entry's slot, its name and what it points at.
proof fn lemma_entry_bytes(
    out: Seq<u8>,
    dir: nat,
    e: Seq<ResourceEntryModel>,
    depth: nat,
    j: nat,
)
    requires
        depth <= MAX_RENDER_RESOURCE_DEPTH,
        j < e.len(),
        dir + 16 + 8 * e.len() <= out.len(),
        with_entries(out, dir, e, depth, e.len()) is Ok,
    ensures
        ({
            let fin = with_entries(out, dir, e, depth, e.len())->Ok_0;
            let b = with_entries(out, dir, e, depth, j)->Ok_0;
            let rn = with_name(b, e[j as int].name);
            let (b1, name) = rn->Ok_0;
            let rd = with_data(b1, e[j as int].data, depth);
            let (b2, data) = rd->Ok_0;
            let at = (dir + 16 + 8 * j) as int;
            &&& with_entries(out, dir, e, depth, j) is Ok
            &&& rn is Ok
            &&& rd is Ok
            &&& out.len() <= b.len() <= b1.len()
            &&& b1.len() + 16 <= b2.len() <= fin.len()
            &&& agree(b, b1, 0, b.len() as int)
            &&& agree(fin, b2, b.len() as int, b2.len() as int)
            &&& fin.subrange(at, at + 8) == encode_fields(
                resource_entry_fields(),
                seq![name as u64, data as u64],
            )
        }),
{
    let n = e.len();
    lemma_entries_keep(out, dir, e, depth, j, n);
    lemma_entries_keep(out, dir, e, depth, j + 1, n);
    let fin = with_entries(out, dir, e, depth, n)->Ok_0;
    let b = with_entries(out, dir, e, depth, j)->Ok_0;
    let c = with_entries(out, dir, e, depth, j + 1)->Ok_0;
    lemma_name_appends(b, e[j as int].name);
    let (b1, name) = with_name(b, e[j as int].name)->Ok_0;
    lemma_data_appends(b1, e[j as int].data, depth);
    let (b2, data) = with_data(b1, e[j as int].data, depth)->Ok_0;
    lemma_resource_entry_size();
    let vs = seq![name as u64, data as u64];
    lemma_encode_len(resource_entry_fields(), vs);
    let x = encode_fields(resource_entry_fields(), vs);
    let at = (dir + 16 + 8 * j) as int;
    assert(c == splice(b2, at, x));
    assert(fin.subrange(at, at + 8) =~= x);
}

/// A name string that stands in the image is read back.
proof fn lemma_held_name(
    sections: Seq<SectionModel>,
    base: u32,
    blob: Seq<u8>,
    off: int,
    s: Seq<char>,
)
    requires
        image_holds(sections, base, blob),
        utf16_encode(s).len() <= 0x1000,
        0 <= off,
        off + name_string(utf16_encode(s)).len() < blob.len(),
        blob.subrange(off, off + name_string(utf16_encode(s)).len()) == name_string(
            utf16_encode(s),
        ),
    ensures
        resource_name_at(sections, base, off) == Some(s),
{
    let u = utf16_encode(s);
    let ns = name_string(u);
    let head = le_bytes(2, u.len());
    let body = join(unit_parts(u));
    lemma_units(u);
    lemma_le_bytes_len(2, u.len());
    lemma_pow256_values();
    assert(ns.subrange(0, 0int + head.len()) =~= head);
    assert(ns.subrange(2, 2int + body.len()) =~= body);
    lemma_nested(blob, off, ns, 0, head);
    lemma_nested(blob, off, ns, 2, body);
    lemma_held_number(sections, base, blob, off, 2, u.len());
    assert(image_read(sections, (base + (off + 2)) as u32, body.len()) == Some(
        blob.subrange(off + 2, off + 2 + body.len()),
    ));
    utf16_roundtrip(s);
}

/// The name of an entry is read back from the bytes that its writing left.
proof fn lemma_name_read(
    sections: Seq<SectionModel>,
    base: u32,
    blob: Seq<u8>,
    b: Seq<u8>,
    name: ResourceNameModel,
)
    requires
        image_holds(sections, base, blob),
        name_sound(name),
        with_name(b, name) is Ok,
        (with_name(b, name)->Ok_0).0.len() < blob.len(),
        agree(blob, (with_name(b, name)->Ok_0).0, b.len() as int, (with_name(b, name)->Ok_0).0.len() as int),
    ensures
        resource_name_of(sections, base, (with_name(b, name)->Ok_0).1) == Some(name),
{
    if let ResourceNameModel::Named(s) = name {
        let b1 = (with_name(b, name)->Ok_0).0;
        let off = b.len() as int;
        let ns = name_string(utf16_encode(s));
        assert(blob.subrange(off, off + ns.len()) =~= ns) by {
            assert forall|q: int| off <= q < off + ns.len() implies blob[q] == ns[q - off] by {
                assert(b1[q] == ns[q - off]);
            }
        }
        lemma_held_name(sections, base, blob, off, s);
    }
}

/// A leaf is read back from the bytes that its writing left.
proof fn lemma_leaf_read(
    sections: Seq<SectionModel>,
    base: u32,
    blob: Seq<u8>,
    b1: Seq<u8>,
    l: ResourceDataEntry,
)
    requires
        image_holds(sections, base, blob),
        agree(blob, b1 + leaf_bytes(l), b1.len() as int, (b1 + leaf_bytes(l)).len() as int),
    ensures
        resource_leaf_at(sections, base, b1.len() as int) == Some(l),
{
    let off = b1.len() as int;
    let lb = leaf_bytes(l);
    let lv = seq![l.rva.0 as u64, l.size as u64, l.code_page as u64, 0u64];
    let ws = resource_data_fields();
    lemma_resource_data_size();
    lemma_pow256_values();
    lemma_encode_len(ws, lv);
    assert(blob.subrange(off, off + 16) =~= lb) by {
        assert forall|q: int| off <= q < off + 16 implies blob[q] == lb[q - off] by {
            assert((b1 + lb)[q] == lb[q - off]);
        }
    }
    assert(ws[0] == 4 && ws[1] == 4 && ws[2] == 4 && ws[3] == 4);
    assert(fields_fit(ws, lv));
    lemma_held_record(sections, base, blob, off, ws, lv);
}

/// The slot of entry `j` is read back.
proof fn lemma_slot_read(
    sections: Seq<SectionModel>,
    base: u32,
    blob: Seq<u8>,
    fin: Seq<u8>,
    at: int,
    name: u32,
    data: u32,
)
    requires
        image_holds(sections, base, blob),
        0 <= at,
        agree(blob, fin, at, at + 8),
        fin.subrange(at, at + 8) == encode_fields(
            resource_entry_fields(),
            seq![name as u64, data as u64],
        ),
    ensures
        image_record(sections, (base + at) as u32, resource_entry_fields()) == Some(
            seq![name as u64, data as u64],
        ),
{
    let vs = seq![name as u64, data as u64];
    lemma_resource_entry_size();
    lemma_pow256_values();
    assert(resource_entry_fields()[0] == 4 && resource_entry_fields()[1] == 4);
    assert(fields_fit(resource_entry_fields(), vs));
    assert(blob.subrange(at, at + 8) =~= fin.subrange(at, at + 8));
    lemma_held_record(sections, base, blob, at, resource_entry_fields(), vs);
}

/// Entry `j` of a written directory is read back.
proof fn lemma_entry_read(
    sections: Seq<SectionModel>,
    base: u32,
    blob: Seq<u8>,
    out: Seq<u8>,
    dir: nat,
    e: Seq<ResourceEntryModel>,
    depth: nat,
    j: nat,
)
    requires
        depth <= MAX_RENDER_RESOURCE_DEPTH,
        j < e.len(),
        dir + 16 + 8 * e.len() <= out.len(),
        with_entries(out, dir, e, depth, e.len()) is Ok,
        tree_sound(e),
        image_holds(sections, base, blob),
        blob.len() <= 0x7fff_ffff,
        agree(
            blob,
            with_entries(out, dir, e, depth, e.len())->Ok_0,
            dir as int,
            with_entries(out, dir, e, depth, e.len())->Ok_0.len() as int,
        ),
        resource_entries(sections, base, (base + dir) as u32, depth, j) == Some(e.take(j as int)),
    ensures
        resource_entries(sections, base, (base + dir) as u32, depth, j + 1) == Some(
            e.take((j + 1) as int),
        ),
    decreases MAX_RENDER_RESOURCE_DEPTH - depth, 2nat, 0nat,
{
    let fin = with_entries(out, dir, e, depth, e.len())->Ok_0;
    let x = e[j as int];
    lemma_entry_bytes(out, dir, e, depth, j);
    let b = with_entries(out, dir, e, depth, j)->Ok_0;
    let (b1, name) = with_name(b, x.name)->Ok_0;
    let (b2, data) = with_data(b1, x.data, depth)->Ok_0;
    let at = (dir + 16 + 8 * j) as int;
    assert(agree(blob, b2, b.len() as int, b2.len() as int)) by {
        assert forall|q: int| b.len() <= q < b2.len() implies blob[q] == b2[q] by {
            assert(fin[q] == b2[q]);
        }
    }
    lemma_slot_read(sections, base, blob, fin, at, name, data);
    assert(name_sound(x.name));
    lemma_data_appends(b1, x.data, depth);
    lemma_name_read(sections, base, blob, b, x.name);
    match x.data {
        ResourceDataModel::Directory(sub) => {
            assert(tree_sound(sub));
            lemma_directory_read(sections, base, blob, b1, sub, depth + 1);
            assert(data == 0x8000_0000 + b1.len());
        },
        ResourceDataModel::Leaf(l) => {
            lemma_leaf_read(sections, base, blob, b1, l);
            assert(data == b1.len());
        },
    }
    assert(e.take((j + 1) as int) =~= e.take(j as int).push(x));
}

/// The first `n` entries of a written directory are read back.
proof fn lemma_entries_read(
    sections: Seq<SectionModel>,
    base: u32,
    blob: Seq<u8>,
    out: Seq<u8>,
    dir: nat,
    e: Seq<ResourceEntryModel>,
    depth: nat,
    n: nat,
)
    requires
        depth <= MAX_RENDER_RESOURCE_DEPTH,
        n <= e.len(),
        dir + 16 + 8 * e.len() <= out.len(),
        with_entries(out, dir, e, depth, e.len()) is Ok,
        tree_sound(e),
        image_holds(sections, base, blob),
        blob.len() <= 0x7fff_ffff,
        agree(
            blob,
            with_entries(out, dir, e, depth, e.len())->Ok_0,
            dir as int,
            with_entries(out, dir, e, depth, e.len())->Ok_0.len() as int,
        ),
    ensures
        resource_entries(sections, base, (base + dir) as u32, depth, n) == Some(e.take(n as int)),
    decreases MAX_RENDER_RESOURCE_DEPTH - depth, 3nat, n,
{
    if n == 0 {
        assert(e.take(0) =~= Seq::empty());
    } else {
        lemma_entries_read(sections, base, blob, out, dir, e, depth, (n - 1) as nat);
        lemma_entry_read(sections, base, blob, out, dir, e, depth, (n - 1) as nat);
    }
}

/// A directory written behind `out` is read back from any image that holds the
/// bytes that were written.
proof fn lemma_directory_read(
    sections: Seq<SectionModel>,
    base: u32,
    blob: Seq<u8>,
    out: Seq<u8>,
    e: Seq<ResourceEntryModel>,
    depth: nat,
)
    requires
        with_directory(out, e, depth) is Ok,
        tree_sound(e),
        image_holds(sections, base, blob),
        blob.len() <= 0x7fff_ffff,
        agree(
            blob,
            with_directory(out, e, depth)->Ok_0,
            out.len() as int,
            with_directory(out, e, depth)->Ok_0.len() as int,
        ),
    ensures
        resources_at(sections, base, (base + out.len()) as u32, depth) == Some(e),
    decreases MAX_RENDER_RESOURCE_DEPTH + 1 - depth, 0nat, 0nat,
{
    let full = out + directory_head(e);
    let dir = out.len();
    lemma_directory_head_len(e);
    lemma_entries_keep(full, dir, e, depth, 0, e.len());
    let fin = with_directory(out, e, depth)->Ok_0;
    let vs = seq![
        0u64,
        0u64,
        0u64,
        0u64,
        named_count(e) as u64,
        (e.len() - named_count(e)) as u64,
    ];
    let ws = resource_dir_fields();
    lemma_resource_dir_size();
    lemma_pow256_values();
    lemma_encode_len(ws, vs);
    lemma_named_count(e);
    assert(ws[0] == 4 && ws[1] == 4 && ws[2] == 2 && ws[3] == 2 && ws[4] == 2 && ws[5] == 2);
    assert(fields_fit(ws, vs));
    assert(blob.subrange(dir as int, dir as int + 16) =~= encode_fields(ws, vs)) by {
        assert forall|q: int| dir <= q < dir + 16 implies blob[q] == full[q] by {
            assert(fin[q] == full[q]);
        }
    }
    lemma_held_record(sections, base, blob, dir as int, ws, vs);
    lemma_entries_read(sections, base, blob, full, dir, e, depth, e.len());
    assert(e.take(e.len() as int) =~= e);
}

proof fn lemma_named_count(e: Seq<ResourceEntryModel>)
    ensures
        named_count(e) <= e.len(),
    decreases e.len(),
{
    if e.len() > 0 {
        lemma_named_count(e.drop_last());
    }
}

/// A rendered resource tree that stands in an image is read back.
pub proof fn resources_survive(
    sections: Seq<SectionModel>,
    e: Seq<ResourceEntryModel>,
    base: u32,
)
    requires
        with_directory(Seq::empty(), e, 0) is Ok,
        tree_sound(e),
        with_directory(Seq::empty(), e, 0)->Ok_0.len() <= 0x7fff_ffff,
        image_holds(sections, base, with_directory(Seq::empty(), e, 0)->Ok_0),
    ensures
        resources_at(sections, base, base, 0) == Some(e),
{
    lemma_directory_read(
        sections,
        base,
        with_directory(Seq::empty(), e, 0)->Ok_0,
        Seq::empty(),
        e,
        0,
    );
}

/// The head of a resource directory counts its entries with a name and those
/// with a number, in this order, and leaves eight bytes for each.
pub proof fn directory_heads_count_their_entries(e: Seq<ResourceEntryModel>)
    requires
        e.len() <= u16::MAX,
    ensures
        ({
            let b = directory_head(e);
            let named = e.filter(|x: ResourceEntryModel| x.name is Named).len();
            &&& b.len() == 16 + 8 * e.len()
            &&& u16_at(b, 12) == named
            &&& u16_at(b, 14) == e.len() - named
        }),
{
    let vs = seq![0u64, 0u64, 0u64, 0u64, named_count(e) as u64, (e.len() - named_count(e)) as u64];
    lemma_named_filter(e);
    lemma_named_count(e);
    lemma_resource_dir_size();
    lemma_pow256_values();
    assert(fields_fit(resource_dir_fields(), vs));
    lemma_fields_roundtrip(resource_dir_fields(), vs);
    let r = encode_fields(resource_dir_fields(), vs);
    lemma_resource_dir_numbers(r);
    let b = directory_head(e);
    assert(b == r + zeros(8 * e.len()));
    assert(b[12] == r[12] && b[13] == r[13] && b[14] == r[14] && b[15] == r[15]);
}

proof fn lemma_named_filter(e: Seq<ResourceEntryModel>)
    ensures
        named_count(e) == e.filter(|x: ResourceEntryModel| x.name is Named).len(),
    decreases e.len(),
{
    reveal(Seq::filter);
    if e.len() > 0 {
        lemma_named_filter(e.drop_last());
    }
}

/// A TLS directory takes forty bytes in a 64-bit image, with eight more that are
/// zero, and twenty-four in a 32-bit one.
pub proof fn tls_directories_have_their_size(t: TlsDirectory, arch: Arch)
    ensures
        arch == Arch::Bit64 ==> tls_bytes(t, arch).len() == 48 && tls_bytes(t, arch).skip(40)
            == zeros(8),
        arch == Arch::Bit32 ==> tls_bytes(t, arch).len() == 24,
{
    lemma_tls64_size();
    lemma_tls32_size();
    lemma_encode_len(tls64_fields(), tls_values(t));
    lemma_encode_len(tls32_fields(), tls_values(t));
    if arch == Arch::Bit64 {
        assert(tls_bytes(t, arch).skip(40) =~= zeros(8));
    }
}

} // verus!
