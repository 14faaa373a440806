//! Adding bytes to an image changes nothing that could already be read from
//! it.

use crate::domain::data_directory::DataDirectory;
use crate::domain::document::{image_read, lemma_locate, lemma_locate_push};
use crate::domain::export::ExportTableModel;
use crate::domain::section::SectionModel;
use crate::domain::types::Arch;
use crate::io::pe::decode::{
    cstring, cstring_from, descriptor_thunks, ends_imports, export_symbol, export_symbols,
    exports_at, image_record, import_step, imports_from, load_config_at, relocs_from, reloc_extent,
    resource_entries, resource_name_of, resources_at, table_entry, thunk_function, thunks_from,
    tls_at, MAX_RESOURCE_DEPTH, MAX_STRING,
};
use crate::bytes::le_value;
use crate::io::pe::layout::import_fields;
use vstd::prelude::*;

verus! {

/// Everything that can be read from `a` reads the same from `b`.
pub open spec fn extends(a: Seq<SectionModel>, b: Seq<SectionModel>) -> bool {
    forall|r: u32, n: nat|
        #![trigger image_read(b, r, n)]
        image_read(a, r, n) is Some ==> image_read(b, r, n) == image_read(a, r, n)
}

/// Sections behind the others add to the image.
pub proof fn lemma_prefix_extends(a: Seq<SectionModel>, b: Seq<SectionModel>)
    requires
        a.len() <= b.len(),
        b.take(a.len() as int) == a,
    ensures
        extends(a, b),
    decreases b.len(),
{
    if a.len() == b.len() {
        assert(b.take(a.len() as int) =~= b);
    } else {
        let c = b.drop_last();
        assert(c.take(a.len() as int) =~= b.take(a.len() as int));
        lemma_prefix_extends(a, c);
        assert forall|r: u32, n: nat|
            #![trigger image_read(b, r, n)]
            image_read(a, r, n) is Some implies image_read(b, r, n) == image_read(a, r, n) by {
            assert(image_read(c, r, n) == image_read(a, r, n));
            lemma_locate(c, r);
            lemma_locate_push(c, b.last(), r);
            assert(c.push(b.last()) =~= b);
        }
    }
}

proof fn lemma_cstring_from(a: Seq<SectionModel>, b: Seq<SectionModel>, r: u32, i: nat)
    requires
        extends(a, b),
        cstring_from(a, r, i) is Some,
    ensures
        cstring_from(b, r, i) == cstring_from(a, r, i),
    decreases MAX_STRING - i,
{
    assert(image_read(b, (r + i) as u32, 1) == image_read(a, (r + i) as u32, 1));
    if image_read(a, (r + i) as u32, 1)->0[0] != 0 {
        lemma_cstring_from(a, b, r, i + 1);
    }
}

proof fn lemma_cstring(a: Seq<SectionModel>, b: Seq<SectionModel>, r: u32)
    requires
        extends(a, b),
        cstring(a, r) is Some,
    ensures
        cstring(b, r) == cstring(a, r),
{
    lemma_cstring_from(a, b, r, 0);
}

proof fn lemma_record(a: Seq<SectionModel>, b: Seq<SectionModel>, r: u32, ws: Seq<u8>)
    requires
        extends(a, b),
        image_record(a, r, ws) is Some,
    ensures
        image_record(b, r, ws) == image_record(a, r, ws),
{
    let n = crate::bytes::layout_size(ws);
    assert(image_read(b, r, n) == image_read(a, r, n));
}

proof fn lemma_thunk_function(a: Seq<SectionModel>, b: Seq<SectionModel>, v: nat, ps: nat)
    requires
        extends(a, b),
        thunk_function(a, v, ps) is Some,
    ensures
        thunk_function(b, v, ps) == thunk_function(a, v, ps),
{
    let r = (v % 0x1_0000_0000) as u32;
    if v < crate::io::pe::decode::ordinal_flag(ps) {
        assert(image_read(b, r, 2) == image_read(a, r, 2));
        lemma_cstring(a, b, (r + 2) as u32);
    }
}

/// Whether a thunk array of `a` ends in `b` where it ends in `a`: at a zero
/// thunk, or at a place that can be read from neither.
pub open spec fn thunks_end_alike(
    a: Seq<SectionModel>,
    b: Seq<SectionModel>,
    addr: int,
    ps: nat,
) -> bool
    decreases 0x1_0000_0020 - addr,
{
    addr > u32::MAX || ps == 0 || ps > 8 || match image_read(a, addr as u32, ps) {
        None => image_read(b, addr as u32, ps) is None,
        Some(x) => le_value(x) == 0 || thunks_end_alike(a, b, addr + ps, ps),
    }
}

/// Whether an import table of `a` and each of its thunk arrays end in `b` where
/// they end in `a`.
pub open spec fn imports_end_alike(
    a: Seq<SectionModel>,
    b: Seq<SectionModel>,
    addr: int,
    ps: nat,
) -> bool
    decreases 0x1_0000_0020 - addr,
{
    addr > u32::MAX || match image_record(a, addr as u32, import_fields()) {
        None => image_record(b, addr as u32, import_fields()) is None,
        Some(d) => ends_imports(d) || (thunks_end_alike(a, b, descriptor_thunks(d) as int, ps)
            && imports_end_alike(a, b, addr + 20, ps)),
    }
}

/// A table ends alike in one and the same image.
pub proof fn lemma_ends_alike_itself(a: Seq<SectionModel>, addr: int, ps: nat)
    ensures
        imports_end_alike(a, a, addr, ps),
    decreases 0x1_0000_0020 - addr,
{
    if addr <= u32::MAX {
        if let Some(d) = image_record(a, addr as u32, import_fields()) {
            lemma_thunks_end_itself(a, descriptor_thunks(d) as int, ps);
            lemma_ends_alike_itself(a, addr + 20, ps);
        }
    }
}

proof fn lemma_thunks_end_itself(a: Seq<SectionModel>, addr: int, ps: nat)
    ensures
        thunks_end_alike(a, a, addr, ps),
    decreases 0x1_0000_0020 - addr,
{
    if !(addr > u32::MAX || ps == 0 || ps > 8) && image_read(a, addr as u32, ps) is Some {
        lemma_thunks_end_itself(a, addr + ps, ps);
    }
}

/// What ends alike in `a` and `b` ends alike in every image that reads as `b`.
pub proof fn lemma_ends_alike_same(
    a: Seq<SectionModel>,
    b: Seq<SectionModel>,
    c: Seq<SectionModel>,
    addr: int,
    ps: nat,
)
    requires
        imports_end_alike(a, b, addr, ps),
        forall|r: u32, n: nat| #[trigger] image_read(c, r, n) == image_read(b, r, n),
    ensures
        imports_end_alike(a, c, addr, ps),
    decreases 0x1_0000_0020 - addr,
{
    if addr <= u32::MAX {
        let n = crate::bytes::layout_size(import_fields());
        assert(image_read(c, addr as u32, n) == image_read(b, addr as u32, n));
        if let Some(d) = image_record(a, addr as u32, import_fields()) {
            if !ends_imports(d) {
                lemma_thunks_end_same(a, b, c, descriptor_thunks(d) as int, ps);
                lemma_ends_alike_same(a, b, c, addr + 20, ps);
            }
        }
    }
}

proof fn lemma_thunks_end_same(
    a: Seq<SectionModel>,
    b: Seq<SectionModel>,
    c: Seq<SectionModel>,
    addr: int,
    ps: nat,
)
    requires
        thunks_end_alike(a, b, addr, ps),
        forall|r: u32, n: nat| #[trigger] image_read(c, r, n) == image_read(b, r, n),
    ensures
        thunks_end_alike(a, c, addr, ps),
    decreases 0x1_0000_0020 - addr,
{
    if !(addr > u32::MAX || ps == 0 || ps > 8) {
        assert(image_read(c, addr as u32, ps) == image_read(b, addr as u32, ps));
        if let Some(x) = image_read(a, addr as u32, ps) {
            if le_value(x) != 0 {
                lemma_thunks_end_same(a, b, c, addr + ps, ps);
            }
        }
    }
}

proof fn lemma_thunks(a: Seq<SectionModel>, b: Seq<SectionModel>, addr: int, ps: nat)
    requires
        extends(a, b),
        thunks_end_alike(a, b, addr, ps),
        thunks_from(a, addr, ps) is Some,
    ensures
        thunks_from(b, addr, ps) == thunks_from(a, addr, ps),
    decreases 0x1_0000_0020 - addr,
{
    if !(addr > u32::MAX || ps == 0 || ps > 8) {
        if let Some(x) = image_read(a, addr as u32, ps) {
            assert(image_read(b, addr as u32, ps) == image_read(a, addr as u32, ps));
            if le_value(x) != 0 {
                lemma_thunk_function(a, b, le_value(x), ps);
                lemma_thunks(a, b, addr + ps, ps);
            }
        }
    }
}

/// An import table that ends alike reads the same from a larger image.
pub proof fn lemma_imports_extend(a: Seq<SectionModel>, b: Seq<SectionModel>, addr: int, ps: nat)
    requires
        extends(a, b),
        imports_end_alike(a, b, addr, ps),
        imports_from(a, addr, ps) is Some,
    ensures
        imports_from(b, addr, ps) == imports_from(a, addr, ps),
    decreases 0x1_0000_0020 - addr,
{
    if addr <= u32::MAX {
        if let Some(d) = image_record(a, addr as u32, import_fields()) {
            lemma_record(a, b, addr as u32, import_fields());
            if !ends_imports(d) {
                assert(import_step(a, addr as u32, ps) is Item);
                lemma_cstring(a, b, d[3] as u32);
                lemma_thunks(a, b, descriptor_thunks(d) as int, ps);
                lemma_imports_extend(a, b, addr + 20, ps);
            }
        }
    }
}

proof fn lemma_table_entry(
    a: Seq<SectionModel>,
    b: Seq<SectionModel>,
    r: u32,
    i: nat,
    step: nat,
)
    requires
        extends(a, b),
        table_entry(a, r, i, step) is Some,
    ensures
        table_entry(b, r, i, step) == table_entry(a, r, i, step),
{
    let at = (r + step * i) as u32;
    assert(image_read(b, at, step) == image_read(a, at, step));
}

proof fn lemma_export_symbol(
    a: Seq<SectionModel>,
    b: Seq<SectionModel>,
    dd: DataDirectory,
    d: Seq<u64>,
    i: nat,
)
    requires
        extends(a, b),
        export_symbol(a, dd, d, i) is Some,
    ensures
        export_symbol(b, dd, d, i) == export_symbol(a, dd, d, i),
{
    lemma_table_entry(a, b, d[9] as u32, i, 4);
    lemma_table_entry(a, b, d[10] as u32, i, 2);
    let idx = table_entry(a, d[10] as u32, i, 2)->0;
    lemma_table_entry(a, b, d[8] as u32, idx, 4);
    lemma_cstring(a, b, table_entry(a, d[9] as u32, i, 4)->0 as u32);
    let func = table_entry(a, d[8] as u32, idx, 4)->0;
    if dd.rva.0 <= func < crate::io::pe::decode::directory_end(dd) {
        lemma_cstring(a, b, func as u32);
    }
}

proof fn lemma_export_symbols(
    a: Seq<SectionModel>,
    b: Seq<SectionModel>,
    dd: DataDirectory,
    d: Seq<u64>,
    n: nat,
)
    requires
        extends(a, b),
        export_symbols(a, dd, d, n) is Some,
    ensures
        export_symbols(b, dd, d, n) == export_symbols(a, dd, d, n),
    decreases n,
{
    if n > 0 {
        lemma_export_symbols(a, b, dd, d, (n - 1) as nat);
        lemma_export_symbol(a, b, dd, d, (n - 1) as nat);
    }
}

/// An export table reads the same from a larger image, but that a module name
/// that could not be read may then be there.
pub proof fn lemma_exports_extend(a: Seq<SectionModel>, b: Seq<SectionModel>, dd: DataDirectory)
    requires
        extends(a, b),
        exports_at(a, dd) is Some,
    ensures
        exports_at(b, dd) is Some,
        exports_at(b, dd)->0 == (ExportTableModel {
            module_name: exports_at(b, dd)->0.module_name,
            ..exports_at(a, dd)->0
        }),
        exports_at(a, dd)->0.module_name is Some ==> exports_at(b, dd) == exports_at(a, dd),
{
    let ws = crate::io::pe::layout::export_fields();
    lemma_record(a, b, dd.rva.0, ws);
    let d = image_record(a, dd.rva.0, ws)->0;
    lemma_export_symbols(a, b, dd, d, d[7] as u32 as nat);
    if cstring(a, d[4] as u32) is Some {
        lemma_cstring(a, b, d[4] as u32);
    }
}

proof fn lemma_resource_name(a: Seq<SectionModel>, b: Seq<SectionModel>, base: u32, f: u32)
    requires
        extends(a, b),
        resource_name_of(a, base, f) is Some,
    ensures
        resource_name_of(b, base, f) == resource_name_of(a, base, f),
{
    if f >= 0x8000_0000 {
        let o = f - 0x8000_0000;
        let x = image_read(a, (base + o) as u32, 2);
        assert(image_read(b, (base + o) as u32, 2) == x);
        let n = le_value(x->0) * 2;
        assert(image_read(b, (base + o + 2) as u32, n) == image_read(a, (base + o + 2) as u32, n));
    }
}

/// A readable resource tree reads the same from a larger image.
pub proof fn lemma_resources_extend(
    a: Seq<SectionModel>,
    b: Seq<SectionModel>,
    base: u32,
    dir: u32,
    depth: nat,
)
    requires
        extends(a, b),
        resources_at(a, base, dir, depth) is Some,
    ensures
        resources_at(b, base, dir, depth) == resources_at(a, base, dir, depth),
    decreases MAX_RESOURCE_DEPTH + 1 - depth, 0nat,
{
    let ws = crate::io::pe::layout::resource_dir_fields();
    lemma_record(a, b, dir, ws);
    let h = image_record(a, dir, ws)->0;
    lemma_resource_entries(a, b, base, dir, depth, (h[4] as u16 + h[5] as u16) as nat);
}

proof fn lemma_resource_entries(
    a: Seq<SectionModel>,
    b: Seq<SectionModel>,
    base: u32,
    dir: u32,
    depth: nat,
    n: nat,
)
    requires
        extends(a, b),
        depth <= MAX_RESOURCE_DEPTH,
        resource_entries(a, base, dir, depth, n) is Some,
    ensures
        resource_entries(b, base, dir, depth, n) == resource_entries(a, base, dir, depth, n),
    decreases MAX_RESOURCE_DEPTH - depth, n,
{
    if n > 0 {
        lemma_resource_entries(a, b, base, dir, depth, (n - 1) as nat);
        let ws = crate::io::pe::layout::resource_entry_fields();
        let at = (dir + 16 + 8 * (n - 1)) as u32;
        lemma_record(a, b, at, ws);
        let v = image_record(a, at, ws)->0;
        lemma_resource_name(a, b, base, v[0] as u32);
        let f = v[1] as u32;
        if f >= 0x8000_0000 {
            lemma_resources_extend(a, b, base, (base + (f - 0x8000_0000)) as u32, depth + 1);
        } else {
            let wd = crate::io::pe::layout::resource_data_fields();
            lemma_record(a, b, (base + f) as u32, wd);
        }
    }
}

/// A readable relocation table reads the same from a larger image.
pub proof fn lemma_relocs_extend(
    a: Seq<SectionModel>,
    b: Seq<SectionModel>,
    dd: DataDirectory,
    off: nat,
)
    requires
        extends(a, b),
        relocs_from(a, dd, off) is Some,
    ensures
        relocs_from(b, dd, off) == relocs_from(a, dd, off),
    decreases reloc_extent(dd) + 0x1_0000_0000 - off,
{
    if off + 8 <= reloc_extent(dd) {
        let ws = crate::io::pe::layout::reloc_fields();
        let at = (dd.rva.0 + off) as u32;
        lemma_record(a, b, at, ws);
        let h = image_record(a, at, ws)->0;
        let size = h[1] as u32;
        if size >= 8 {
            let body = (dd.rva.0 + off + 8) as u32;
            let n = (size - 8) as nat;
            assert(image_read(b, body, n) == image_read(a, body, n));
            lemma_relocs_extend(a, b, dd, off + size as nat);
        }
    }
}

/// A readable TLS directory reads the same from a larger image.
pub proof fn lemma_tls_extend(
    a: Seq<SectionModel>,
    b: Seq<SectionModel>,
    arch: Arch,
    dd: DataDirectory,
)
    requires
        extends(a, b),
        tls_at(a, arch, dd) is Some,
    ensures
        tls_at(b, arch, dd) == tls_at(a, arch, dd),
{
    lemma_record(a, b, dd.rva.0, crate::io::pe::decode::tls_fields(arch));
}

/// A readable load configuration reads the same from a larger image.
pub proof fn lemma_load_config_extend(
    a: Seq<SectionModel>,
    b: Seq<SectionModel>,
    arch: Arch,
    dd: DataDirectory,
)
    requires
        extends(a, b),
        load_config_at(a, arch, dd) is Some,
    ensures
        load_config_at(b, arch, dd) == load_config_at(a, arch, dd),
{
    let r = dd.rva.0;
    assert(image_read(b, r, 4) == image_read(a, r, 4));
    let n = crate::io::pe::decode::load_config_extent(
        le_value(image_read(a, r, 4)->0) as u32,
        arch,
    );
    assert(image_read(b, r, n) == image_read(a, r, n));
}

} // verus!
