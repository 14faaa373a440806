//! A rendered import table is read back as it was.

use crate::bytes::{
    decode_fields, encode_fields, fields_fit, join, layout_size, le_bytes, le_value,
    lemma_decode_len, lemma_decode_prefix, lemma_encode_len, lemma_fields_roundtrip,
    lemma_join_part, lemma_le_bytes_len, lemma_le_roundtrip, lemma_pow256_values, pow256, zeros,
};
use crate::domain::document::image_read;
use crate::domain::import::{ImportDescriptorModel, ImportFunctionModel};
use crate::domain::section::SectionModel;
use crate::domain::types::{pointer_size, Arch};
use crate::io::pe::decode::{
    cstring, descriptor_thunks, ends_imports, image_record, import_step, imports_from, ordinal_flag,
    thunk_function, thunks_from, ImportStep,
};
use crate::io::pe::import_render::{
    address, addressable, array_len, array_parts, arrays_len, descriptor_parts, descriptor_values,
    descriptors_len, hint_off, hint_part, hint_parts, hints_off, iat_off, import_blob, int_off,
    module_addressable, module_hints, module_names, module_thunks, name_off, nul_terminated,
    rendered_import, table_addressable, thunk_array, thunk_parts, thunk_value,
};
use crate::io::pe::laws::format::u32_at;
use crate::io::pe::laws::headers::{lemma_low, lemma_nested};
use crate::io::pe::laws::image::{image_holds, lemma_held_number, lemma_held_text, plain_text};
use crate::io::pe::laws::tables::lemma_import_numbers;
use crate::io::pe::layout::{import_fields, lemma_import_size};
use vstd::prelude::*;
use vstd::utf8::encode_utf8;

verus! {

/// Whether every name of an import table can be read back.
pub open spec fn plain_imports(im: Seq<ImportDescriptorModel>) -> bool {
    forall|m: int| 0 <= m < im.len() ==> #[trigger] plain_module(im[m])
}

/// Whether the names of one module can be read back.
pub open spec fn plain_module(d: ImportDescriptorModel) -> bool {
    &&& plain_text(d.name)
    &&& forall|k: int| 0 <= k < d.functions.len() ==> #[trigger] plain_function(d.functions[k])
}

pub open spec fn plain_function(f: ImportFunctionModel) -> bool {
    f matches ImportFunctionModel::Name(_, name) ==> plain_text(name)
}

/// The rendered table lies where every address in it fits, and for 4-byte
/// thunks below the ordinal flag.
pub open spec fn imports_placed(im: Seq<ImportDescriptorModel>, ps: nat, base: u32) -> bool {
    &&& im.len() > 0
    &&& ps == 4 || ps == 8
    &&& base + import_blob(im, ps, base).len() <= if ps == 8 {
        0xffff_ffffint
    } else {
        0x7fff_ffff
    }
}

/// Whether byte `i` of a rendered table of `n` modules belongs to the field of a
/// descriptor that points at its bound thunk array.
pub open spec fn in_bound_pointer(n: nat, i: int) -> bool {
    i < 20 * n && i % 20 >= 16
}

/// Whether `blob` is the rendered table, but for where the descriptors say that
/// their bound thunk arrays are.
pub open spec fn is_table(
    blob: Seq<u8>,
    im: Seq<ImportDescriptorModel>,
    ps: nat,
    base: u32,
) -> bool {
    &&& blob.len() == import_blob(im, ps, base).len()
    &&& forall|i: int|
        0 <= i < blob.len() && !in_bound_pointer(im.len(), i) ==> #[trigger] blob[i]
            == import_blob(im, ps, base)[i]
}

/// Behind its descriptors a table is what was rendered.
proof fn lemma_table_slice(
    blob: Seq<u8>,
    im: Seq<ImportDescriptorModel>,
    ps: nat,
    base: u32,
    a: int,
    b: int,
)
    requires
        is_table(blob, im, ps, base),
        20 * im.len() <= a <= b <= blob.len(),
    ensures
        blob.subrange(a, b) == import_blob(im, ps, base).subrange(a, b),
{
    assert forall|i: int| a <= i < b implies blob[i] == import_blob(im, ps, base)[i] by {
        assert(!in_bound_pointer(im.len(), i));
    }
    assert(blob.subrange(a, b) =~= import_blob(im, ps, base).subrange(a, b));
}

proof fn lemma_array_len(vs: Seq<u64>, ps: nat)
    ensures
        thunk_array(vs, ps).len() == (vs.len() + 1) * ps,
        join(thunk_parts(vs, ps)).len() == vs.len() * ps,
{
    reveal(thunk_array);
    lemma_thunk_parts_len(vs, ps, vs.len() as int);
    assert(thunk_parts(vs, ps).take(vs.len() as int) =~= thunk_parts(vs, ps));
    assert((vs.len() + 1) * ps == vs.len() * ps + ps) by (nonlinear_arith);
}

proof fn lemma_thunk_parts_len(vs: Seq<u64>, ps: nat, k: int)
    requires
        0 <= k <= vs.len(),
    ensures
        join(thunk_parts(vs, ps).take(k)).len() == k * ps,
    decreases k,
{
    let parts = thunk_parts(vs, ps);
    if k > 0 {
        lemma_thunk_parts_len(vs, ps, k - 1);
        assert(parts.take(k).drop_last() =~= parts.take(k - 1));
        lemma_le_bytes_len(ps, vs[k - 1] as nat);
        assert(k * ps == (k - 1) * ps + ps) by (nonlinear_arith);
    } else {
        assert(parts.take(0) =~= Seq::empty());
        assert(0 * ps == 0) by (nonlinear_arith);
    }
}

proof fn lemma_arrays_len(im: Seq<ImportDescriptorModel>, ps: nat, base: u32, m: int)
    requires
        0 <= m <= im.len(),
    ensures
        join(array_parts(im, ps, base).take(m)).len() == arrays_len(im.take(m), ps),
    decreases m,
{
    let parts = array_parts(im, ps, base);
    if m > 0 {
        lemma_arrays_len(im, ps, base, m - 1);
        assert(parts.take(m).drop_last() =~= parts.take(m - 1));
        assert(im.take(m).drop_last() =~= im.take(m - 1));
        lemma_array_len(module_thunks(im, ps, base, m - 1), ps);
        reveal(array_len);
    } else {
        assert(parts.take(0) =~= Seq::empty());
        assert(im.take(0) =~= Seq::empty());
    }
}

proof fn lemma_descriptors_len(im: Seq<ImportDescriptorModel>, ps: nat, base: u32, m: int)
    requires
        0 <= m <= im.len(),
    ensures
        join(descriptor_parts(im, ps, base).take(m)).len() == 20 * m,
    decreases m,
{
    let parts = descriptor_parts(im, ps, base);
    if m > 0 {
        lemma_descriptors_len(im, ps, base, m - 1);
        assert(parts.take(m).drop_last() =~= parts.take(m - 1));
        lemma_import_size();
        lemma_encode_len(import_fields(), descriptor_values(im, ps, base, m - 1));
    } else {
        assert(parts.take(0) =~= Seq::empty());
    }
}

/// Where the five areas of the blob stand.
proof fn lemma_areas(im: Seq<ImportDescriptorModel>, ps: nat, base: u32)
    ensures
        ({
            let blob = import_blob(im, ps, base);
            let dl = descriptors_len(im.len()) as int;
            let ho = hints_off(im, ps) as int;
            let ap = join(array_parts(im, ps, base));
            let hp = join(module_hints(im));
            let np = join(module_names(im));
            &&& join(descriptor_parts(im, ps, base)).len() == 20 * im.len()
            &&& ap.len() == arrays_len(im, ps)
            &&& blob.len() == ho + hp.len() + np.len()
            &&& blob.subrange(0, 20 * im.len() as int) == join(descriptor_parts(im, ps, base))
            &&& blob.subrange(20 * im.len() as int, dl) == zeros(20)
            &&& blob.subrange(dl, dl + ap.len()) == ap
            &&& blob.subrange(ho, ho + hp.len()) == hp
            &&& blob.subrange(ho + hp.len(), ho + hp.len() + np.len()) == np
        }),
{
    reveal(import_blob);
    let n = im.len() as int;
    lemma_descriptors_len(im, ps, base, n);
    lemma_arrays_len(im, ps, base, n);
    assert(descriptor_parts(im, ps, base).take(n) =~= descriptor_parts(im, ps, base));
    assert(array_parts(im, ps, base).take(n) =~= array_parts(im, ps, base));
    assert(im.take(n) =~= im);
    let blob = import_blob(im, ps, base);
    let dl = descriptors_len(im.len()) as int;
    let ho = hints_off(im, ps) as int;
    let dp = join(descriptor_parts(im, ps, base));
    let ap = join(array_parts(im, ps, base));
    let hp = join(module_hints(im));
    let np = join(module_names(im));
    assert(blob.subrange(0, 20 * n) =~= dp);
    assert(blob.subrange(20 * n, dl) =~= zeros(20));
    assert(blob.subrange(dl, dl + ap.len()) =~= ap);
    assert(blob.subrange(ho, ho + hp.len()) =~= hp);
    assert(blob.subrange(ho + hp.len(), ho + hp.len() + np.len()) =~= np);
}

/// The descriptors of a rendered table are among its bytes.
pub proof fn lemma_table_len(im: Seq<ImportDescriptorModel>, ps: nat, base: u32)
    ensures
        20 * im.len() <= import_blob(im, ps, base).len(),
{
    lemma_areas(im, ps, base);
}

/// Module `m`'s descriptor stands in its place.
proof fn lemma_descriptor_slice(im: Seq<ImportDescriptorModel>, ps: nat, base: u32, m: int)
    requires
        0 <= m < im.len(),
    ensures
        20 * m + 20 <= import_blob(im, ps, base).len(),
        import_blob(im, ps, base).subrange(20 * m, 20 * m + 20) == encode_fields(
            import_fields(),
            descriptor_values(im, ps, base, m),
        ),
{
    let parts = descriptor_parts(im, ps, base);
    lemma_areas(im, ps, base);
    lemma_descriptors_len(im, ps, base, m);
    lemma_descriptors_len(im, ps, base, m + 1);
    lemma_join_part(parts, m);
    lemma_nested(import_blob(im, ps, base), 0, join(parts), 20 * m, parts[m]);
}

/// Both thunk arrays of module `m` stand in their places.
proof fn lemma_array_slice(im: Seq<ImportDescriptorModel>, ps: nat, base: u32, m: int)
    requires
        0 <= m < im.len(),
    ensures
        ({
            let blob = import_blob(im, ps, base);
            let arr = thunk_array(module_thunks(im, ps, base, m), ps);
            &&& arr.len() == array_len(im[m], ps)
            &&& iat_off(im, ps, m) + arr.len() <= blob.len()
            &&& blob.subrange(int_off(im, ps, m) as int, (int_off(im, ps, m) + arr.len()) as int)
                == arr
            &&& blob.subrange(iat_off(im, ps, m) as int, (iat_off(im, ps, m) + arr.len()) as int)
                == arr
        }),
{
    let blob = import_blob(im, ps, base);
    let parts = array_parts(im, ps, base);
    let arr = thunk_array(module_thunks(im, ps, base, m), ps);
    lemma_areas(im, ps, base);
    lemma_arrays_len(im, ps, base, m);
    lemma_join_part(parts, m);
    lemma_array_len(module_thunks(im, ps, base, m), ps);
    reveal(array_len);
    let dl = descriptors_len(im.len()) as int;
    let at = join(parts.take(m)).len() as int;
    lemma_nested(blob, dl, join(parts), at, parts[m]);
    let io = int_off(im, ps, m) as int;
    assert(parts[m] == arr + arr);
    assert(parts[m].subrange(0, 0int + arr.len()) =~= arr);
    assert(parts[m].subrange(arr.len() as int, arr.len() as int + arr.len()) =~= arr);
    lemma_nested(blob, io, parts[m], 0, arr);
    lemma_nested(blob, io, parts[m], arr.len() as int, arr);
}

/// Thunk `k` of a thunk array stands in its place, and a zero thunk behind the
/// last.
proof fn lemma_thunk_slice(vs: Seq<u64>, ps: nat, k: int)
    requires
        0 <= k <= vs.len(),
    ensures
        k * ps + ps <= thunk_array(vs, ps).len(),
        0 <= k * ps,
        thunk_array(vs, ps).subrange(k * ps, k * ps + ps) == if k < vs.len() {
            le_bytes(ps, vs[k] as nat)
        } else {
            zeros(ps)
        },
{
    reveal(thunk_array);
    lemma_array_len(vs, ps);
    let parts = thunk_parts(vs, ps);
    let a = thunk_array(vs, ps);
    assert(0 <= k * ps && k * ps + ps <= (vs.len() + 1) * ps) by (nonlinear_arith)
        requires
            0 <= k <= vs.len(),
            ps >= 0,
    ;
    if k < vs.len() {
        lemma_thunk_parts_len(vs, ps, k);
        lemma_join_part(parts, k);
        lemma_le_bytes_len(ps, vs[k] as nat);
        assert(a.subrange(0, 0int + join(parts).len()) =~= join(parts));
        lemma_nested(a, 0, join(parts), k * ps, parts[k]);
    } else {
        assert(a.subrange(k * ps, k * ps + ps) =~= zeros(ps));
    }
}

/// The hint/name entry of function `k` of module `m` stands in its place.
proof fn lemma_hint_slice(im: Seq<ImportDescriptorModel>, ps: nat, base: u32, m: int, k: int)
    requires
        0 <= m < im.len(),
        0 <= k < im[m].functions.len(),
    ensures
        ({
            let blob = import_blob(im, ps, base);
            let h = hint_part(im[m].functions[k]);
            let at = hint_off(im, ps, m, k) as int;
            &&& at + h.len() <= blob.len()
            &&& blob.subrange(at, at + h.len()) == h
        }),
{
    let blob = import_blob(im, ps, base);
    let fs = im[m].functions;
    let mods = module_hints(im);
    let parts = hint_parts(fs);
    lemma_areas(im, ps, base);
    lemma_join_part(mods, m);
    assert(mods.take(m) =~= module_hints(im.take(m)));
    lemma_join_part(parts, k);
    assert(parts.take(k) =~= hint_parts(fs.take(k)));
    let ho = hints_off(im, ps) as int;
    lemma_nested(blob, ho, join(mods), join(mods.take(m)).len() as int, mods[m]);
    lemma_nested(
        blob,
        ho + join(mods.take(m)).len(),
        mods[m],
        join(parts.take(k)).len() as int,
        parts[k],
    );
}

/// Module `m`'s name stands in its place.
proof fn lemma_name_slice(im: Seq<ImportDescriptorModel>, ps: nat, base: u32, m: int)
    requires
        0 <= m < im.len(),
    ensures
        ({
            let blob = import_blob(im, ps, base);
            let s = nul_terminated(im[m].name);
            let at = name_off(im, ps, m) as int;
            &&& at + s.len() <= blob.len()
            &&& blob.subrange(at, at + s.len()) == s
        }),
{
    let blob = import_blob(im, ps, base);
    let parts = module_names(im);
    lemma_areas(im, ps, base);
    lemma_join_part(parts, m);
    assert(parts.take(m) =~= module_names(im.take(m)));
    let no = (hints_off(im, ps) + join(module_hints(im)).len()) as int;
    lemma_nested(blob, no, join(parts), join(parts.take(m)).len() as int, parts[m]);
}

/// The hint/name entry of a function imported by name is read back.
proof fn lemma_held_hint(
    sections: Seq<SectionModel>,
    blob: Seq<u8>,
    im: Seq<ImportDescriptorModel>,
    ps: nat,
    base: u32,
    m: int,
    k: int,
)
    requires
        imports_placed(im, ps, base),
        plain_imports(im),
        image_holds(sections, base, blob),
        is_table(blob, im, ps, base),
        0 <= m < im.len(),
        0 <= k < im[m].functions.len(),
        im[m].functions[k] is Name,
    ensures
        ({
            let at = hint_off(im, ps, m, k) as int;
            let hint = im[m].functions[k]->Name_0;
            let name = im[m].functions[k]->Name_1;
            &&& 0 < at
            &&& base + at + 2 <= if ps == 8 {
                0xffff_ffffint
            } else {
                0x7fff_ffff
            }
            &&& thunk_value(im, ps, base, m, k) == base + at
            &&& image_read(sections, (base + at) as u32, 2) == Some(le_bytes(2, hint as nat))
            &&& le_value(le_bytes(2, hint as nat)) == hint
            &&& cstring(sections, (base + (at + 2)) as u32) == Some(name)
        }),
{
    let f = im[m].functions[k];
    let hint = f->Name_0;
    let name = f->Name_1;
    lemma_pow256_values();
    assert(plain_module(im[m]));
    assert(plain_function(f));
    reveal(hint_part);
    reveal(nul_terminated);
    lemma_hint_slice(im, ps, base, m, k);
    let at = hint_off(im, ps, m, k) as int;
    let h = hint_part(f);
    lemma_table_slice(blob, im, ps, base, at, at + h.len());
    lemma_le_bytes_len(2, hint as nat);
    lemma_low(at as nat);
    assert(h.subrange(0, 0int + le_bytes(2, hint as nat).len()) =~= le_bytes(2, hint as nat));
    lemma_nested(blob, at, h, 0, le_bytes(2, hint as nat));
    lemma_held_number(sections, base, blob, at, 2, hint as nat);
    let s = nul_terminated(name);
    assert(h.subrange(2, 2int + s.len()) =~= s);
    lemma_nested(blob, at, h, 2, s);
    lemma_held_text(sections, base, blob, at + 2, name);
}

/// A thunk of the rendered table stands for its function.
proof fn lemma_thunk_function(
    sections: Seq<SectionModel>,
    blob: Seq<u8>,
    im: Seq<ImportDescriptorModel>,
    ps: nat,
    base: u32,
    m: int,
    k: int,
)
    requires
        imports_placed(im, ps, base),
        plain_imports(im),
        image_holds(sections, base, blob),
        is_table(blob, im, ps, base),
        0 <= m < im.len(),
        0 <= k < im[m].functions.len(),
    ensures
        thunk_value(im, ps, base, m, k) > 0,
        thunk_value(im, ps, base, m, k) < pow256(ps),
        thunk_value(im, ps, base, m, k) <= u64::MAX,
        thunk_function(sections, thunk_value(im, ps, base, m, k), ps) == Some(
            im[m].functions[k],
        ),
{
    lemma_pow256_values();
    match im[m].functions[k] {
        ImportFunctionModel::Ordinal(o) => {
            assert((ordinal_flag(ps) + o as nat) % 0x1_0000 == o);
        },
        ImportFunctionModel::Name(hint, name) => {
            lemma_held_hint(sections, blob, im, ps, base, m, k);
            let v = thunk_value(im, ps, base, m, k);
            assert(v % 0x1_0000_0000 == v);
        },
    }
}

/// The rest of module `m`'s thunk array, from function `k` on, is read back.
proof fn lemma_thunks(
    sections: Seq<SectionModel>,
    blob: Seq<u8>,
    im: Seq<ImportDescriptorModel>,
    ps: nat,
    base: u32,
    m: int,
    k: int,
)
    requires
        imports_placed(im, ps, base),
        plain_imports(im),
        image_holds(sections, base, blob),
        is_table(blob, im, ps, base),
        0 <= m < im.len(),
        0 <= k <= im[m].functions.len(),
    ensures
        thunks_from(sections, base + int_off(im, ps, m) + k * ps, ps) == Some(
            im[m].functions.skip(k),
        ),
    decreases im[m].functions.len() - k,
{
    let fs = im[m].functions;
    let vs = module_thunks(im, ps, base, m);
    let arr = thunk_array(vs, ps);
    let io = int_off(im, ps, m) as int;
    lemma_array_slice(im, ps, base, m);
    lemma_table_slice(blob, im, ps, base, io, io + arr.len());
    lemma_thunk_slice(vs, ps, k);
    let piece = arr.subrange(k * ps, k * ps + ps);
    lemma_nested(blob, io, arr, k * ps, piece);
    let at = io + k * ps;
    assert(image_read(sections, (base + at) as u32, ps) == Some(blob.subrange(at, at + ps)));
    assert((base + at) as u32 == base + at);
    if k < fs.len() {
        lemma_thunk_function(sections, blob, im, ps, base, m, k);
        lemma_thunks(sections, blob, im, ps, base, m, k + 1);
        let v = thunk_value(im, ps, base, m, k);
        assert(vs[k] == v);
        lemma_le_roundtrip(ps, v);
        assert((k + 1) * ps == k * ps + ps) by (nonlinear_arith);
        assert(fs.skip(k) =~= seq![fs[k]] + fs.skip(k + 1));
    } else {
        lemma_zeros_value(ps);
        assert(fs.skip(k) =~= Seq::empty());
    }
}

pub proof fn lemma_zeros_value(n: nat)
    ensures
        le_value(zeros(n)) == 0,
    decreases n,
{
    if n > 0 {
        lemma_zeros_value((n - 1) as nat);
        assert(zeros(n).drop_first() =~= zeros((n - 1) as nat));
    }
}

/// Decoding zeros gives zeros.
pub proof fn lemma_zeros_fields(ws: Seq<u8>, b: Seq<u8>)
    requires
        layout_size(ws) <= b.len(),
        forall|i: int| 0 <= i < b.len() ==> b[i] == 0,
    ensures
        decode_fields(ws, b).len() == ws.len(),
        forall|i: int| 0 <= i < ws.len() ==> #[trigger] decode_fields(ws, b)[i] == 0,
    decreases ws.len(),
{
    if ws.len() > 0 {
        lemma_zeros_fields(ws.drop_last(), b);
        let lo = layout_size(ws.drop_last()) as int;
        let hi = layout_size(ws) as int;
        assert(b.subrange(lo, hi) =~= zeros((hi - lo) as nat));
        lemma_zeros_value((hi - lo) as nat);
    }
}

/// Module `m`'s descriptor is read back: it says where the thunks and the name
/// of the module stand.
proof fn lemma_import_record(
    sections: Seq<SectionModel>,
    blob: Seq<u8>,
    im: Seq<ImportDescriptorModel>,
    ps: nat,
    base: u32,
    m: int,
) -> (vs: Seq<u64>)
    requires
        imports_placed(im, ps, base),
        image_holds(sections, base, blob),
        is_table(blob, im, ps, base),
        0 <= m < im.len(),
    ensures
        image_record(sections, (base + 20 * m) as u32, import_fields()) == Some(vs),
        vs[3] as u32 == base + name_off(im, ps, m),
        !ends_imports(vs),
        descriptor_thunks(vs) == base + int_off(im, ps, m),
{
    let own = import_blob(im, ps, base).subrange(20 * m, 20 * m + 20);
    let b = blob.subrange(20 * m, 20 * m + 20);
    let dv = descriptor_values(im, ps, base, m);
    let ws = import_fields();
    lemma_import_size();
    lemma_areas(im, ps, base);
    lemma_descriptor_slice(im, ps, base, m);
    lemma_array_slice(im, ps, base, m);
    lemma_name_slice(im, ps, base, m);
    lemma_low(int_off(im, ps, m));
    lemma_low(iat_off(im, ps, m));
    lemma_low(name_off(im, ps, m));
    lemma_pow256_values();
    assert(ws[0] == 4 && ws[1] == 4 && ws[2] == 4 && ws[3] == 4 && ws[4] == 4);
    assert(fields_fit(ws, dv));
    lemma_fields_roundtrip(ws, dv);
    assert forall|i: int| 0 <= i < 16 implies b[i] == own[i] by {
        assert(!in_bound_pointer(im.len(), 20 * m + i));
        assert(blob[20 * m + i] == import_blob(im, ps, base)[20 * m + i]);
    }
    let front = ws.drop_last();
    assert(layout_size(front) == 16);
    assert(b.take(16) =~= own.take(16));
    lemma_decode_prefix(front, b, own);
    let vs = decode_fields(ws, b);
    lemma_decode_len(front, b);
    assert(vs[0] == decode_fields(front, b)[0] && vs[3] == decode_fields(front, b)[3]);
    assert(dv[0] == decode_fields(front, own)[0] && dv[3] == decode_fields(front, own)[3]);
    assert(image_read(sections, (base + 20 * m) as u32, 20) == Some(b));
    vs
}

/// The descriptor of module `m` is read back as the module.
proof fn lemma_import_step(
    sections: Seq<SectionModel>,
    blob: Seq<u8>,
    im: Seq<ImportDescriptorModel>,
    ps: nat,
    base: u32,
    m: int,
)
    requires
        imports_placed(im, ps, base),
        plain_imports(im),
        image_holds(sections, base, blob),
        is_table(blob, im, ps, base),
        0 <= m <= im.len(),
    ensures
        import_step(sections, (base + 20 * m) as u32, ps) == if m < im.len() {
            ImportStep::Item(im[m])
        } else {
            ImportStep::End
        },
{
    if m < im.len() {
        let vs = lemma_import_record(sections, blob, im, ps, base, m);
        let at = name_off(im, ps, m) as int;
        lemma_name_slice(im, ps, base, m);
        lemma_table_slice(blob, im, ps, base, at, at + nul_terminated(im[m].name).len());
        assert(plain_module(im[m]));
        assert(nul_terminated(im[m].name).len() == encode_utf8(im[m].name).len() + 1) by {
            reveal(nul_terminated);
        }
        lemma_held_text(sections, base, blob, at, im[m].name);
        lemma_thunks(sections, blob, im, ps, base, m, 0);
        assert(0 * ps == 0) by (nonlinear_arith);
        assert(im[m].functions.skip(0) =~= im[m].functions);
        assert(import_step(sections, (base + 20 * m) as u32, ps) == ImportStep::Item(
            ImportDescriptorModel { name: im[m].name, functions: im[m].functions },
        ));
    } else {
        lemma_import_size();
        lemma_areas(im, ps, base);
        let b = blob.subrange(20 * m, 20 * m + 20);
        lemma_table_slice(blob, im, ps, base, 20 * m, 20 * m + 20);
        assert(image_read(sections, (base + 20 * m) as u32, 20) == Some(b));
        lemma_zeros_fields(import_fields(), b);
    }
}

proof fn lemma_imports_from(
    sections: Seq<SectionModel>,
    blob: Seq<u8>,
    im: Seq<ImportDescriptorModel>,
    ps: nat,
    base: u32,
    m: int,
)
    requires
        imports_placed(im, ps, base),
        plain_imports(im),
        image_holds(sections, base, blob),
        is_table(blob, im, ps, base),
        0 <= m <= im.len(),
    ensures
        imports_from(sections, base + 20 * m, ps) == Some(im.skip(m)),
    decreases im.len() - m,
{
    lemma_areas(im, ps, base);
    lemma_import_step(sections, blob, im, ps, base, m);
    if m < im.len() {
        lemma_imports_from(sections, blob, im, ps, base, m + 1);
        assert(im.skip(m) =~= seq![im[m]] + im.skip(m + 1));
    } else {
        assert(im.skip(m) =~= Seq::empty());
    }
}

/// An import table that stands in an image is read back as the table it was
/// rendered from, wherever its descriptors say that their bound thunk arrays
/// are.
pub proof fn pointed_imports_survive(
    sections: Seq<SectionModel>,
    blob: Seq<u8>,
    im: Seq<ImportDescriptorModel>,
    ps: nat,
    base: u32,
)
    requires
        imports_placed(im, ps, base),
        plain_imports(im),
        image_holds(sections, base, blob),
        is_table(blob, im, ps, base),
    ensures
        imports_from(sections, base as int, ps) == Some(im),
{
    lemma_imports_from(sections, blob, im, ps, base, 0);
    assert(im.skip(0) =~= im);
}

/// A rendered import table that stands in an image is read back as the table
/// it was rendered from.
pub proof fn imports_survive(
    sections: Seq<SectionModel>,
    im: Seq<ImportDescriptorModel>,
    ps: nat,
    base: u32,
)
    requires
        imports_placed(im, ps, base),
        plain_imports(im),
        image_holds(sections, base, import_blob(im, ps, base)),
    ensures
        imports_from(sections, base as int, ps) == Some(im),
{
    pointed_imports_survive(sections, import_blob(im, ps, base), im, ps, base);
}

/// Every part of a module of a table that has its place has an address.
proof fn lemma_module_is_addressable(im: Seq<ImportDescriptorModel>, ps: nat, base: u32, m: int)
    requires
        imports_placed(im, ps, base),
        0 <= m < im.len(),
    ensures
        module_addressable(im, ps, base, m),
{
    lemma_array_slice(im, ps, base, m);
    lemma_name_slice(im, ps, base, m);
    lemma_low(int_off(im, ps, m));
    lemma_low(iat_off(im, ps, m));
    lemma_low(name_off(im, ps, m));
    assert forall|k: int|
        #![trigger im[m].functions[k]]
        0 <= k < im[m].functions.len() && im[m].functions[k] is Name implies addressable(
        base,
        hint_off(im, ps, m, k),
    ) by {
        lemma_hint_slice(im, ps, base, m, k);
        lemma_low(hint_off(im, ps, m, k));
    }
}

/// Every part of a table that has its place has an address.
pub proof fn lemma_placed_is_addressable(im: Seq<ImportDescriptorModel>, ps: nat, base: u32)
    requires
        imports_placed(im, ps, base),
    ensures
        table_addressable(im, ps, base),
{
    assert forall|m: int| 0 <= m < im.len() implies #[trigger] module_addressable(
        im,
        ps,
        base,
        m,
    ) by {
        lemma_module_is_addressable(im, ps, base, m);
    }
}

/// The bound thunk array of every module mirrors its original one.
pub proof fn iat_mirrors_int(im: Seq<ImportDescriptorModel>, ps: nat, base: u32, m: int)
    requires
        0 <= m < im.len(),
    ensures
        import_blob(im, ps, base).subrange(
            iat_off(im, ps, m) as int,
            (iat_off(im, ps, m) + array_len(im[m], ps)) as int,
        ) == import_blob(im, ps, base).subrange(
            int_off(im, ps, m) as int,
            (int_off(im, ps, m) + array_len(im[m], ps)) as int,
        ),
{
    lemma_array_slice(im, ps, base, m);
}

/// The descriptor of every module has no time stamp and no forwarder chain, and
/// points at two pointer arrays of their own: the original one and the bound
/// one, which hold the same and end with a zero.
pub proof fn descriptors_point_at_two_arrays(
    im: Seq<ImportDescriptorModel>,
    ps: nat,
    base: u32,
    m: int,
)
    requires
        0 <= m < im.len(),
        imports_placed(im, ps, base),
    ensures
        ({
            let b = import_blob(im, ps, base);
            let n = (im[m].functions.len() + 1) * ps;
            let o = u32_at(b, 20 * m) - base;
            let f = u32_at(b, 20 * m + 16) - base;
            &&& u32_at(b, 20 * m + 4) == 0
            &&& u32_at(b, 20 * m + 8) == 0
            &&& 20 * (im.len() + 1) <= o
            &&& o + n <= f
            &&& f + n <= b.len()
            &&& b.subrange(o, o + n) == b.subrange(f, f + n)
            &&& b.subrange(f + n - ps, f + n) == zeros(ps)
        }),
{
    let b = import_blob(im, ps, base);
    let vs = descriptor_values(im, ps, base, m);
    let r = b.subrange(20 * m, 20 * m + 20);
    let n = (im[m].functions.len() + 1) * ps;
    lemma_descriptor_slice(im, ps, base, m);
    lemma_array_slice(im, ps, base, m);
    reveal(array_len);
    lemma_import_size();
    lemma_name_inside(im, ps, base, m);
    lemma_low(int_off(im, ps, m));
    lemma_low(iat_off(im, ps, m));
    lemma_low(name_off(im, ps, m));
    lemma_pow256_values();
    assert(fields_fit(import_fields(), vs));
    lemma_fields_roundtrip(import_fields(), vs);
    lemma_import_numbers(r);
    assert(u32_at(r, 0) == u32_at(b, 20 * m));
    assert(u32_at(r, 4) == u32_at(b, 20 * m + 4));
    assert(u32_at(r, 8) == u32_at(b, 20 * m + 8));
    assert(u32_at(r, 16) == u32_at(b, 20 * m + 16));
    let f = iat_off(im, ps, m) as int;
    let t = module_thunks(im, ps, base, m);
    let k = t.len() as int;
    let arr = thunk_array(t, ps);
    lemma_thunk_slice(t, ps, k);
    assert(k * ps + ps == n) by (nonlinear_arith)
        requires
            n == (k + 1) * ps,
    ;
    lemma_nested(b, f, arr, k * ps, zeros(ps));
}

proof fn lemma_name_inside(im: Seq<ImportDescriptorModel>, ps: nat, base: u32, m: int)
    requires
        0 <= m < im.len(),
    ensures
        name_off(im, ps, m) <= import_blob(im, ps, base).len(),
{
    lemma_areas(im, ps, base);
    let parts = module_names(im);
    lemma_join_part(parts, m);
    assert(module_names(im.take(m)) =~= parts.take(m));
}

/// The IAT directory of a rendered table begins at the bound pointers of its
/// first module.
pub proof fn iat_begins_at_the_first_bound_array(
    im: Seq<ImportDescriptorModel>,
    arch: Arch,
    base: u32,
)
    requires
        imports_placed(im, pointer_size(arch), base),
    ensures
        rendered_import(im, arch, base) is Ok,
        ({
            let t = rendered_import(im, arch, base)->Ok_0;
            &&& t.dir_rva == base
            &&& t.size == t.blob.len()
            &&& t.iat_rva == u32_at(t.blob, 16)
            &&& t.blob == import_blob(im, pointer_size(arch), base)
        }),
{
    let ps = pointer_size(arch);
    let b = import_blob(im, ps, base);
    lemma_placed_is_addressable(im, ps, base);
    descriptors_point_at_two_arrays(im, ps, base, 0);
    lemma_array_slice(im, ps, base, 0);
    lemma_descriptor_slice(im, ps, base, 0);
    lemma_low(iat_off(im, ps, 0));
    lemma_low(b.len());
    let vs = descriptor_values(im, ps, base, 0);
    lemma_name_inside(im, ps, base, 0);
    lemma_low(int_off(im, ps, 0));
    lemma_low(name_off(im, ps, 0));
    lemma_import_size();
    lemma_pow256_values();
    assert(fields_fit(import_fields(), vs));
    lemma_fields_roundtrip(import_fields(), vs);
    let r = b.subrange(0, 20);
    lemma_import_numbers(r);
    assert(u32_at(r, 16) == u32_at(b, 16));
}

} // verus!
