//! Renders a rich import table into the physical descriptor / thunk / name
//! bytes of a PE.
//!
//! Layout of the rendered blob (offsets relative to its base RVA):
//! 1. descriptor array (`N + 1` entries of 20 bytes, NULL-terminated)
//! 2. per module: OriginalFirstThunk (INT) array, then FirstThunk (IAT) array
//! 3. hint/name entries (aligned to 2)
//! 4. DLL name strings
//!
//! The IAT entries mirror the INT entries, so the loader can fix them in place.

use crate::bytes::{
    encode_fields, join, le_bytes, lemma_join_push, low, low32, push_bytes, push_fields, push_le,
    zero_bytes, zeros,
};
use crate::domain::import::{
    views, ImportDescriptor, ImportDescriptorModel, ImportFunction, ImportFunctionModel,
};
use crate::domain::types::{pointer_size, ptr_size, Arch, Rva};
use crate::error::{invalid_argument, PeErrorModel, PeResult};
use crate::io::pe::decode::ordinal_flag;
use crate::io::pe::layout::{import_fields, import_layout};
use vstd::prelude::*;
use vstd::utf8::encode_utf8;

verus! {

/// The sum of two low parts is the low part of the sum.
fn low_sum(a: u32, b: u32, Ghost(x): Ghost<nat>, Ghost(y): Ghost<nat>) -> (r: u32)
    requires
        a == low(x),
        b == low(y),
    ensures
        r == low(x + y),
{
    reveal(low);
    a.wrapping_add(b)
}

/// Bytes padded with a zero to an even length.
pub open spec fn even(b: Seq<u8>) -> Seq<u8> {
    if b.len() % 2 == 0 {
        b
    } else {
        b.push(0)
    }
}

/// A text as bytes with a closing NUL.
#[verifier::opaque]
pub open spec fn nul_terminated(s: Seq<char>) -> Seq<u8> {
    encode_utf8(s).push(0)
}

/// The hint/name entry of an import by name; an import by ordinal has none.
#[verifier::opaque]
pub open spec fn hint_part(f: ImportFunctionModel) -> Seq<u8> {
    match f {
        ImportFunctionModel::Ordinal(_) => Seq::empty(),
        ImportFunctionModel::Name(hint, name) => even(
            le_bytes(2, hint as nat) + nul_terminated(name),
        ),
    }
}

/// The hint/name entries of a list of functions.
pub open spec fn hint_parts(fs: Seq<ImportFunctionModel>) -> Seq<Seq<u8>> {
    Seq::new(fs.len(), |k: int| hint_part(fs[k]))
}

/// The hint/name entries of each module.
pub open spec fn module_hints(im: Seq<ImportDescriptorModel>) -> Seq<Seq<u8>> {
    Seq::new(im.len(), |m: int| join(hint_parts(im[m].functions)))
}

/// The name string of each module.
pub open spec fn module_names(im: Seq<ImportDescriptorModel>) -> Seq<Seq<u8>> {
    Seq::new(im.len(), |m: int| nul_terminated(im[m].name))
}

/// The size of one thunk array of a module, with its terminator.
#[verifier::opaque]
pub open spec fn array_len(d: ImportDescriptorModel, ps: nat) -> nat {
    (d.functions.len() + 1) * ps
}

/// The size of the thunk arrays of all modules, two for each.
pub open spec fn arrays_len(im: Seq<ImportDescriptorModel>, ps: nat) -> nat
    decreases im.len(),
{
    if im.len() == 0 {
        0
    } else {
        arrays_len(im.drop_last(), ps) + 2 * array_len(im.last(), ps)
    }
}

/// The combined size of one thunk array of each module.
pub open spec fn iat_len(im: Seq<ImportDescriptorModel>, ps: nat) -> nat
    decreases im.len(),
{
    if im.len() == 0 {
        0
    } else {
        iat_len(im.drop_last(), ps) + array_len(im.last(), ps)
    }
}

/// The size of the descriptor array with its terminator.
pub open spec fn descriptors_len(n: nat) -> nat {
    20 * (n + 1)
}

/// The offset of module `m`'s original thunk array.
pub open spec fn int_off(im: Seq<ImportDescriptorModel>, ps: nat, m: int) -> nat {
    descriptors_len(im.len()) + arrays_len(im.take(m), ps)
}

/// The offset of module `m`'s bound thunk array.
pub open spec fn iat_off(im: Seq<ImportDescriptorModel>, ps: nat, m: int) -> nat {
    int_off(im, ps, m) + array_len(im[m], ps)
}

/// The offset of the hint/name entries.
pub open spec fn hints_off(im: Seq<ImportDescriptorModel>, ps: nat) -> nat {
    descriptors_len(im.len()) + arrays_len(im, ps)
}

/// The offset of the hint/name entry of function `k` of module `m`.
pub open spec fn hint_off(im: Seq<ImportDescriptorModel>, ps: nat, m: int, k: int) -> nat {
    hints_off(im, ps) + join(module_hints(im.take(m))).len() + join(
        hint_parts(im[m].functions.take(k)),
    ).len()
}

/// The offset of module `m`'s name.
pub open spec fn name_off(im: Seq<ImportDescriptorModel>, ps: nat, m: int) -> nat {
    hints_off(im, ps) + join(module_hints(im)).len() + join(module_names(im.take(m))).len()
}

/// Whether an offset has an address above `base`.
pub open spec fn addressable(base: u32, off: nat) -> bool {
    base + low(off) <= u32::MAX
}

/// The address of an offset.
pub open spec fn address(base: u32, off: nat) -> nat {
    (base + low(off)) as nat
}

/// Whether everything that belongs to module `m` has an address.
pub open spec fn module_addressable(
    im: Seq<ImportDescriptorModel>,
    ps: nat,
    base: u32,
    m: int,
) -> bool {
    &&& addressable(base, int_off(im, ps, m))
    &&& addressable(base, iat_off(im, ps, m))
    &&& addressable(base, name_off(im, ps, m))
    &&& forall|k: int|
        #![trigger im[m].functions[k]]
        0 <= k < im[m].functions.len() && im[m].functions[k] is Name ==> addressable(
            base,
            hint_off(im, ps, m, k),
        )
}

/// Whether the whole table has addresses.
pub open spec fn table_addressable(im: Seq<ImportDescriptorModel>, ps: nat, base: u32) -> bool {
    forall|m: int| 0 <= m < im.len() ==> #[trigger] module_addressable(im, ps, base, m)
}

/// The thunk of function `k` of module `m`: the address of its hint/name
/// entry, or its ordinal with the ordinal flag.
pub open spec fn thunk_value(
    im: Seq<ImportDescriptorModel>,
    ps: nat,
    base: u32,
    m: int,
    k: int,
) -> nat {
    match im[m].functions[k] {
        ImportFunctionModel::Name(_, _) => address(base, hint_off(im, ps, m, k)),
        ImportFunctionModel::Ordinal(o) => ordinal_flag(ps) + o as nat,
    }
}

/// The thunks of module `m`.
pub open spec fn module_thunks(
    im: Seq<ImportDescriptorModel>,
    ps: nat,
    base: u32,
    m: int,
) -> Seq<u64> {
    Seq::new(im[m].functions.len(), |k: int| thunk_value(im, ps, base, m, k) as u64)
}

/// The thunks of the first `m` modules, one after the other.
pub open spec fn flat_thunks(
    im: Seq<ImportDescriptorModel>,
    ps: nat,
    base: u32,
    m: nat,
) -> Seq<u64>
    decreases m,
{
    if m == 0 {
        Seq::empty()
    } else {
        flat_thunks(im, ps, base, (m - 1) as nat) + module_thunks(im, ps, base, m - 1)
    }
}

/// Thunks as bytes.
pub open spec fn thunk_parts(vs: Seq<u64>, ps: nat) -> Seq<Seq<u8>> {
    Seq::new(vs.len(), |k: int| le_bytes(ps, vs[k] as nat))
}

/// A thunk array with its zero terminator.
#[verifier::opaque]
pub open spec fn thunk_array(vs: Seq<u64>, ps: nat) -> Seq<u8> {
    join(thunk_parts(vs, ps)) + zeros(ps)
}

/// Both thunk arrays of each module.
pub open spec fn array_parts(im: Seq<ImportDescriptorModel>, ps: nat, base: u32) -> Seq<Seq<u8>> {
    Seq::new(
        im.len(),
        |m: int|
            thunk_array(module_thunks(im, ps, base, m), ps) + thunk_array(
                module_thunks(im, ps, base, m),
                ps,
            ),
    )
}

/// The descriptor of module `m`.
pub open spec fn descriptor_values(
    im: Seq<ImportDescriptorModel>,
    ps: nat,
    base: u32,
    m: int,
) -> Seq<u64> {
    seq![
        address(base, int_off(im, ps, m)) as u64,
        0u64,
        0u64,
        address(base, name_off(im, ps, m)) as u64,
        address(base, iat_off(im, ps, m)) as u64,
    ]
}

/// The descriptors.
pub open spec fn descriptor_parts(
    im: Seq<ImportDescriptorModel>,
    ps: nat,
    base: u32,
) -> Seq<Seq<u8>> {
    Seq::new(
        im.len(),
        |m: int| encode_fields(import_fields(), descriptor_values(im, ps, base, m)),
    )
}

/// The rendered table.
#[verifier::opaque]
pub open spec fn import_blob(im: Seq<ImportDescriptorModel>, ps: nat, base: u32) -> Seq<u8> {
    join(descriptor_parts(im, ps, base)) + zeros(20) + join(array_parts(im, ps, base)) + join(
        module_hints(im),
    ) + join(module_names(im))
}

/// The result of rendering an import table into a contiguous byte blob.
#[derive(Debug, PartialEq, Eq)]
pub struct RenderedImport {
    /// The rendered bytes, laid out as described above.
    pub blob: Vec<u8>,
    /// RVA of the descriptor array (equals the section's base RVA).
    pub dir_rva: u32,
    /// RVA of the first FirstThunk (IAT) array.
    pub iat_rva: u32,
    /// Total size of the rendered blob.
    pub size: u32,
    /// Combined byte size of all IAT (FirstThunk) arrays.
    pub iat_size: u32,
    /// The thunk of each function, in descriptor order.
    pub thunk_values: Vec<u64>,
}

/// A rendered import table as mathematical values.
#[verifier::ext_equal]
pub struct RenderedImportModel {
    pub blob: Seq<u8>,
    pub dir_rva: u32,
    pub iat_rva: u32,
    pub size: u32,
    pub iat_size: u32,
    pub thunk_values: Seq<u64>,
}

impl View for RenderedImport {
    type V = RenderedImportModel;

    open spec fn view(&self) -> RenderedImportModel {
        RenderedImportModel {
            blob: self.blob@,
            dir_rva: self.dir_rva,
            iat_rva: self.iat_rva,
            size: self.size,
            iat_size: self.iat_size,
            thunk_values: self.thunk_values@,
        }
    }
}

/// `a + b`, held at the top of the address space.
pub open spec fn saturated(a: u32, b: u32) -> u32 {
    if a + b <= u32::MAX {
        (a + b) as u32
    } else {
        u32::MAX
    }
}

/// What rendering gives: the table with its addresses and sizes, or an error
/// when part of it has no address.
pub open spec fn rendered_import(
    im: Seq<ImportDescriptorModel>,
    arch: Arch,
    base: u32,
) -> Result<RenderedImportModel, PeErrorModel> {
    let ps = pointer_size(arch);
    if table_addressable(im, ps, base) {
        Ok(
            RenderedImportModel {
                blob: import_blob(im, ps, base),
                dir_rva: base,
                iat_rva: saturated(base, low(iat_off(im, ps, 0))),
                size: low(import_blob(im, ps, base).len()),
                iat_size: low(iat_len(im, ps)),
                thunk_values: flat_thunks(im, ps, base, im.len()),
            },
        )
    } else {
        Err(PeErrorModel::InvalidArgument("import table too large"@))
    }
}

/// Append the hint/name entry of `f`.
fn push_hint(out: &mut Vec<u8>, f: &ImportFunction)
    ensures
        final(out)@ == old(out)@ + hint_part(f@),
{
    reveal(hint_part);
    reveal(nul_terminated);
    match f {
        ImportFunction::Ordinal { .. } => {
            assert(out@ =~= old(out)@ + hint_part(f@));
        },
        ImportFunction::Name { hint, name } => {
            let mut entry: Vec<u8> = Vec::new();
            push_le(&mut entry, 2, *hint as u64);
            push_bytes(&mut entry, name.as_str().as_bytes());
            entry.push(0);
            if entry.len() % 2 != 0 {
                entry.push(0);
            }
            proof {
                assert(le_bytes(2, *hint as nat) + nul_terminated(name@) =~= (le_bytes(
                    2,
                    *hint as nat,
                ) + encode_utf8(name@)).push(0));
                assert(entry@ =~= hint_part(f@));
            }
            push_bytes(out, &entry);
        },
    }
}

/// All hint/name entries.
fn build_hints(imports: &[ImportDescriptor]) -> (r: Vec<u8>)
    ensures
        r@ == join(module_hints(views(imports@))),
{
    let mut out: Vec<u8> = Vec::new();
    let mut m: usize = 0;
    let ghost im = views(imports@);
    assert(module_hints(im).take(0) =~= Seq::empty());
    while m < imports.len()
        invariant
            m <= imports.len(),
            im == views(imports@),
            out@ == join(module_hints(im).take(m as int)),
        decreases imports.len() - m,
    {
        let fs: &Vec<ImportFunction> = &imports[m].functions;
        let ghost parts = hint_parts(im[m as int].functions);
        let mut one: Vec<u8> = Vec::new();
        let mut k: usize = 0;
        assert(parts.take(0) =~= Seq::empty());
        while k < fs.len()
            invariant
                k <= fs.len(),
                parts == hint_parts(views(fs@)),
                one@ == join(parts.take(k as int)),
            decreases fs.len() - k,
        {
            proof {
                lemma_join_push(parts.take(k as int), parts[k as int]);
                assert(parts.take(k + 1) =~= parts.take(k as int).push(parts[k as int]));
            }
            push_hint(&mut one, &fs[k]);
            k = k + 1;
        }
        proof {
            assert(parts.take(fs.len() as int) =~= parts);
            lemma_join_push(module_hints(im).take(m as int), join(parts));
            assert(module_hints(im).take(m + 1) =~= module_hints(im).take(m as int).push(
                join(parts),
            ));
        }
        push_bytes(&mut out, &one);
        m = m + 1;
    }
    assert(module_hints(im).take(imports.len() as int) =~= module_hints(im));
    out
}

/// All module name strings.
fn build_names(imports: &[ImportDescriptor]) -> (r: Vec<u8>)
    ensures
        r@ == join(module_names(views(imports@))),
{
    let mut out: Vec<u8> = Vec::new();
    let mut m: usize = 0;
    let ghost im = views(imports@);
    let ghost parts = module_names(im);
    assert(parts.take(0) =~= Seq::empty());
    while m < imports.len()
        invariant
            m <= imports.len(),
            im == views(imports@),
            parts == module_names(im),
            out@ == join(parts.take(m as int)),
        decreases imports.len() - m,
    {
        proof {
            lemma_join_push(parts.take(m as int), parts[m as int]);
            assert(parts.take(m + 1) =~= parts.take(m as int).push(parts[m as int]));
        }
        let ghost before = out@;
        push_bytes(&mut out, imports[m].name.as_str().as_bytes());
        out.push(0);
        reveal(nul_terminated);
        assert(out@ =~= before + parts[m as int]);
        m = m + 1;
    }
    assert(parts.take(imports.len() as int) =~= parts);
    out
}

/// The low part of the size of one thunk array.
fn array_len32(d: &ImportDescriptor, psize: usize) -> (r: u32)
    requires
        psize == 4 || psize == 8,
    ensures
        r == low(array_len(d@, psize as nat)),
{
    reveal(array_len);
    let functions: usize = d.functions.len();
    if psize == 8 {
        low32((functions as u128 + 1) * 8)
    } else {
        low32((functions as u128 + 1) * 4)
    }
}

/// The low part of the length of the hint/name entry of `f`.
fn hint_len32(f: &ImportFunction) -> (r: u32)
    ensures
        r == low(hint_part(f@).len()),
{
    let mut one: Vec<u8> = Vec::new();
    push_hint(&mut one, f);
    assert(one@ =~= hint_part(f@));
    low32(one.len() as u128)
}

/// The low part of the length of a module's name string.
fn name_len32(d: &ImportDescriptor) -> (r: u32)
    ensures
        r == low(nul_terminated(d@.name).len()),
{
    reveal(nul_terminated);
    low32(d.name.as_str().as_bytes().len() as u128 + 1)
}

/// The thunks of module `m`, given where its hint/name entries begin. `None`
/// when one of them has no address; the second result is where the next
/// module's entries begin.
fn build_thunks(
    imports: &[ImportDescriptor],
    psize: usize,
    base: u32,
    m: usize,
    start: u32,
) -> (r: Option<(Vec<u64>, u32)>)
    requires
        psize == 4 || psize == 8,
        m < imports@.len(),
        start == low(
            hints_off(views(imports@), psize as nat) + join(
                module_hints(views(imports@).take(m as int)),
            ).len(),
        ),
    ensures
        match r {
            Some((v, next)) => v@ == module_thunks(
                views(imports@),
                psize as nat,
                base,
                m as int,
            ) && next == low(
                hints_off(views(imports@), psize as nat) + join(
                    module_hints(views(imports@).take(m + 1)),
                ).len(),
            ) && forall|k: int|
                #![trigger views(imports@)[m as int].functions[k]]
                0 <= k < views(imports@)[m as int].functions.len() && views(
                    imports@,
                )[m as int].functions[k] is Name ==> addressable(
                    base,
                    hint_off(views(imports@), psize as nat, m as int, k),
                ),
            None => exists|k: int|
                #![trigger views(imports@)[m as int].functions[k]]
                0 <= k < views(imports@)[m as int].functions.len() && views(
                    imports@,
                )[m as int].functions[k] is Name && !addressable(
                    base,
                    hint_off(views(imports@), psize as nat, m as int, k),
                ),
        },
{
    let ghost im = views(imports@);
    let ghost ps = psize as nat;
    let ghost mi = m as int;
    let fs: &Vec<ImportFunction> = &imports[m].functions;
    let ghost fm = im[mi].functions;
    let ghost parts = hint_parts(fm);
    let flag: u64 = if psize == 8 {
        0x8000_0000_0000_0000
    } else {
        0x8000_0000
    };
    let mut out: Vec<u64> = Vec::new();
    let mut cur: u32 = start;
    let mut k: usize = 0;
    proof {
        assert(fm.take(0) =~= Seq::empty());
        assert(hint_parts(fm.take(0)) =~= Seq::empty());
    }
    while k < fs.len()
        invariant
            k <= fs.len(),
            psize == 4 || psize == 8,
            ps == psize,
            mi == m,
            m < imports@.len(),
            im == views(imports@),
            fm == im[mi].functions,
            fm == views(fs@),
            flag == ordinal_flag(ps),
            out@ == module_thunks(im, ps, base, mi).take(k as int),
            cur == low(hint_off(im, ps, mi, k as int)),
            forall|j: int|
                #![trigger fm[j]]
                0 <= j < k && fm[j] is Name ==> addressable(base, hint_off(im, ps, mi, j)),
        decreases fs.len() - k,
    {
        let f: &ImportFunction = &fs[k];
        assert(fm[k as int] == f@);
        let v: u64 = match f {
            ImportFunction::Name { .. } => {
                if cur > u32::MAX - base {
                    assert(im[mi].functions[k as int] is Name);
                    return None;
                }
                (base + cur) as u64
            },
            ImportFunction::Ordinal { ordinal } => flag + *ordinal as u64,
        };
        out.push(v);
        let step: u32 = hint_len32(f);
        proof {
            assert(fm.take(k + 1) =~= fm.take(k as int).push(fm[k as int]));
            assert(hint_parts(fm.take(k + 1)) =~= hint_parts(fm.take(k as int)).push(
                hint_part(fm[k as int]),
            ));
            lemma_join_push(hint_parts(fm.take(k as int)), hint_part(fm[k as int]));
        }
        cur = low_sum(
            cur,
            step,
            Ghost(hint_off(im, ps, mi, k as int)),
            Ghost(hint_part(fm[k as int]).len()),
        );
        k = k + 1;
        assert(out@ =~= module_thunks(im, ps, base, mi).take(k as int));
    }
    proof {
        assert(fm.take(fs.len() as int) =~= fm);
        assert(module_thunks(im, ps, base, mi).take(fs.len() as int) =~= module_thunks(
            im,
            ps,
            base,
            mi,
        ));
        assert(im.take(mi + 1) =~= im.take(mi).push(im[mi]));
        assert(module_hints(im.take(mi + 1)) =~= module_hints(im.take(mi)).push(join(parts)));
        lemma_join_push(module_hints(im.take(mi)), join(parts));
    }
    Some((out, cur))
}

/// A thunk array with its zero terminator.
fn build_array(vs: &[u64], psize: usize) -> (r: Vec<u8>)
    requires
        psize == 4 || psize == 8,
    ensures
        r@ == thunk_array(vs@, psize as nat),
{
    let mut out: Vec<u8> = Vec::new();
    let mut k: usize = 0;
    let ghost parts = thunk_parts(vs@, psize as nat);
    assert(parts.take(0) =~= Seq::empty());
    while k < vs.len()
        invariant
            k <= vs.len(),
            psize == 4 || psize == 8,
            parts == thunk_parts(vs@, psize as nat),
            out@ == join(parts.take(k as int)),
        decreases vs.len() - k,
    {
        proof {
            lemma_join_push(parts.take(k as int), parts[k as int]);
            assert(parts.take(k + 1) =~= parts.take(k as int).push(parts[k as int]));
        }
        push_le(&mut out, psize, vs[k]);
        k = k + 1;
    }
    assert(parts.take(vs.len() as int) =~= parts);
    push_bytes(&mut out, &zero_bytes(psize));
    reveal(thunk_array);
    out
}

/// Where the first hint/name entry begins: past the descriptors and all thunk
/// arrays.
fn hints_off32(imports: &[ImportDescriptor], psize: usize) -> (r: (u32, u32, u32))
    requires
        psize == 4 || psize == 8,
    ensures
        r.0 == low(descriptors_len(imports@.len())),
        r.1 == low(hints_off(views(imports@), psize as nat)),
        r.2 == low(iat_len(views(imports@), psize as nat)),
{
    let ghost im = views(imports@);
    let ghost ps = psize as nat;
    let head: u32 = low32((imports.len() as u128 + 1) * 20);
    let mut cur: u32 = head;
    let mut iat: u32 = low32(0);
    let mut m: usize = 0;
    assert(im.take(0) =~= Seq::empty());
    while m < imports.len()
        invariant
            m <= imports.len(),
            psize == 4 || psize == 8,
            ps == psize,
            im == views(imports@),
            cur == low(descriptors_len(im.len()) + arrays_len(im.take(m as int), ps)),
            iat == low(iat_len(im.take(m as int), ps)),
        decreases imports.len() - m,
    {
        let one: u32 = array_len32(&imports[m], psize);
        proof {
            assert(im.take(m + 1).drop_last() =~= im.take(m as int));
            assert(im.take(m + 1).last() == im[m as int]);
        }
        let ghost al = array_len(im[m as int], ps);
        let ghost before = descriptors_len(im.len()) + arrays_len(im.take(m as int), ps);
        cur = low_sum(cur, one, Ghost(before), Ghost(al));
        cur = low_sum(cur, one, Ghost(before + al), Ghost(al));
        iat = low_sum(iat, one, Ghost(iat_len(im.take(m as int), ps)), Ghost(al));
        m = m + 1;
    }
    assert(im.take(imports.len() as int) =~= im);
    (head, cur, iat)
}

/// Where the thunk arrays, hint/name entries and name of module `m` begin.
pub open spec fn cursors_at(
    im: Seq<ImportDescriptorModel>,
    ps: nat,
    m: int,
    c: (u32, u32, u32),
) -> bool {
    &&& c.0 == low(descriptors_len(im.len()) + arrays_len(im.take(m), ps))
    &&& c.1 == low(hints_off(im, ps) + join(module_hints(im.take(m))).len())
    &&& c.2 == low(
        hints_off(im, ps) + join(module_hints(im)).len() + join(module_names(im.take(m))).len(),
    )
}

/// Everything that belongs to module `m`: its descriptor, its two thunk
/// arrays, its thunks, and where the next module's parts begin together with
/// its own bound array. `None` when something has no address.
fn build_module(
    imports: &[ImportDescriptor],
    psize: usize,
    base: u32,
    m: usize,
    at: (u32, u32, u32),
) -> (r: Option<(Vec<u8>, Vec<u8>, Vec<u64>, (u32, u32, u32, u32))>)
    requires
        psize == 4 || psize == 8,
        m < imports@.len(),
        cursors_at(views(imports@), psize as nat, m as int, at),
    ensures
        match r {
            Some((part, arr, thunks, next)) => {
                let im = views(imports@);
                let ps = psize as nat;
                &&& module_addressable(im, ps, base, m as int)
                &&& part@ == descriptor_parts(im, ps, base)[m as int]
                &&& arr@ == array_parts(im, ps, base)[m as int]
                &&& thunks@ == module_thunks(im, ps, base, m as int)
                &&& cursors_at(im, ps, m + 1, (next.0, next.1, next.2))
                &&& next.3 == low(iat_off(im, ps, m as int))
            },
            None => !module_addressable(views(imports@), psize as nat, base, m as int),
        },
{
    let ghost im = views(imports@);
    let ghost ps = psize as nat;
    let ghost mi = m as int;
    let ghost al = array_len(im[mi], ps);
    let one: u32 = array_len32(&imports[m], psize);
    let iat_cur: u32 = low_sum(at.0, one, Ghost(int_off(im, ps, mi)), Ghost(al));
    if at.0 > u32::MAX - base || iat_cur > u32::MAX - base || at.2 > u32::MAX - base {
        return None;
    }
    let (thunks, hint_next) = match build_thunks(imports, psize, base, m, at.1) {
        Some(x) => x,
        None => {
            return None;
        },
    };
    let vals: [u64; 5] = [
        (base + at.0) as u64,
        0,
        0,
        (base + at.2) as u64,
        (base + iat_cur) as u64,
    ];
    assert(vals@ =~= descriptor_values(im, ps, base, mi));
    let mut part: Vec<u8> = Vec::new();
    push_fields(&mut part, &import_layout(), &vals);
    assert(part@ =~= descriptor_parts(im, ps, base)[mi]);
    let mut arr: Vec<u8> = build_array(&thunks, psize);
    let mut twin: Vec<u8> = build_array(&thunks, psize);
    arr.append(&mut twin);
    let array_next: u32 = low_sum(iat_cur, one, Ghost(iat_off(im, ps, mi)), Ghost(al));
    let name_next: u32 = low_sum(
        at.2,
        name_len32(&imports[m]),
        Ghost(name_off(im, ps, mi)),
        Ghost(nul_terminated(im[mi].name).len()),
    );
    proof {
        assert(im.take(mi + 1) =~= im.take(mi).push(im[mi]));
        assert(im.take(mi + 1).drop_last() =~= im.take(mi));
        assert(module_names(im.take(mi + 1)) =~= module_names(im.take(mi)).push(
            nul_terminated(im[mi].name),
        ));
        lemma_join_push(module_names(im.take(mi)), nul_terminated(im[mi].name));
    }
    Some((part, arr, thunks, (array_next, hint_next, name_next, iat_cur)))
}

/// Render `imports` into a blob based at `base_rva`.
pub fn render_import_table(imports: &[ImportDescriptor], arch: Arch, base_rva: Rva) -> (r: PeResult<
    RenderedImport,
>)
    requires
        imports@.len() > 0,
    ensures
        crate::error::result_view(r) == rendered_import(views(imports@), arch, base_rva.0),
{
    reveal(import_blob);
    let psize: usize = ptr_size(arch);
    let base: u32 = base_rva.get();
    let ghost im = views(imports@);
    let ghost ps = psize as nat;
    let mut hints = build_hints(imports);
    let mut names = build_names(imports);
    let (head, hints_start, iat_size) = hints_off32(imports, psize);
    let names_start: u32 = low_sum(
        hints_start,
        low32(hints.len() as u128),
        Ghost(hints_off(im, ps)),
        Ghost(join(module_hints(im)).len()),
    );

    let mut blob: Vec<u8> = Vec::new();
    let mut arrays: Vec<u8> = Vec::new();
    let mut thunk_values: Vec<u64> = Vec::new();
    let mut array_cur: u32 = head;
    let mut hint_cur: u32 = hints_start;
    let mut name_cur: u32 = names_start;
    let mut first_iat: u32 = 0;
    let mut m: usize = 0;
    let ghost dparts = descriptor_parts(im, ps, base);
    let ghost aparts = array_parts(im, ps, base);
    proof {
        assert(im.take(0) =~= Seq::empty());
        assert(module_hints(im.take(0)) =~= Seq::empty());
        assert(module_names(im.take(0)) =~= Seq::empty());
        assert(dparts.take(0) =~= Seq::empty());
        assert(aparts.take(0) =~= Seq::empty());
    }
    while m < imports.len()
        invariant
            m <= imports.len(),
            psize == 4 || psize == 8,
            ps == psize,
            im == views(imports@),
            dparts == descriptor_parts(im, ps, base),
            aparts == array_parts(im, ps, base),
            cursors_at(im, ps, m as int, (array_cur, hint_cur, name_cur)),
            m > 0 ==> first_iat == low(iat_off(im, ps, 0)),
            blob@ == join(dparts.take(m as int)),
            arrays@ == join(aparts.take(m as int)),
            thunk_values@ == flat_thunks(im, ps, base, m as nat),
            forall|j: int| 0 <= j < m ==> #[trigger] module_addressable(im, ps, base, j),
            ps == pointer_size(arch),
            base == base_rva.0,
        decreases imports.len() - m,
    {
        let ghost mi = m as int;
        let (mut part, mut arr, mut thunks, next) = match build_module(
            imports,
            psize,
            base,
            m,
            (array_cur, hint_cur, name_cur),
        ) {
            Some(x) => x,
            None => {
                return Err(invalid_argument("import table too large"));
            },
        };
        if m == 0 {
            first_iat = next.3;
        }
        proof {
            lemma_join_push(dparts.take(mi), dparts[mi]);
            assert(dparts.take(mi + 1) =~= dparts.take(mi).push(dparts[mi]));
            lemma_join_push(aparts.take(mi), aparts[mi]);
            assert(aparts.take(mi + 1) =~= aparts.take(mi).push(aparts[mi]));
        }
        blob.append(&mut part);
        arrays.append(&mut arr);
        thunk_values.append(&mut thunks);
        array_cur = next.0;
        hint_cur = next.1;
        name_cur = next.2;
        m = m + 1;
    }
    proof {
        assert(dparts.take(imports.len() as int) =~= dparts);
        assert(aparts.take(imports.len() as int) =~= aparts);
        assert(table_addressable(im, ps, base));
    }
    push_bytes(&mut blob, &zero_bytes(20));
    blob.append(&mut arrays);
    blob.append(&mut hints);
    blob.append(&mut names);
    let size: u32 = low32(blob.len() as u128);
    Ok(
        RenderedImport {
            blob,
            dir_rva: base,
            iat_rva: base.saturating_add(first_iat),
            size,
            iat_size,
            thunk_values,
        },
    )
}

} // verus!
