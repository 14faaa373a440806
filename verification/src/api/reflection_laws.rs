//! Which slots the reflection scan finds.

use crate::api::iat_scanner::{
    dword, iat_dir_entries, iat_walk_end, overwritten_entries, reflection_scan, thunk_array_entries,
    thunk_at,
};
use crate::domain::data_directory::{DataDirectory, DataDirectoryIndex};
use crate::domain::document::{image_read, DocModel};
use crate::domain::iat::IatEntry;
use crate::domain::section::SectionModel;
use crate::domain::types::{pointer_size, Rva};
use crate::io::pe::decode::present_directory;
use crate::io::pe::laws::format::{numbers_are_little_endian, u32_at};
use crate::io::pe::laws::tables::{image_pointer, numbers_of_pointers};
use crate::sorting::{stable_sort, stable_sort_sorts};
use vstd::prelude::*;
use vstd::seq_lib::*;

verus! {

/// Slot `k` of a table of pointers at `base`.
pub open spec fn slot(sections: Seq<SectionModel>, base: int, ps: nat, k: int) -> Option<u64> {
    thunk_at(sections, (base + k * ps) as u32, ps)
}

/// Whether slot `k` of the IAT at `base` holds a pointer that the table reaches:
/// every slot before it can be read, and no two zero slots follow each other
/// before it.
pub open spec fn reached(sections: Seq<SectionModel>, base: int, ps: nat, k: int) -> bool {
    &&& 0 <= k
    &&& slot(sections, base, ps, k) is Some
    &&& slot(sections, base, ps, k)->0 != 0
    &&& forall|j: int| 0 <= j < k ==> #[trigger] slot(sections, base, ps, j) is Some
    &&& forall|j: int|
        0 <= j < k - 1 ==> !#[trigger] two_zeros(sections, base, ps, j)
}

/// Whether slot `j` and the next one are zero.
pub open spec fn two_zeros(sections: Seq<SectionModel>, base: int, ps: nat, j: int) -> bool {
    slot(sections, base, ps, j) == Some(0u64) && slot(sections, base, ps, j + 1) == Some(0u64)
}

/// The entry of slot `k`.
pub open spec fn slot_at(sections: Seq<SectionModel>, base: int, ps: nat, k: int) -> IatEntry {
    IatEntry { rva: Rva((base + k * ps) as u32), value: slot(sections, base, ps, k)->0 }
}

/// Whether slot `k` lies inside a directory.
pub open spec fn slot_inside(dd: DataDirectory, ps: nat, k: int) -> bool {
    0 <= k && k * ps < dd.size && dd.rva.0 + k * ps < u32::MAX
}

/// The walk from slot `m` on finds slot `k` if it is reached from there.
proof fn lemma_walk_finds(
    sections: Seq<SectionModel>,
    dd: DataDirectory,
    ps: nat,
    m: int,
    k: int,
)
    requires
        ps == 4 || ps == 8,
        0 <= m <= k,
        slot_inside(dd, ps, k),
        reached(sections, dd.rva.0 as int, ps, k),
    ensures
        iat_dir_entries(sections, dd, ps, (m * ps) as nat).contains(
            slot_at(sections, dd.rva.0 as int, ps, k),
        ),
    decreases k - m,
{
    let base = dd.rva.0 as int;
    let off = (m * ps) as nat;
    assert(m * ps <= k * ps) by (nonlinear_arith)
        requires
            0 <= m <= k,
            0 <= ps,
    ;
    assert((m + 1) * ps == m * ps + ps) by (nonlinear_arith);
    assert(off < iat_walk_end(dd));
    let v = slot(sections, base, ps, m);
    assert(v is Some);
    assert(thunk_at(sections, (dd.rva.0 + off) as u32, ps) == v);
    if m == k {
        let rest = iat_dir_entries(sections, dd, ps, off + ps);
        let e = slot_at(sections, base, ps, k);
        assert(iat_dir_entries(sections, dd, ps, off) == seq![e] + rest);
        assert((seq![e] + rest)[0] == e);
    } else {
        assert((m + 1) * ps <= k * ps) by (nonlinear_arith)
            requires
                m + 1 <= k,
                0 <= ps,
        ;
        let w = slot(sections, base, ps, m + 1);
        if v->0 == 0 {
            assert(w is Some);
            assert(w->0 != 0) by {
                if m + 1 < k {
                    assert(!two_zeros(sections, base, ps, m));
                }
            }
            assert(thunk_at(sections, (dd.rva.0 + off + ps) as u32, ps) == w);
            lemma_walk_finds(sections, dd, ps, m + 1, k);
        } else {
            lemma_walk_finds(sections, dd, ps, m + 1, k);
            let e = IatEntry { rva: Rva((dd.rva.0 + off) as u32), value: v->0 };
            let rest = iat_dir_entries(sections, dd, ps, off + ps);
            let x = slot_at(sections, base, ps, k);
            let i = choose|i: int| 0 <= i < rest.len() && rest[i] == x;
            assert((seq![e] + rest)[i + 1] == x);
        }
    }
}

/// What the walk from slot `m` on finds is reached.
proof fn lemma_walk_only(
    sections: Seq<SectionModel>,
    dd: DataDirectory,
    ps: nat,
    m: int,
    i: int,
) -> (k: int)
    requires
        ps == 4 || ps == 8,
        0 <= m,
        0 <= i < iat_dir_entries(sections, dd, ps, (m * ps) as nat).len(),
        forall|j: int| 0 <= j < m ==> #[trigger] slot(sections, dd.rva.0 as int, ps, j) is Some,
        forall|j: int|
            0 <= j < m ==> !#[trigger] two_zeros(sections, dd.rva.0 as int, ps, j),
    ensures
        slot_inside(dd, ps, k),
        reached(sections, dd.rva.0 as int, ps, k),
        iat_dir_entries(sections, dd, ps, (m * ps) as nat)[i] == slot_at(
            sections,
            dd.rva.0 as int,
            ps,
            k,
        ),
    decreases iat_walk_end(dd) + 16 - m * ps,
{
    let base = dd.rva.0 as int;
    let off = (m * ps) as nat;
    assert(0 <= m * ps) by (nonlinear_arith)
        requires
            0 <= m,
            0 <= ps,
    ;
    assert((m + 1) * ps == m * ps + ps) by (nonlinear_arith);
    assert(off < iat_walk_end(dd));
    let v = slot(sections, base, ps, m);
    assert(thunk_at(sections, (dd.rva.0 + off) as u32, ps) == v);
    assert(v is Some);
    if v->0 == 0 {
        assert(thunk_at(sections, (dd.rva.0 + off + ps) as u32, ps) == slot(
            sections,
            base,
            ps,
            m + 1,
        ));
        lemma_walk_only(sections, dd, ps, m + 1, i)
    } else {
        let rest = iat_dir_entries(sections, dd, ps, off + ps);
        let e = slot_at(sections, base, ps, m);
        assert(iat_dir_entries(sections, dd, ps, off) == seq![e] + rest);
        if i == 0 {
            m
        } else {
            assert((seq![e] + rest)[i] == rest[i - 1]);
            lemma_walk_only(sections, dd, ps, m + 1, i - 1)
        }
    }
}

proof fn lemma_sorted_same(s: Seq<IatEntry>, e: IatEntry)
    ensures
        stable_sort(s).contains(e) <==> s.contains(e),
        stable_sort(s).len() == s.len(),
{
    stable_sort_sorts(s);
    s.to_multiset_ensures();
    stable_sort(s).to_multiset_ensures();
    assert(s.contains(e) <==> s.to_multiset().count(e) > 0);
    assert(stable_sort(s).contains(e) <==> stable_sort(s).to_multiset().count(e) > 0);
}

/// Where an image has no import directory, the reflection scan finds every slot
/// of its IAT directory that holds a pointer, up to a slot that cannot be read
/// or two zero slots in a row: one zero slot only closes the pointers of one
/// module.
pub proof fn reflection_finds_every_slot(d: DocModel, dd: DataDirectory, k: int)
    requires
        present_directory(d.data_directories, DataDirectoryIndex::Import) is None,
        present_directory(d.data_directories, DataDirectoryIndex::Iat) == Some(dd),
        slot_inside(dd, pointer_size(d.arch), k),
        reached(d.sections, dd.rva.0 as int, pointer_size(d.arch), k),
    ensures
        reflection_scan(d) is Ok,
        reflection_scan(d)->Ok_0.entries.contains(
            slot_at(d.sections, dd.rva.0 as int, pointer_size(d.arch), k),
        ),
{
    let ps = pointer_size(d.arch);
    let e = slot_at(d.sections, dd.rva.0 as int, ps, k);
    lemma_walk_finds(d.sections, dd, ps, 0, k);
    let all = iat_dir_entries(d.sections, dd, ps, 0);
    assert(all.contains(e));
    lemma_sorted_same(all, e);
}

/// And it finds no others.
pub proof fn reflection_finds_only_slots(d: DocModel, dd: DataDirectory, e: IatEntry)
    requires
        present_directory(d.data_directories, DataDirectoryIndex::Import) is None,
        present_directory(d.data_directories, DataDirectoryIndex::Iat) == Some(dd),
        reflection_scan(d) is Ok,
        reflection_scan(d)->Ok_0.entries.contains(e),
    ensures
        exists|k: int|
            slot_inside(dd, pointer_size(d.arch), k) && #[trigger] reached(
                d.sections,
                dd.rva.0 as int,
                pointer_size(d.arch),
                k,
            ) && e == slot_at(d.sections, dd.rva.0 as int, pointer_size(d.arch), k),
{
    let ps = pointer_size(d.arch);
    let all = iat_dir_entries(d.sections, dd, ps, 0);
    lemma_sorted_same(all, e);
    let i = choose|i: int| 0 <= i < all.len() && all[i] == e;
    let k = lemma_walk_only(d.sections, dd, ps, 0, i);
    assert(reached(d.sections, dd.rva.0 as int, ps, k));
}

/// Import descriptor `i` of the table at `base`: the addresses of its original
/// and of its bound pointers.
pub open spec fn descriptor(sections: Seq<SectionModel>, base: int, i: int) -> Option<(u32, u32)> {
    match image_read(sections, (base + 20 * i) as u32, 20) {
        Some(b) => Some((u32_at(b, 0), u32_at(b, 16))),
        None => None,
    }
}

/// Where the bound pointers of descriptor `i` stand.
pub open spec fn bound_base(sections: Seq<SectionModel>, base: int, i: int) -> int {
    match descriptor(sections, base, i) {
        Some((_, f)) => f as int,
        None => 0,
    }
}

/// Whether the original pointers of descriptor `i` are gone, so that only the
/// bound ones are left, and the table reaches it.
pub open spec fn overwritten(sections: Seq<SectionModel>, base: int, i: int) -> bool {
    &&& 0 <= i
    &&& base + 20 * i <= u32::MAX
    &&& forall|j: int|
        0 <= j < i ==> #[trigger] descriptor(sections, base, j) is Some && descriptor(
            sections,
            base,
            j,
        ) != Some((0u32, 0u32))
    &&& descriptor(sections, base, i) matches Some((o, f)) && f != 0 && (o == 0 || o == f)
}

/// Whether slot `k` of the pointers at `base` and all before it are not zero.
pub open spec fn bound(sections: Seq<SectionModel>, base: int, ps: nat, k: int) -> bool {
    &&& 0 <= k
    &&& base + k * ps <= u32::MAX
    &&& forall|j: int|
        0 <= j <= k ==> #[trigger] slot(sections, base, ps, j) is Some && slot(
            sections,
            base,
            ps,
            j,
        ) != Some(0u64)
}

proof fn lemma_array_finds(sections: Seq<SectionModel>, base: int, ps: nat, m: int, k: int)
    requires
        ps == 4 || ps == 8,
        0 <= base,
        0 <= m <= k,
        bound(sections, base, ps, k),
    ensures
        thunk_array_entries(sections, base + m * ps, ps).contains(slot_at(sections, base, ps, k)),
    decreases k - m,
{
    assert(0 <= m * ps <= k * ps) by (nonlinear_arith)
        requires
            0 <= m <= k,
            0 <= ps,
    ;
    assert((m + 1) * ps == m * ps + ps) by (nonlinear_arith);
    let v = slot(sections, base, ps, m);
    assert(v is Some && v != Some(0u64));
    let e = slot_at(sections, base, ps, m);
    let rest = thunk_array_entries(sections, base + m * ps + ps, ps);
    assert(thunk_array_entries(sections, base + m * ps, ps) == seq![e] + rest);
    if m == k {
        assert((seq![e] + rest)[0] == e);
    } else {
        lemma_array_finds(sections, base, ps, m + 1, k);
        let x = slot_at(sections, base, ps, k);
        let i = choose|i: int| 0 <= i < rest.len() && rest[i] == x;
        assert((seq![e] + rest)[i + 1] == x);
    }
}

proof fn lemma_descriptor(sections: Seq<SectionModel>, addr: int)
    requires
        0 <= addr <= u32::MAX,
    ensures
        image_read(sections, addr as u32, 20) matches Some(b) ==> dword(b, 0) == u32_at(b, 0)
            && dword(b, 16) == u32_at(b, 16),
{
    if let Some(b) = image_read(sections, addr as u32, 20) {
        crate::domain::document::lemma_locate(sections, addr as u32);
        numbers_are_little_endian(b, 0);
        numbers_are_little_endian(b, 16);
    }
}

proof fn lemma_overwritten_finds(
    sections: Seq<SectionModel>,
    base: int,
    ps: nat,
    m: int,
    i: int,
    k: int,
)
    requires
        ps == 4 || ps == 8,
        0 <= base,
        0 <= m <= i,
        overwritten(sections, base, i),
        bound(sections, bound_base(sections, base, i), ps, k),
    ensures
        overwritten_entries(sections, base + 20 * m, ps).contains(
            slot_at(sections, bound_base(sections, base, i), ps, k),
        ),
    decreases i - m,
{
    let x = slot_at(sections, bound_base(sections, base, i), ps, k);
    lemma_descriptor(sections, base + 20 * m);
    let d = descriptor(sections, base, m);
    assert(d is Some && d != Some((0u32, 0u32)));
    let (oft, ft) = d->0;
    let own = if (oft == 0 || oft == ft) && ft != 0 {
        thunk_array_entries(sections, ft as int, ps)
    } else {
        Seq::empty()
    };
    let rest = overwritten_entries(sections, base + 20 * m + 20, ps);
    assert(overwritten_entries(sections, base + 20 * m, ps) == own + rest);
    if m == i {
        lemma_array_finds(sections, ft as int, ps, 0, k);
        let n = choose|n: int| 0 <= n < own.len() && own[n] == x;
        assert((own + rest)[n] == x);
    } else {
        lemma_overwritten_finds(sections, base, ps, m + 1, i, k);
        assert(base + 20 * (m + 1) == base + 20 * m + 20);
        let n = choose|n: int| 0 <= n < rest.len() && rest[n] == x;
        assert((own + rest)[own.len() + n] == x);
    }
}

/// Where an image has an import directory, the reflection scan finds every bound
/// pointer of every module whose original pointers are gone: those that are
/// absent, or the same as the bound ones.
pub proof fn reflection_finds_every_bound_pointer(d: DocModel, dd: DataDirectory, i: int, k: int)
    requires
        present_directory(d.data_directories, DataDirectoryIndex::Import) == Some(dd),
        overwritten(d.sections, dd.rva.0 as int, i),
        bound(
            d.sections,
            bound_base(d.sections, dd.rva.0 as int, i),
            pointer_size(d.arch),
            k,
        ),
    ensures
        reflection_scan(d) is Ok,
        reflection_scan(d)->Ok_0.entries.contains(
            slot_at(
                d.sections,
                bound_base(d.sections, dd.rva.0 as int, i),
                pointer_size(d.arch),
                k,
            ),
        ),
{
    let ps = pointer_size(d.arch);
    let base = dd.rva.0 as int;
    let e = slot_at(d.sections, bound_base(d.sections, base, i), ps, k);
    lemma_overwritten_finds(d.sections, base, ps, 0, i, k);
    let all = overwritten_entries(d.sections, base, ps);
    assert(all.contains(e));
    lemma_sorted_same(all, e);
}

proof fn lemma_array_only(sections: Seq<SectionModel>, base: int, ps: nat, m: int, i: int) -> (k:
    int)
    requires
        ps == 4 || ps == 8,
        0 <= base,
        0 <= m,
        0 <= i < thunk_array_entries(sections, base + m * ps, ps).len(),
        forall|j: int|
            0 <= j < m ==> #[trigger] slot(sections, base, ps, j) is Some && slot(
                sections,
                base,
                ps,
                j,
            ) != Some(0u64),
    ensures
        bound(sections, base, ps, k),
        thunk_array_entries(sections, base + m * ps, ps)[i] == slot_at(sections, base, ps, k),
    decreases 0x1_0000_0020 - (base + m * ps),
{
    let addr = base + m * ps;
    assert(0 <= m * ps) by (nonlinear_arith)
        requires
            0 <= m,
            0 <= ps,
    ;
    assert((m + 1) * ps == m * ps + ps) by (nonlinear_arith);
    let v = slot(sections, base, ps, m);
    assert(v is Some && v != Some(0u64));
    let e = slot_at(sections, base, ps, m);
    let rest = thunk_array_entries(sections, addr + ps, ps);
    assert(thunk_array_entries(sections, addr, ps) == seq![e] + rest);
    if i == 0 {
        m
    } else {
        assert((seq![e] + rest)[i] == rest[i - 1]);
        lemma_array_only(sections, base, ps, m + 1, i - 1)
    }
}

proof fn lemma_overwritten_only(
    sections: Seq<SectionModel>,
    base: int,
    ps: nat,
    m: int,
    n: int,
) -> (r: (int, int))
    requires
        ps == 4 || ps == 8,
        0 <= base,
        0 <= m,
        0 <= n < overwritten_entries(sections, base + 20 * m, ps).len(),
        forall|j: int|
            0 <= j < m ==> #[trigger] descriptor(sections, base, j) is Some && descriptor(
                sections,
                base,
                j,
            ) != Some((0u32, 0u32)),
    ensures
        overwritten(sections, base, r.0),
        bound(sections, bound_base(sections, base, r.0), ps, r.1),
        overwritten_entries(sections, base + 20 * m, ps)[n] == slot_at(
            sections,
            bound_base(sections, base, r.0),
            ps,
            r.1,
        ),
    decreases 0x1_0000_0020 - (base + 20 * m),
{
    let addr = base + 20 * m;
    lemma_descriptor(sections, addr);
    let (oft, ft) = descriptor(sections, base, m)->0;
    let own = if (oft == 0 || oft == ft) && ft != 0 {
        thunk_array_entries(sections, ft as int, ps)
    } else {
        Seq::empty()
    };
    let rest = overwritten_entries(sections, addr + 20, ps);
    assert(overwritten_entries(sections, addr, ps) == own + rest);
    if n < own.len() {
        assert((own + rest)[n] == own[n]);
        (m, lemma_array_only(sections, ft as int, ps, 0, n))
    } else {
        assert((own + rest)[n] == rest[n - own.len()]);
        assert(base + 20 * (m + 1) == addr + 20);
        lemma_overwritten_only(sections, base, ps, m + 1, n - own.len())
    }
}

/// And it finds no others.
pub proof fn reflection_finds_only_bound_pointers(d: DocModel, dd: DataDirectory, e: IatEntry)
    requires
        present_directory(d.data_directories, DataDirectoryIndex::Import) == Some(dd),
        reflection_scan(d) is Ok,
        reflection_scan(d)->Ok_0.entries.contains(e),
    ensures
        exists|i: int, k: int|
            #![trigger overwritten(d.sections, dd.rva.0 as int, i), slot_at(
                d.sections,
                bound_base(d.sections, dd.rva.0 as int, i),
                pointer_size(d.arch),
                k,
            )]
            overwritten(d.sections, dd.rva.0 as int, i) && bound(
                d.sections,
                bound_base(d.sections, dd.rva.0 as int, i),
                pointer_size(d.arch),
                k,
            ) && e == slot_at(
                d.sections,
                bound_base(d.sections, dd.rva.0 as int, i),
                pointer_size(d.arch),
                k,
            ),
{
    let ps = pointer_size(d.arch);
    let base = dd.rva.0 as int;
    let all = overwritten_entries(d.sections, base, ps);
    lemma_sorted_same(all, e);
    let n = choose|n: int| 0 <= n < all.len() && all[n] == e;
    let (i, k) = lemma_overwritten_only(d.sections, base, ps, 0, n);
    assert(overwritten(d.sections, base, i));
    assert(e == slot_at(d.sections, bound_base(d.sections, base, i), ps, k));
}

/// A slot holds the pointer that stands in the image at its address.
pub proof fn slots_hold_the_pointer(sections: Seq<SectionModel>, r: u32, ps: nat)
    requires
        ps == 4 || ps == 8,
    ensures
        thunk_at(sections, r, ps) == image_pointer(sections, r as int, ps),
{
    numbers_of_pointers(sections, r as int, ps);
}

} // verus!
