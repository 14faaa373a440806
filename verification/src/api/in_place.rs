//! What rebuilding an import table over existing slots leaves in the image.

use crate::api::importer::{
    function_total, marked, marked_modules, marked_slots, module_written, modules_written,
    lemma_placed_table, placed_table, rebuilt_in_place, slot_total, slots_written, table_base,
    table_fits, writable_section, write_step,
};
use crate::bytes::{le_bytes, lemma_le_bytes_len, low};
use crate::domain::document::{
    covers, image_read, image_write, lemma_locate, lemma_locate_push, locate, read_after_write,
    section_end, write_leaves_the_rest, DocModel,
};
use crate::domain::import::ImportDescriptorModel;
use crate::domain::section::{SectionModel, IMAGE_SCN_MEM_WRITE};
use crate::domain::types::{pointer_size, Rva};
use crate::io::pe::decode::imports_from;
use crate::io::pe::import_render::{flat_thunks, import_blob, module_thunks, thunk_value};
use crate::io::pe::laws::headers::lemma_low;
use crate::io::pe::laws::image::lemma_own_section_holds;
use crate::io::pe::laws::imports::{
    in_bound_pointer, lemma_table_len, plain_imports, pointed_imports_survive,
};
use vstd::prelude::*;

verus! {

/// Whether `n` bytes at `a` and `m` bytes at `b` do not overlap.
pub open spec fn apart(a: int, n: nat, b: int, m: nat) -> bool {
    a + n <= b || b + m <= a
}

/// Where the descriptor of module `m` says where its bound thunk array is.
pub open spec fn bound_pointer(base: u32, m: int) -> int {
    base + 20 * m + 16
}

/// Whether no two slots overlap.
pub open spec fn slots_apart(slots: Seq<Seq<Rva>>, ps: nat) -> bool {
    forall|m: int, k: int, i: int, j: int|
        #![trigger slots[m][k], slots[i][j]]
        0 <= m < slots.len() && 0 <= k < slots[m].len() && 0 <= i < slots.len() && 0 <= j
            < slots[i].len() && (m != i || k != j) ==> apart(
            slots[m][k].0 as int,
            ps,
            slots[i][j].0 as int,
            ps,
        )
}

/// Whether every slot is mapped.
pub open spec fn slots_mapped(sections: Seq<SectionModel>, slots: Seq<Seq<Rva>>, ps: nat) -> bool {
    forall|m: int, k: int|
        #![trigger slots[m][k]]
        0 <= m < slots.len() && 0 <= k < slots[m].len() ==> image_read(
            sections,
            slots[m][k].0,
            ps,
        ) is Some
}

/// Whether the slots of the first `n` modules and what points at them are apart
/// from `len` bytes at `q`.
pub open spec fn clear_of(
    base: u32,
    slots: Seq<Seq<Rva>>,
    ps: nat,
    n: nat,
    q: u32,
    len: nat,
) -> bool {
    &&& forall|m: int|
        0 <= m < n ==> apart(q as int, len, #[trigger] bound_pointer(base, m), 4)
    &&& forall|m: int, k: int|
        #![trigger slots[m][k]]
        0 <= m < n && 0 <= k < slots[m].len() ==> apart(q as int, len, slots[m][k].0 as int, ps)
}

/// Whether two images have the same bytes at the same addresses.
pub open spec fn same_image(a: Seq<SectionModel>, b: Seq<SectionModel>) -> bool {
    &&& a.len() == b.len()
    &&& forall|j: int|
        #![trigger a[j]]
        #![trigger b[j]]
        0 <= j < a.len() ==> a[j].data == b[j].data && a[j].header.virtual_address
            == b[j].header.virtual_address
}

/// Whether two images have sections of the same lengths at the same addresses.
pub open spec fn same_shape(a: Seq<SectionModel>, b: Seq<SectionModel>) -> bool {
    &&& a.len() == b.len()
    &&& forall|j: int|
        #![trigger a[j]]
        #![trigger b[j]]
        0 <= j < a.len() ==> a[j].data.len() == b[j].data.len() && a[j].header == b[j].header
}

/// Whether the loader may write a section.
pub open spec fn may_write(s: SectionModel) -> bool {
    s.header.characteristics & IMAGE_SCN_MEM_WRITE == IMAGE_SCN_MEM_WRITE
}

proof fn lemma_write_keeps_shape(sections: Seq<SectionModel>, r: u32, b: Seq<u8>)
    requires
        image_write(sections, r, b) is Some,
    ensures
        same_shape(sections, image_write(sections, r, b)->0),
{
    lemma_locate(sections, r);
}

/// In images of the same shape the same ranges are mapped.
proof fn lemma_shape_keeps_mapping(a: Seq<SectionModel>, b: Seq<SectionModel>, q: u32, n: nat)
    requires
        same_shape(a, b),
    ensures
        locate(a, q) == locate(b, q),
        image_read(a, q, n) is Some == image_read(b, q, n) is Some,
{
    lemma_locate(a, q);
    lemma_locate(b, q);
    assert forall|j: int| 0 <= j < a.len() implies covers(a[j], q) == covers(b[j], q) by {}
    if let Some(i) = locate(a, q) {
        assert(a[i].header == b[i].header);
    }
}

proof fn lemma_same_image_reads(a: Seq<SectionModel>, b: Seq<SectionModel>, q: u32, n: nat)
    requires
        same_image(a, b),
    ensures
        locate(a, q) == locate(b, q),
        image_read(a, q, n) == image_read(b, q, n),
{
    lemma_locate(a, q);
    lemma_locate(b, q);
    assert forall|j: int| 0 <= j < a.len() implies covers(a[j], q) == covers(b[j], q) by {}
    if let Some(i) = locate(a, q) {
        assert(a[i].data == b[i].data);
    }
}

/// Writing the slots of one module: it succeeds, fills them, and leaves alone
/// what is apart from them.
proof fn lemma_slots_written(
    sections: Seq<SectionModel>,
    all: Seq<Seq<Rva>>,
    m: int,
    thunks: Seq<u64>,
    first: nat,
    ps: nat,
    n: nat,
)
    requires
        0 <= m < all.len(),
        n <= all[m].len(),
        slots_apart(all, ps),
        slots_mapped(sections, all, ps),
    ensures
        ({
            let (after, e) = slots_written(sections, all[m], thunks, first, ps, n);
            &&& e is None
            &&& same_shape(sections, after)
            &&& forall|k: int|
                0 <= k < n ==> image_read(after, (#[trigger] all[m][k]).0, ps) == Some(
                    le_bytes(ps, thunks[first + k] as nat),
                )
        }),
    decreases n,
{
    if n > 0 {
        lemma_slots_written(sections, all, m, thunks, first, ps, (n - 1) as nat);
        let before = slots_written(sections, all[m], thunks, first, ps, (n - 1) as nat).0;
        let r = all[m][n - 1].0;
        let b = le_bytes(ps, thunks[first + n - 1] as nat);
        lemma_le_bytes_len(ps, thunks[first + n - 1] as nat);
        lemma_shape_keeps_mapping(sections, before, r, ps);
        assert(image_read(sections, r, ps) is Some);
        let after = image_write(before, r, b)->0;
        lemma_write_keeps_shape(before, r, b);
        read_after_write(before, r, b);
        assert forall|k: int| 0 <= k < n implies image_read(after, (#[trigger] all[m][k]).0, ps)
            == Some(le_bytes(ps, thunks[first + k] as nat)) by {
            if k < n - 1 {
                assert(apart(all[m][k].0 as int, ps, all[m][n - 1].0 as int, ps));
                write_leaves_the_rest(before, r, b, all[m][k].0, ps);
            }
        }
    }
}

proof fn lemma_slots_keep(
    sections: Seq<SectionModel>,
    slots: Seq<Rva>,
    thunks: Seq<u64>,
    first: nat,
    ps: nat,
    n: nat,
    q: u32,
    len: nat,
)
    requires
        n <= slots.len(),
        slots_written(sections, slots, thunks, first, ps, n).1 is None,
        forall|k: int| 0 <= k < n ==> apart(q as int, len, (#[trigger] slots[k]).0 as int, ps),
    ensures
        image_read(slots_written(sections, slots, thunks, first, ps, n).0, q, len) == image_read(
            sections,
            q,
            len,
        ),
    decreases n,
{
    if n > 0 {
        lemma_slots_keep(sections, slots, thunks, first, ps, (n - 1) as nat, q, len);
        let before = slots_written(sections, slots, thunks, first, ps, (n - 1) as nat).0;
        let b = le_bytes(ps, thunks[first + n - 1] as nat);
        lemma_le_bytes_len(ps, thunks[first + n - 1] as nat);
        write_leaves_the_rest(before, slots[n - 1].0, b, q, len);
    }
}

/// Whether the descriptors of `n` modules are mapped at `base`.
spec fn pointers_mapped(sections: Seq<SectionModel>, base: u32, n: nat) -> bool {
    &&& base + 20 * n <= u32::MAX
    &&& forall|m: int|
        #![trigger bound_pointer(base, m)]
        0 <= m < n ==> image_read(sections, bound_pointer(base, m) as u32, 4) is Some
}

/// Whether every slot is apart from the descriptors of `n` modules at `base`.
spec fn slots_clear(slots: Seq<Seq<Rva>>, ps: nat, base: u32, n: nat) -> bool {
    forall|m: int, k: int|
        #![trigger slots[m][k]]
        0 <= m < slots.len() && 0 <= k < slots[m].len() ==> apart(
            slots[m][k].0 as int,
            ps,
            base as int,
            20 * n,
        )
}

proof fn lemma_pointer_step(
    sections: Seq<SectionModel>,
    base: u32,
    slots: Seq<Seq<Rva>>,
    n: nat,
    m: int,
) -> (pointed: Seq<SectionModel>)
    requires
        0 <= m < n,
        pointers_mapped(sections, base, n),
    ensures
        low((m * 20 + 16) as nat) == m * 20 + 16,
        base + (m * 20 + 16) <= u32::MAX,
        write_step(
            sections,
            bound_pointer(base, m) as u32,
            le_bytes(4, slots[m][0].0 as nat),
        ) == (pointed, None::<crate::error::PeErrorModel>),
        Some(pointed) == image_write(
            sections,
            bound_pointer(base, m) as u32,
            le_bytes(4, slots[m][0].0 as nat),
        ),
        same_shape(sections, pointed),
{
    let r = bound_pointer(base, m) as u32;
    let b = le_bytes(4, slots[m][0].0 as nat);
    lemma_le_bytes_len(4, slots[m][0].0 as nat);
    lemma_low((m * 20 + 16) as nat);
    assert(image_read(sections, r, 4) is Some);
    lemma_write_keeps_shape(sections, r, b);
    image_write(sections, r, b)->0
}

/// Filling the slots of the first `n` modules succeeds and keeps the shape of
/// the image.
proof fn lemma_modules_shape(
    sections: Seq<SectionModel>,
    base: u32,
    slots: Seq<Seq<Rva>>,
    thunks: Seq<u64>,
    ps: nat,
    n: nat,
)
    requires
        n <= slots.len(),
        slots_apart(slots, ps),
        slots_mapped(sections, slots, ps),
        pointers_mapped(sections, base, slots.len()),
    ensures
        modules_written(sections, base, slots, thunks, ps, n).1 is None,
        same_shape(sections, modules_written(sections, base, slots, thunks, ps, n).0),
    decreases n,
{
    if n > 0 {
        lemma_modules_shape(sections, base, slots, thunks, ps, (n - 1) as nat);
        let before = modules_written(sections, base, slots, thunks, ps, (n - 1) as nat).0;
        lemma_shape_keeps_slots(sections, before, base, slots, ps);
        let pointed = lemma_pointer_step(before, base, slots, slots.len(), n - 1);
        lemma_shape_keeps_slots(before, pointed, base, slots, ps);
        lemma_slots_written(
            pointed,
            slots,
            n - 1,
            thunks,
            slot_total(slots, (n - 1) as nat),
            ps,
            slots[n - 1].len(),
        );
    }
}

proof fn lemma_shape_keeps_slots(
    a: Seq<SectionModel>,
    b: Seq<SectionModel>,
    base: u32,
    slots: Seq<Seq<Rva>>,
    ps: nat,
)
    requires
        same_shape(a, b),
        slots_mapped(a, slots, ps),
        pointers_mapped(a, base, slots.len()),
    ensures
        slots_mapped(b, slots, ps),
        pointers_mapped(b, base, slots.len()),
{
    assert forall|m: int, k: int|
        #![trigger slots[m][k]]
        0 <= m < slots.len() && 0 <= k < slots[m].len() implies image_read(
        b,
        slots[m][k].0,
        ps,
    ) is Some by {
        lemma_shape_keeps_mapping(a, b, slots[m][k].0, ps);
    }
    assert forall|m: int|
        #![trigger bound_pointer(base, m)]
        0 <= m < slots.len() implies image_read(b, bound_pointer(base, m) as u32, 4) is Some by {
        lemma_shape_keeps_mapping(a, b, bound_pointer(base, m) as u32, 4);
    }
}

/// Filling the slots of one more module leaves alone what is apart from them
/// and from what points at them.
proof fn lemma_module_keeps(
    sections: Seq<SectionModel>,
    base: u32,
    slots: Seq<Seq<Rva>>,
    thunks: Seq<u64>,
    ps: nat,
    m: int,
    q: u32,
    len: nat,
)
    requires
        0 <= m < slots.len(),
        slots_apart(slots, ps),
        slots_mapped(sections, slots, ps),
        pointers_mapped(sections, base, slots.len()),
        apart(q as int, len, bound_pointer(base, m), 4),
        forall|k: int|
            0 <= k < slots[m].len() ==> apart(
                q as int,
                len,
                (#[trigger] slots[m][k]).0 as int,
                ps,
            ),
    ensures
        image_read(module_written(sections, base, slots, thunks, ps, m).0, q, len) == image_read(
            sections,
            q,
            len,
        ),
{
    let pointed = lemma_pointer_step(sections, base, slots, slots.len(), m);
    let b = le_bytes(4, slots[m][0].0 as nat);
    lemma_le_bytes_len(4, slots[m][0].0 as nat);
    write_leaves_the_rest(sections, bound_pointer(base, m) as u32, b, q, len);
    lemma_shape_keeps_slots(sections, pointed, base, slots, ps);
    let first = slot_total(slots, m as nat);
    lemma_slots_written(pointed, slots, m, thunks, first, ps, slots[m].len());
    lemma_slots_keep(pointed, slots[m], thunks, first, ps, slots[m].len(), q, len);
}

proof fn lemma_modules_keep(
    sections: Seq<SectionModel>,
    base: u32,
    slots: Seq<Seq<Rva>>,
    thunks: Seq<u64>,
    ps: nat,
    n: nat,
    q: u32,
    len: nat,
)
    requires
        n <= slots.len(),
        slots_apart(slots, ps),
        slots_mapped(sections, slots, ps),
        pointers_mapped(sections, base, slots.len()),
        clear_of(base, slots, ps, n, q, len),
    ensures
        image_read(modules_written(sections, base, slots, thunks, ps, n).0, q, len) == image_read(
            sections,
            q,
            len,
        ),
    decreases n,
{
    if n > 0 {
        lemma_modules_keep(sections, base, slots, thunks, ps, (n - 1) as nat, q, len);
        lemma_modules_shape(sections, base, slots, thunks, ps, (n - 1) as nat);
        let before = modules_written(sections, base, slots, thunks, ps, (n - 1) as nat).0;
        lemma_shape_keeps_slots(sections, before, base, slots, ps);
        lemma_module_keeps(before, base, slots, thunks, ps, n - 1, q, len);
    }
}

/// Filling the slots of the first `n` modules leaves a thunk in every slot of
/// module `m` and a pointer to the first of them in its descriptor.
proof fn lemma_module_filled(
    sections: Seq<SectionModel>,
    base: u32,
    slots: Seq<Seq<Rva>>,
    thunks: Seq<u64>,
    ps: nat,
    n: nat,
    m: int,
)
    requires
        0 <= m < n <= slots.len(),
        slots_apart(slots, ps),
        slots_mapped(sections, slots, ps),
        pointers_mapped(sections, base, slots.len()),
        slots_clear(slots, ps, base, slots.len()),
    ensures
        ({
            let after = modules_written(sections, base, slots, thunks, ps, n).0;
            &&& image_read(after, bound_pointer(base, m) as u32, 4) == Some(
                le_bytes(4, slots[m][0].0 as nat),
            )
            &&& forall|k: int|
                0 <= k < slots[m].len() ==> image_read(after, (#[trigger] slots[m][k]).0, ps)
                    == Some(le_bytes(ps, thunks[slot_total(slots, m as nat) + k] as nat))
        }),
    decreases n,
{
    lemma_modules_shape(sections, base, slots, thunks, ps, (n - 1) as nat);
    let before = modules_written(sections, base, slots, thunks, ps, (n - 1) as nat).0;
    let after = modules_written(sections, base, slots, thunks, ps, n).0;
    lemma_shape_keeps_slots(sections, before, base, slots, ps);
    let at = bound_pointer(base, m) as u32;
    if m < n - 1 {
        lemma_module_filled(sections, base, slots, thunks, ps, (n - 1) as nat, m);
        lemma_module_keeps(before, base, slots, thunks, ps, n - 1, at, 4);
        assert forall|k: int| 0 <= k < slots[m].len() implies image_read(
            after,
            (#[trigger] slots[m][k]).0,
            ps,
        ) == Some(le_bytes(ps, thunks[slot_total(slots, m as nat) + k] as nat)) by {
            lemma_module_keeps(before, base, slots, thunks, ps, n - 1, slots[m][k].0, ps);
        }
    } else {
        let pointed = lemma_pointer_step(before, base, slots, slots.len(), m);
        let b = le_bytes(4, slots[m][0].0 as nat);
        lemma_le_bytes_len(4, slots[m][0].0 as nat);
        read_after_write(before, at, b);
        lemma_shape_keeps_slots(before, pointed, base, slots, ps);
        let first = slot_total(slots, m as nat);
        lemma_slots_written(pointed, slots, m, thunks, first, ps, slots[m].len());
        lemma_slots_keep(pointed, slots[m], thunks, first, ps, slots[m].len(), at, 4);
    }
}

/// Marking sections writable moves no byte, and takes the mark from none.
spec fn only_marked(a: Seq<SectionModel>, b: Seq<SectionModel>) -> bool {
    &&& same_image(a, b)
    &&& forall|j: int| 0 <= j < a.len() && may_write(#[trigger] a[j]) ==> may_write(b[j])
}

proof fn lemma_marked(sections: Seq<SectionModel>, r: u32)
    ensures
        only_marked(sections, marked(sections, r)),
        locate(sections, r) matches Some(i) ==> may_write(marked(sections, r)[i]),
{
    lemma_locate(sections, r);
    if let Some(i) = locate(sections, r) {
        let c = sections[i].header.characteristics;
        let w = IMAGE_SCN_MEM_WRITE;
        assert((c | w) & w == w) by (bit_vector);
        assert(may_write(writable_section(sections[i])));
    }
}

proof fn lemma_marked_slots(sections: Seq<SectionModel>, slots: Seq<Rva>, n: nat)
    requires
        n <= slots.len(),
    ensures
        only_marked(sections, marked_slots(sections, slots, n)),
        forall|k: int|
            0 <= k < n ==> (locate(sections, (#[trigger] slots[k]).0) matches Some(i) ==> may_write(
                marked_slots(sections, slots, n)[i],
            )),
    decreases n,
{
    if n > 0 {
        lemma_marked_slots(sections, slots, (n - 1) as nat);
        let before = marked_slots(sections, slots, (n - 1) as nat);
        let after = marked_slots(sections, slots, n);
        lemma_marked(before, slots[n - 1].0);
        lemma_same_image_reads(sections, before, slots[n - 1].0, 0);
        assert forall|k: int| 0 <= k < n implies (locate(
            sections,
            (#[trigger] slots[k]).0,
        ) matches Some(i) ==> may_write(after[i])) by {
            lemma_locate(sections, slots[k].0);
            if let Some(i) = locate(sections, slots[k].0) {
                if k < n - 1 {
                    assert(may_write(before[i]));
                }
            }
        }
    }
}

proof fn lemma_marked_modules(sections: Seq<SectionModel>, slots: Seq<Seq<Rva>>, n: nat)
    requires
        n <= slots.len(),
    ensures
        only_marked(sections, marked_modules(sections, slots, n)),
        forall|m: int, k: int|
            #![trigger slots[m][k]]
            0 <= m < n && 0 <= k < slots[m].len() ==> (locate(sections, slots[m][k].0) matches Some(
                i,
            ) ==> may_write(marked_modules(sections, slots, n)[i])),
    decreases n,
{
    if n > 0 {
        lemma_marked_modules(sections, slots, (n - 1) as nat);
        let before = marked_modules(sections, slots, (n - 1) as nat);
        let after = marked_modules(sections, slots, n);
        lemma_marked_slots(before, slots[n - 1], slots[n - 1].len());
        assert forall|m: int, k: int|
            #![trigger slots[m][k]]
            0 <= m < n && 0 <= k < slots[m].len() implies (locate(
            sections,
            slots[m][k].0,
        ) matches Some(i) ==> may_write(after[i])) by {
            lemma_locate(sections, slots[m][k].0);
            lemma_same_image_reads(sections, before, slots[m][k].0, 0);
            if let Some(i) = locate(sections, slots[m][k].0) {
                if m < n - 1 {
                    assert(may_write(before[i]));
                }
            }
        }
    }
}

/// The thunk of function `k` of module `m` stands behind those of the modules
/// before it.
proof fn lemma_flat_thunk(
    im: Seq<ImportDescriptorModel>,
    ps: nat,
    base: u32,
    n: nat,
    m: int,
    k: int,
)
    requires
        0 <= m < n <= im.len(),
        0 <= k < im[m].functions.len(),
    ensures
        flat_thunks(im, ps, base, n).len() == function_total(im, n),
        function_total(im, m as nat) + k < function_total(im, n),
        flat_thunks(im, ps, base, n)[function_total(im, m as nat) + k] == module_thunks(
            im,
            ps,
            base,
            m,
        )[k],
    decreases n,
{
    lemma_flat_len(im, ps, base, n);
    lemma_flat_len(im, ps, base, (n - 1) as nat);
    if m < n - 1 {
        lemma_flat_thunk(im, ps, base, (n - 1) as nat, m, k);
    }
}

proof fn lemma_flat_len(im: Seq<ImportDescriptorModel>, ps: nat, base: u32, n: nat)
    requires
        n <= im.len(),
    ensures
        flat_thunks(im, ps, base, n).len() == function_total(im, n),
    decreases n,
{
    if n > 0 {
        lemma_flat_len(im, ps, base, (n - 1) as nat);
    }
}

/// A thunk fits in eight bytes.
proof fn lemma_thunk_fits(im: Seq<ImportDescriptorModel>, ps: nat, base: u32, m: int, k: int)
    requires
        ps == 4 || ps == 8,
    ensures
        thunk_value(im, ps, base, m, k) <= u64::MAX,
{
    reveal(low);
}

/// Whether there is one slot for every function, and every module has one.
pub open spec fn slots_match(im: Seq<ImportDescriptorModel>, slots: Seq<Seq<Rva>>) -> bool {
    &&& slots.len() == im.len()
    &&& forall|m: int|
        0 <= m < slots.len() ==> 0 < (#[trigger] slots[m]).len() == im[m].functions.len()
}

proof fn lemma_totals(im: Seq<ImportDescriptorModel>, slots: Seq<Seq<Rva>>, n: nat)
    requires
        slots_match(im, slots),
        n <= slots.len(),
    ensures
        slot_total(slots, n) == function_total(im, n),
    decreases n,
{
    if n > 0 {
        lemma_totals(im, slots, (n - 1) as nat);
    }
}

/// Whether a table can be rebuilt over slots: it fits, there is a mapped slot
/// below it for every function, and no two slots overlap.
pub open spec fn can_rebuild_over(
    d: DocModel,
    im: Seq<ImportDescriptorModel>,
    slots: Seq<Seq<Rva>>,
) -> bool {
    let ps = pointer_size(d.arch);
    &&& table_fits(d, im)
    &&& slots_match(im, slots)
    &&& slots_apart(slots, ps)
    &&& slots_mapped(d.sections, slots, ps)
    &&& forall|m: int, k: int|
        #![trigger slots[m][k]]
        0 <= m < slots.len() && 0 <= k < slots[m].len() ==> slots[m][k].0 + ps <= table_base(d)
}

/// What stands before the slots are filled is ready for it.
proof fn lemma_ready(d: DocModel, im: Seq<ImportDescriptorModel>, slots: Seq<Seq<Rva>>)
    requires
        can_rebuild_over(d, im, slots),
    ensures
        ({
            let ps = pointer_size(d.arch);
            let base = table_base(d);
            let placed = placed_table(d, im).0;
            &&& slots_mapped(placed, slots, ps)
            &&& pointers_mapped(placed, base, slots.len())
            &&& slots_clear(slots, ps, base, slots.len())
            &&& 20 * im.len() <= import_blob(im, ps, base).len()
        }),
{
    let ps = pointer_size(d.arch);
    let base = table_base(d);
    let blob = import_blob(im, ps, base);
    let placed = placed_table(d, im).0;
    let n = d.sections.len() as int;
    lemma_placed_table(d, im);
    lemma_table_len(im, ps, base);
    assert(placed.drop_last() =~= d.sections);
    assert forall|m: int, k: int|
        #![trigger slots[m][k]]
        0 <= m < slots.len() && 0 <= k < slots[m].len() implies image_read(
        placed,
        slots[m][k].0,
        ps,
    ) is Some by {
        let r = slots[m][k].0;
        lemma_locate(d.sections, r);
        lemma_locate_push(d.sections, placed[n], r);
        assert(d.sections.push(placed[n]) =~= placed);
        assert(image_read(d.sections, r, ps) is Some);
    }
    assert forall|m: int|
        #![trigger bound_pointer(base, m)]
        0 <= m < slots.len() implies image_read(
        placed,
        bound_pointer(base, m) as u32,
        4,
    ) is Some by {
        let off = 20 * m + 16;
        assert(image_read(placed, (base + off) as u32, 4) == Some(blob.subrange(off, off + 4)));
    }
}

/// Rebuilding over slots leaves in every slot the thunk of its function, in a
/// section that the loader may write, and in every descriptor a pointer to the
/// first slot of its module.
pub proof fn slots_are_filled(d: DocModel, im: Seq<ImportDescriptorModel>, slots: Seq<Seq<Rva>>)
    requires
        can_rebuild_over(d, im, slots),
    ensures
        ({
            let ps = pointer_size(d.arch);
            let base = table_base(d);
            let (after, r) = rebuilt_in_place(d, im, slots);
            &&& r is Ok
            &&& forall|m: int|
                #![trigger bound_pointer(base, m)]
                0 <= m < im.len() ==> image_read(
                    after.sections,
                    bound_pointer(base, m) as u32,
                    4,
                ) == Some(le_bytes(4, slots[m][0].0 as nat))
            &&& forall|m: int, k: int|
                #![trigger slots[m][k]]
                0 <= m < im.len() && 0 <= k < slots[m].len() ==> {
                    &&& image_read(after.sections, slots[m][k].0, ps) == Some(
                        le_bytes(ps, thunk_value(im, ps, base, m, k)),
                    )
                    &&& locate(after.sections, slots[m][k].0) matches Some(i) && may_write(
                        after.sections[i],
                    )
                }
        }),
{
    let ps = pointer_size(d.arch);
    let base = table_base(d);
    let placed = placed_table(d, im).0;
    let n = slots.len();
    lemma_placed_table(d, im);
    lemma_ready(d, im, slots);
    let thunks = flat_thunks(im, ps, base, im.len());
    lemma_modules_shape(placed, base, slots, thunks, ps, n);
    let written = modules_written(placed, base, slots, thunks, ps, n).0;
    lemma_marked_modules(written, slots, n);
    let after = marked_modules(written, slots, n);
    assert(rebuilt_in_place(d, im, slots).0.sections == after);
    assert forall|m: int|
        #![trigger bound_pointer(base, m)]
        0 <= m < im.len() implies image_read(after, bound_pointer(base, m) as u32, 4) == Some(
        le_bytes(4, slots[m][0].0 as nat),
    ) by {
        lemma_module_filled(placed, base, slots, thunks, ps, n, m);
        lemma_same_image_reads(written, after, bound_pointer(base, m) as u32, 4);
    }
    assert forall|m: int, k: int|
        #![trigger slots[m][k]]
        0 <= m < im.len() && 0 <= k < slots[m].len() implies {
        &&& image_read(after, slots[m][k].0, ps) == Some(
            le_bytes(ps, thunk_value(im, ps, base, m, k)),
        )
        &&& locate(after, slots[m][k].0) matches Some(i) && may_write(after[i])
    } by {
        lemma_module_filled(placed, base, slots, thunks, ps, n, m);
        lemma_totals(im, slots, m as nat);
        lemma_flat_thunk(im, ps, base, im.len(), m, k);
        lemma_thunk_fits(im, ps, base, m, k);
        lemma_same_image_reads(written, after, slots[m][k].0, ps);
        assert(image_read(written, slots[m][k].0, ps) is Some);
    }
}

/// A table that was rebuilt over slots is read back from the image as the table
/// it was rebuilt from.
pub proof fn in_place_imports_read_back(
    d: DocModel,
    im: Seq<ImportDescriptorModel>,
    slots: Seq<Seq<Rva>>,
)
    requires
        can_rebuild_over(d, im, slots),
        plain_imports(im),
    ensures
        imports_from(
            rebuilt_in_place(d, im, slots).0.sections,
            table_base(d) as int,
            pointer_size(d.arch),
        ) == Some(im),
        rebuilt_in_place(d, im, slots).0.imports == im,
{
    let ps = pointer_size(d.arch);
    let base = table_base(d);
    let blob = import_blob(im, ps, base);
    let placed = placed_table(d, im).0;
    let at = d.sections.len() as int;
    let n = slots.len();
    lemma_placed_table(d, im);
    lemma_ready(d, im, slots);
    let thunks = flat_thunks(im, ps, base, im.len());
    lemma_modules_shape(placed, base, slots, thunks, ps, n);
    let written = modules_written(placed, base, slots, thunks, ps, n).0;
    lemma_marked_modules(written, slots, n);
    let after = marked_modules(written, slots, n);
    assert(rebuilt_in_place(d, im, slots).0.sections == after);
    let table = written[at].data;
    assert(written[at].header == placed[at].header);
    assert forall|j: int| 0 <= j < at implies section_end(#[trigger] after[j])
        <= after[at].header.virtual_address.0 by {
        assert(written[j].data == after[j].data);
        assert(placed[j].header == written[j].header);
        assert(section_end(placed[j]) <= base);
    }
    assert(after[at].data == table);
    lemma_own_section_holds(after, at);
    assert forall|i: int| 0 <= i < table.len() && !in_bound_pointer(im.len(), i) implies #[trigger]
        table[i] == blob[i] by {
        let q = (base + i) as u32;
        assert forall|m: int| 0 <= m < n implies apart(
            q as int,
            1,
            #[trigger] bound_pointer(base, m),
            4,
        ) by {
            if bound_pointer(base, m) <= q < bound_pointer(base, m) + 4 {
                assert(i == 20 * m + (i - 20 * m));
                assert(i % 20 == i - 20 * m);
            }
        }
        lemma_modules_keep(placed, base, slots, thunks, ps, n, q, 1);
        lemma_same_image_reads(written, after, q, 1);
        assert(image_read(after, (base + i) as u32, 1) == Some(table.subrange(i, i + 1)));
        assert(image_read(placed, (base + i) as u32, 1) == Some(blob.subrange(i, i + 1)));
        assert(table.subrange(i, i + 1)[0] == blob.subrange(i, i + 1)[0]);
    }
    pointed_imports_survive(after, table, im, ps, base);
}

} // verus!
