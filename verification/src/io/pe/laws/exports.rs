//! A rendered export table is read back as it was.

use crate::bytes::{
    encode_fields, fields_fit, le_bytes, lemma_encode_len, lemma_fields_roundtrip,
    lemma_le_bytes_len, lemma_le_roundtrip, lemma_pow256_values, low, splice, zeros,
};
use crate::domain::data_directory::DataDirectory;
use crate::domain::export::{ExportSymbolModel, ExportTableModel};
use crate::domain::section::SectionModel;
use crate::domain::types::Rva;
use crate::io::pe::decode::{
    cstring, export_ordinal, export_symbol, export_symbols, exports_at, table_entry,
};
use crate::io::pe::export_render::{
    export_plan, first_forwarded, first_with, lemma_first_forwarded, lemma_first_with,
    lemma_forwarders_len, lemma_forwarders_len_mono, lemma_named, lemma_names_len,
    lemma_names_len_mono, lemma_slot_bounds, named_of, text_bytes, ExportPlan,
};
use crate::io::pe::import_render::{address, nul_terminated};
use crate::io::pe::laws::format::{numbers_are_little_endian, u32_at};
use crate::io::pe::laws::headers::lemma_low;
use crate::io::pe::laws::image::{
    image_holds, lemma_held_number, lemma_held_record, lemma_held_text, plain_text,
};
use crate::io::pe::laws::tables::lemma_export_numbers;
use crate::io::pe::layout::{export_fields, lemma_export_size};
use crate::sorting::{
    insert_point, lemma_insert_point, sorted, stable_sort, stable_sort_fixpoint, stable_sort_sorts,
    Keyed,
};
use vstd::prelude::*;
use vstd::utf8::encode_utf8;

verus! {

/// An export table in the shape that rendering assumes: every symbol has a
/// name, and their ordinals run without a gap from the table's base.
pub open spec fn contiguous(t: ExportTableModel) -> bool {
    &&& t.number_of_functions == t.symbols.len()
    &&& t.module_name is Some
    &&& forall|i: int|
        0 <= i < t.symbols.len() ==> (#[trigger] t.symbols[i]).name is Some && t.symbols[i].ordinal
            == t.base + i
}

/// Whether every symbol has a name and no two share an ordinal.
pub open spec fn named_apart(s: Seq<ExportSymbolModel>) -> bool {
    &&& forall|i: int| 0 <= i < s.len() ==> (#[trigger] s[i]).name is Some
    &&& forall|i: int, j: int|
        0 <= i < j < s.len() ==> (#[trigger] s[i]).ordinal != (#[trigger] s[j]).ordinal
}

/// Whether every symbol has a name and their ordinals rise.
spec fn ascending(t: ExportTableModel) -> bool {
    &&& forall|i: int| 0 <= i < t.symbols.len() ==> (#[trigger] t.symbols[i]).name is Some
    &&& forall|i: int, j: int|
        0 <= i < j < t.symbols.len() ==> (#[trigger] t.symbols[i]).ordinal < (
        #[trigger] t.symbols[j]).ordinal
}

/// Whether every text of an export table can be read back.
pub open spec fn plain_exports(t: ExportTableModel) -> bool {
    &&& t.module_name matches Some(s) ==> plain_text(s)
    &&& forall|i: int| 0 <= i < t.symbols.len() ==> #[trigger] plain_symbol(t.symbols[i])
}

pub open spec fn plain_symbol(s: ExportSymbolModel) -> bool {
    &&& s.name matches Some(x) ==> plain_text(x)
    &&& s.forwarder matches Some(x) ==> plain_text(x)
}

/// The rendered table lies where every address in it fits, and the address of
/// a symbol that is not forwarded lies outside of it.
pub open spec fn exports_placed(t: ExportTableModel, base: u32) -> bool {
    let size = export_plan(t).size();
    &&& base + size <= u32::MAX
    &&& forall|i: int|
        0 <= i < t.symbols.len() && (#[trigger] t.symbols[i]).forwarder is None ==> !(base
            <= t.symbols[i].rva.0 < base + size)
}

/// The table that is read back from a rendered one: the symbols in the order of
/// their ordinals and numbered without a gap from the base, a forwarded symbol
/// with the address of its forwarder string. A table without a module name has
/// an empty one.
pub open spec fn reread_exports(t: ExportTableModel, base: u32) -> ExportTableModel {
    let p = export_plan(t);
    ExportTableModel {
        module_name: Some(
            match t.module_name {
                Some(m) => m,
                None => Seq::empty(),
            },
        ),
        base: t.base,
        number_of_functions: p.syms.len() as u32,
        symbols: Seq::new(
            p.syms.len(),
            |i: int|
                ExportSymbolModel {
                    ordinal: export_ordinal(t.base, i as nat),
                    rva: if p.syms[i].forwarder is Some {
                        Rva((base + p.forwarder_off(i)) as u32)
                    } else {
                        p.syms[i].rva
                    },
                    ..p.syms[i]
                },
        ),
    }
}

/// A table whose ordinals run without a gap is read back as it was but for the
/// addresses of forwarded symbols.
pub proof fn contiguous_exports_are_kept(t: ExportTableModel, base: u32)
    requires
        contiguous(t),
    ensures
        named_apart(t.symbols),
        reread_exports(t, base) == (ExportTableModel {
            symbols: Seq::new(
                t.symbols.len(),
                |i: int|
                    ExportSymbolModel {
                        rva: reread_exports(t, base).symbols[i].rva,
                        ..t.symbols[i]
                    },
            ),
            ..t
        }),
        forall|i: int|
            0 <= i < t.symbols.len() && (#[trigger] t.symbols[i]).forwarder is None
                ==> reread_exports(t, base).symbols[i] == t.symbols[i],
        (forall|i: int| 0 <= i < t.symbols.len() ==> (#[trigger] t.symbols[i]).forwarder is None)
            ==> reread_exports(t, base) == t,
{
    assert(ascending(t));
    lemma_plan(t);
    let r = reread_exports(t, base);
    assert forall|i: int| 0 <= i < t.symbols.len() implies r.symbols[i] == (ExportSymbolModel {
        rva: r.symbols[i].rva,
        ..t.symbols[i]
    }) by {
        assert(t.symbols[i].ordinal == t.base + i);
        assert(export_ordinal(t.base, i as nat) == t.symbols[i].ordinal);
    }
    if forall|i: int| 0 <= i < t.symbols.len() ==> (#[trigger] t.symbols[i]).forwarder is None {
        assert(r.symbols =~= t.symbols);
    }
}

/// Rising 16-bit ordinals are not more than there are of them.
proof fn lemma_ordinals_bound(t: ExportTableModel, i: int)
    requires
        ascending(t),
        0 <= i < t.symbols.len(),
    ensures
        i <= t.symbols[i].ordinal,
    decreases i,
{
    if i > 0 {
        lemma_ordinals_bound(t, i - 1);
        assert(t.symbols[i - 1].ordinal < t.symbols[i].ordinal);
    }
}

proof fn lemma_symbol_count(t: ExportTableModel)
    requires
        ascending(t),
    ensures
        t.symbols.len() <= 0x1_0000,
{
    if t.symbols.len() > 0 {
        lemma_ordinals_bound(t, t.symbols.len() - 1);
    }
}

proof fn lemma_plan(t: ExportTableModel)
    requires
        ascending(t),
    ensures
        export_plan(t).syms == t.symbols,
        export_plan(t).named == t.symbols,
        forall|i: int|
            0 <= i < t.symbols.len() ==> #[trigger] first_with(t.symbols, t.symbols[i].ordinal)
                == Some(i),
        forall|i: int|
            0 <= i < t.symbols.len() ==> #[trigger] first_forwarded(
                t.symbols,
                t.symbols[i].ordinal,
            ) == if t.symbols[i].forwarder is Some {
                Some(i)
            } else {
                None
            },
{
    let s = t.symbols;
    assert(sorted(s)) by {
        assert forall|i: int, j: int| 0 <= i <= j < s.len() implies crate::sorting::Keyed::key(
            &s[i],
        ) <= crate::sorting::Keyed::key(&s[j]) by {
            if i < j {
                assert(s[i].ordinal < s[j].ordinal);
            }
        }
    }
    stable_sort_fixpoint(s);
    lemma_all_named(s);
    assert forall|i: int| 0 <= i < s.len() implies #[trigger] first_with(s, s[i].ordinal) == Some(
        i,
    ) by {
        lemma_first_with(s, s[i].ordinal);
        if let Some(j) = first_with(s, s[i].ordinal) {
            assert(s[j].ordinal == s[i].ordinal);
            if j < i {
                assert(s[j].ordinal < s[i].ordinal);
            } else if i < j {
                assert(s[i].ordinal < s[j].ordinal);
            }
        }
    }
    assert forall|i: int| 0 <= i < s.len() implies #[trigger] first_forwarded(s, s[i].ordinal)
        == if s[i].forwarder is Some {
        Some(i)
    } else {
        None
    } by {
        lemma_first_forwarded(s, s[i].ordinal);
        if let Some(j) = first_forwarded(s, s[i].ordinal) {
            assert(s[j].ordinal == s[i].ordinal);
            if j < i {
                assert(s[j].ordinal < s[i].ordinal);
            } else if i < j {
                assert(s[i].ordinal < s[j].ordinal);
            }
        }
    }
}

proof fn lemma_all_named(s: Seq<ExportSymbolModel>)
    requires
        forall|i: int| 0 <= i < s.len() ==> (#[trigger] s[i]).name is Some,
    ensures
        named_of(s) == s,
    decreases s.len(),
{
    if s.len() > 0 {
        assert forall|i: int| 0 <= i < s.drop_last().len() implies (
        #[trigger] s.drop_last()[i]).name is Some by {
            assert(s[i].name is Some);
        }
        lemma_all_named(s.drop_last());
        assert(s[s.len() - 1].name is Some);
        assert(s.drop_last().push(s.last()) =~= s);
    }
}

/// Overwriting keeps what lies elsewhere and leaves what was written.
proof fn lemma_splice(b: Seq<u8>, off: int, x: Seq<u8>)
    requires
        0 <= off,
        off + x.len() <= b.len(),
    ensures
        splice(b, off, x).len() == b.len(),
        splice(b, off, x).subrange(off, off + x.len()) == x,
        forall|lo: int, hi: int|
            #![trigger splice(b, off, x).subrange(lo, hi)]
            0 <= lo <= hi <= b.len() && (hi <= off || off + x.len() <= lo) ==> splice(
                b,
                off,
                x,
            ).subrange(lo, hi) == b.subrange(lo, hi),
        forall|i: int|
            #![trigger splice(b, off, x)[i]]
            0 <= i < b.len() && (i < off || off + x.len() <= i) ==> splice(b, off, x)[i] == b[i],
{
    let r = splice(b, off, x);
    assert(r.subrange(off, off + x.len()) =~= x);
    assert forall|lo: int, hi: int|
        #![trigger r.subrange(lo, hi)]
        0 <= lo <= hi <= b.len() && (hi <= off || off + x.len() <= lo) implies r.subrange(lo, hi)
        == b.subrange(lo, hi) by {
        assert(r.subrange(lo, hi) =~= b.subrange(lo, hi));
    }
}

/// Whether the symbol in `slot` is fully written.
spec fn slot_done(t: ExportTableModel, b: Seq<u8>, base: u32, slot: int) -> bool {
    let p = export_plan(t);
    let s = t.symbols[slot];
    let name = text_bytes(s.name);
    let fwd = text_bytes(s.forwarder);
    &&& b.subrange(40 + 4 * slot, 44 + 4 * slot) == le_bytes(4, p.func_value(base, slot))
    &&& b.subrange(p.names_tab() + 4 * slot, p.names_tab() + 4 * slot + 4) == le_bytes(
        4,
        address(base, p.name_off(slot)),
    )
    &&& b.subrange(p.ordinals_tab() + 2 * slot, p.ordinals_tab() + 2 * slot + 2) == le_bytes(
        2,
        slot as nat,
    )
    &&& b.subrange(p.name_off(slot) as int, p.name_off(slot) + name.len() as int) == name
    &&& s.forwarder is Some ==> b.subrange(
        p.forwarder_off(slot) as int,
        p.forwarder_off(slot) + fwd.len() as int,
    ) == fwd
}

/// The terminators of all strings.
spec fn terminators(t: ExportTableModel, b: Seq<u8>) -> bool {
    let p = export_plan(t);
    &&& b[p.module_off() + p.module.len() as int] == 0
    &&& forall|i: int|
        0 <= i < t.symbols.len() ==> b[#[trigger] p.name_off(i) + text_bytes(
            t.symbols[i].name,
        ).len() as int] == 0
    &&& forall|i: int|
        0 <= i < t.symbols.len() && t.symbols[i].forwarder is Some ==> b[#[trigger] p.forwarder_off(
            i,
        ) + text_bytes(t.symbols[i].forwarder).len() as int] == 0
}

/// Where the parts of the table stand, in order.
proof fn lemma_order(t: ExportTableModel, i: int)
    requires
        ascending(t),
        0 <= i < t.symbols.len(),
    ensures
        ({
            let p = export_plan(t);
            let s = t.symbols[i];
            let n = t.symbols.len();
            &&& p.names_tab() == 40 + 4 * n
            &&& p.ordinals_tab() == 40 + 8 * n
            &&& p.module_off() == 40 + 10 * n
            &&& p.module_off() + p.module.len() + 1 <= p.name_off(i)
            &&& p.name_off(i) + text_bytes(s.name).len() + 1 <= p.forwarder_off(0)
            &&& p.forwarder_off(0) <= p.forwarder_off(i)
            &&& p.forwarder_off(i) <= p.size()
            &&& s.forwarder is Some ==> p.forwarder_off(i) + text_bytes(s.forwarder).len() + 1
                <= p.size()
        }),
{
    let p = export_plan(t);
    lemma_plan(t);
    lemma_names_len(t.symbols, i);
    lemma_forwarders_len(t.symbols, i);
    lemma_forwarders_len_mono(t.symbols, 0, i);
    assert(t.symbols.take(0) =~= Seq::empty());
}

proof fn lemma_apart(t: ExportTableModel, i: int, j: int)
    requires
        ascending(t),
        0 <= i < j < t.symbols.len(),
    ensures
        ({
            let p = export_plan(t);
            &&& p.name_off(i) + text_bytes(t.symbols[i].name).len() + 1 <= p.name_off(j)
            &&& t.symbols[i].forwarder is Some ==> p.forwarder_off(i) + text_bytes(
                t.symbols[i].forwarder,
            ).len() + 1 <= p.forwarder_off(j)
        }),
{
    lemma_plan(t);
    lemma_names_len(t.symbols, i);
    lemma_names_len_mono(t.symbols, i + 1, j);
    lemma_forwarders_len(t.symbols, i);
    lemma_forwarders_len_mono(t.symbols, i + 1, j);
}

/// Whether `[lo, hi)` lies apart from everything the symbol in `slot` writes.
spec fn clear_of(t: ExportTableModel, slot: int, lo: int, hi: int) -> bool {
    let p = export_plan(t);
    let s = t.symbols[slot];
    &&& hi <= 40 + 4 * slot || 44 + 4 * slot <= lo
    &&& hi <= p.names_tab() + 4 * slot || p.names_tab() + 4 * slot + 4 <= lo
    &&& hi <= p.ordinals_tab() + 2 * slot || p.ordinals_tab() + 2 * slot + 2 <= lo
    &&& hi <= p.name_off(slot) || p.name_off(slot) + text_bytes(s.name).len() <= lo
    &&& s.forwarder is Some ==> hi <= p.forwarder_off(slot) || p.forwarder_off(slot) + text_bytes(
        s.forwarder,
    ).len() <= lo
}

/// Writing a symbol leaves its own parts in place and everything apart from
/// them as it was.
proof fn lemma_slot_kept(t: ExportTableModel, b: Seq<u8>, base: u32, slot: int)
    requires
        ascending(t),
        0 <= slot < t.symbols.len(),
        b.len() == export_plan(t).size(),
    ensures
        ({
            let r = export_plan(t).with_slot(b, base, slot);
            &&& r.len() == b.len()
            &&& slot_done(t, r, base, slot)
            &&& forall|lo: int, hi: int|
                #![trigger r.subrange(lo, hi)]
                0 <= lo <= hi <= b.len() && clear_of(t, slot, lo, hi) ==> r.subrange(lo, hi)
                    == b.subrange(lo, hi)
        }),
{
    let p = export_plan(t);
    let s = t.symbols[slot];
    lemma_plan(t);
    lemma_order(t, slot);
    assert(s.name is Some);
    let x1 = le_bytes(4, p.func_value(base, slot));
    let x2 = le_bytes(4, address(base, p.name_off(slot)));
    let x3 = le_bytes(2, slot as nat);
    let x4 = text_bytes(s.name);
    let x5 = text_bytes(s.forwarder);
    lemma_le_bytes_len(4, p.func_value(base, slot));
    lemma_le_bytes_len(4, address(base, p.name_off(slot)));
    lemma_le_bytes_len(2, slot as nat);
    let b1 = splice(b, 40 + 4 * slot, x1);
    lemma_splice(b, 40 + 4 * slot, x1);
    let b2 = splice(b1, p.names_tab() + 4 * slot, x2);
    lemma_splice(b1, p.names_tab() + 4 * slot, x2);
    let b3 = splice(b2, p.ordinals_tab() + 2 * slot, x3);
    lemma_splice(b2, p.ordinals_tab() + 2 * slot, x3);
    let b4 = splice(b3, p.name_off(slot) as int, x4);
    lemma_splice(b3, p.name_off(slot) as int, x4);
    let b5 = if s.forwarder is Some {
        splice(b4, p.forwarder_off(slot) as int, x5)
    } else {
        b4
    };
    if s.forwarder is Some {
        lemma_splice(b4, p.forwarder_off(slot) as int, x5);
    }
    assert(first_with(p.named, s.ordinal) == Some(slot));
    assert(p.with_slot(b, base, slot) == b5);
}

proof fn lemma_at(b: Seq<u8>, r: Seq<u8>, i: int)
    requires
        0 <= i < b.len(),
        r.len() == b.len(),
        r.subrange(i, i + 1) == b.subrange(i, i + 1),
    ensures
        r[i] == b[i],
{
    assert(r.subrange(i, i + 1)[0] == r[i]);
    assert(b.subrange(i, i + 1)[0] == b[i]);
}

/// A symbol already written stays written.
proof fn lemma_done_kept(t: ExportTableModel, b: Seq<u8>, base: u32, slot: int, j: int)
    requires
        ascending(t),
        0 <= j < slot < t.symbols.len(),
        b.len() == export_plan(t).size(),
        slot_done(t, b, base, j),
    ensures
        slot_done(t, export_plan(t).with_slot(b, base, slot), base, j),
{
    let p = export_plan(t);
    lemma_slot_kept(t, b, base, slot);
    lemma_order(t, slot);
    lemma_order(t, j);
    lemma_apart(t, j, slot);
    assert(clear_of(t, slot, 40 + 4 * j, 44 + 4 * j));
    assert(clear_of(t, slot, p.names_tab() + 4 * j, p.names_tab() + 4 * j + 4));
    assert(clear_of(t, slot, p.ordinals_tab() + 2 * j, p.ordinals_tab() + 2 * j + 2));
}

/// Writing one more symbol keeps the header area, the terminators and the
/// symbols already written.
proof fn lemma_slot_step(t: ExportTableModel, b: Seq<u8>, base: u32, slot: int)
    requires
        ascending(t),
        0 <= slot < t.symbols.len(),
        b.len() == export_plan(t).size(),
        terminators(t, b),
        forall|j: int| 0 <= j < slot ==> #[trigger] slot_done(t, b, base, j),
    ensures
        ({
            let p = export_plan(t);
            let r = p.with_slot(b, base, slot);
            &&& r.len() == b.len()
            &&& terminators(t, r)
            &&& forall|j: int| 0 <= j <= slot ==> #[trigger] slot_done(t, r, base, j)
            &&& r.subrange(0, 40) == b.subrange(0, 40)
            &&& r.subrange(
                p.module_off() as int,
                (p.module_off() + p.module.len()) as int,
            ) == b.subrange(p.module_off() as int, (p.module_off() + p.module.len()) as int)
        }),
{
    let p = export_plan(t);
    let r = p.with_slot(b, base, slot);
    lemma_slot_kept(t, b, base, slot);
    lemma_order(t, slot);
    assert forall|j: int| 0 <= j <= slot implies #[trigger] slot_done(t, r, base, j) by {
        if j < slot {
            assert(slot_done(t, b, base, j));
            lemma_done_kept(t, b, base, slot, j);
        }
    }
    assert(r[p.module_off() + p.module.len() as int] == 0) by {
        let at = p.module_off() + p.module.len() as int;
        assert(clear_of(t, slot, at, at + 1));
        lemma_at(b, r, at);
    }
    assert forall|i: int| 0 <= i < t.symbols.len() implies r[#[trigger] p.name_off(i)
        + text_bytes(t.symbols[i].name).len() as int] == 0 by {
        lemma_order(t, i);
        if i < slot {
            lemma_apart(t, i, slot);
        } else if slot < i {
            lemma_apart(t, slot, i);
        }
        let at = p.name_off(i) + text_bytes(t.symbols[i].name).len() as int;
        assert(b[at] == 0);
        assert(clear_of(t, slot, at, at + 1));
        lemma_at(b, r, at);
    }
    assert forall|i: int| 0 <= i < t.symbols.len() && t.symbols[i].forwarder is Some implies r[
    #[trigger] p.forwarder_off(i) + text_bytes(t.symbols[i].forwarder).len() as int] == 0 by {
        lemma_order(t, i);
        if i < slot {
            lemma_apart(t, i, slot);
        } else if slot < i {
            lemma_apart(t, slot, i);
        }
        let at = p.forwarder_off(i) + text_bytes(t.symbols[i].forwarder).len() as int;
        assert(b[at] == 0);
        assert(clear_of(t, slot, at, at + 1));
        lemma_at(b, r, at);
    }
}

proof fn lemma_slots(t: ExportTableModel, b: Seq<u8>, base: u32, n: nat)
    requires
        ascending(t),
        n <= t.symbols.len(),
        b.len() == export_plan(t).size(),
        terminators(t, b),
    ensures
        ({
            let p = export_plan(t);
            let r = p.with_slots(b, base, n);
            &&& r.len() == b.len()
            &&& terminators(t, r)
            &&& forall|j: int| 0 <= j < n ==> #[trigger] slot_done(t, r, base, j)
            &&& r.subrange(0, 40) == b.subrange(0, 40)
            &&& r.subrange(
                p.module_off() as int,
                (p.module_off() + p.module.len()) as int,
            ) == b.subrange(p.module_off() as int, (p.module_off() + p.module.len()) as int)
        }),
    decreases n,
{
    if n > 0 {
        let p = export_plan(t);
        lemma_slots(t, b, base, (n - 1) as nat);
        lemma_slot_step(t, p.with_slots(b, base, (n - 1) as nat), base, n - 1);
    }
}

/// What stands where in the finished table.
proof fn lemma_blob(t: ExportTableModel, base: u32)
    requires
        ascending(t),
    ensures
        ({
            let p = export_plan(t);
            let r = p.blob(base, t.base);
            let mo = p.module_off() as int;
            &&& r.len() == p.size()
            &&& 40 <= p.size()
            &&& r.subrange(0, 40) == encode_fields(export_fields(), p.header(base, t.base))
            &&& mo + p.module.len() + 1 <= p.size()
            &&& r.subrange(mo, mo + p.module.len() + 1) == p.module.push(0)
            &&& forall|j: int| 0 <= j < t.symbols.len() ==> #[trigger] slot_done(t, r, base, j)
            &&& terminators(t, r)
        }),
{
    let p = export_plan(t);
    lemma_plan(t);
    lemma_export_size();
    lemma_encode_len(export_fields(), p.header(base, t.base));
    let enc = encode_fields(export_fields(), p.header(base, t.base));
    let head = enc + zeros((p.size() - 40) as nat);
    let mo = p.module_off() as int;
    let start = splice(head, mo, p.module);
    lemma_splice(head, mo, p.module);
    assert forall|i: int| 40 <= i < p.size() && (i < mo || mo + p.module.len() <= i) implies
        start[i] == 0 by {
        assert(head[i] == 0);
    }
    assert forall|i: int| 0 <= i < t.symbols.len() implies start[#[trigger] p.name_off(i)
        + text_bytes(t.symbols[i].name).len() as int] == 0 by {
        lemma_order(t, i);
    }
    assert forall|i: int| 0 <= i < t.symbols.len() && t.symbols[i].forwarder is Some implies start[
    #[trigger] p.forwarder_off(i) + text_bytes(t.symbols[i].forwarder).len() as int] == 0 by {
        lemma_order(t, i);
    }
    assert(terminators(t, start));
    lemma_slots(t, start, base, t.symbols.len());
    let r = p.blob(base, t.base);
    assert(start.subrange(0, 40) == head.subrange(0, 40));
    assert(head.subrange(0, 40) =~= enc);
    assert(r.subrange(mo, mo + p.module.len() + 1) =~= r.subrange(
        mo,
        mo + p.module.len(),
    ).push(r[mo + p.module.len()]));
}

/// The fields of the rendered header.
proof fn lemma_header_values(t: ExportTableModel, base: u32)
    requires
        ascending(t),
        exports_placed(t, base),
    ensures
        ({
            let p = export_plan(t);
            let d = p.header(base, t.base);
            &&& d[4] as u32 == base + p.module_off()
            &&& d[5] as u32 == t.base
            &&& d[6] as u32 == t.symbols.len()
            &&& d[7] as u32 == t.symbols.len()
            &&& d[8] as u32 == base + 40
            &&& d[9] as u32 == base + p.names_tab()
            &&& d[10] as u32 == base + p.ordinals_tab()
            &&& fields_fit(export_fields(), d)
        }),
{
    let p = export_plan(t);
    let d = p.header(base, t.base);
    lemma_plan(t);
    lemma_symbol_count(t);
    lemma_export_size();
    lemma_pow256_values();
    lemma_low(p.module_off());
    lemma_low(t.symbols.len());
    lemma_low(p.names_tab());
    lemma_low(p.ordinals_tab());
    lemma_low(40);
    let ws = export_fields();
    assert(ws[0] == 4 && ws[1] == 4 && ws[2] == 2 && ws[3] == 2 && ws[4] == 4 && ws[5] == 4 && ws[6]
        == 4 && ws[7] == 4 && ws[8] == 4 && ws[9] == 4 && ws[10] == 4);
    assert(fields_fit(ws, d));
}

/// Entry `i` of a table that stands at `tab` of the blob is read back.
proof fn lemma_table_entry(
    sections: Seq<SectionModel>,
    base: u32,
    blob: Seq<u8>,
    tab: nat,
    i: nat,
    step: nat,
    v: nat,
)
    requires
        image_holds(sections, base, blob),
        step == 2 || step == 4,
        v < if step == 2 {
            0x1_0000int
        } else {
            0x1_0000_0000
        },
        tab + step * i + step <= blob.len(),
        blob.subrange((tab + step * i) as int, (tab + step * i + step) as int) == le_bytes(step, v),
    ensures
        table_entry(sections, (base + tab) as u32, i, step) == Some(v),
{
    lemma_pow256_values();
    lemma_held_number(sections, base, blob, (tab + step * i) as int, step, v);
    assert(base + tab + step * i == base + (tab + step * i));
    assert((base + tab) as u32 == base + tab) by (nonlinear_arith)
        requires
            base + blob.len() <= u32::MAX,
            tab + step * i + step <= blob.len(),
            step >= 0,
            i >= 0,
            tab >= 0,
    ;
}

/// The three table entries of the symbol in `slot`.
proof fn lemma_symbol_entries(
    sections: Seq<SectionModel>,
    t: ExportTableModel,
    base: u32,
    slot: int,
)
    requires
        ascending(t),
        exports_placed(t, base),
        image_holds(sections, base, export_plan(t).blob(base, t.base)),
        0 <= slot < t.symbols.len(),
    ensures
        ({
            let p = export_plan(t);
            let fv = if t.symbols[slot].forwarder is Some {
                (base + p.forwarder_off(slot)) as nat
            } else {
                t.symbols[slot].rva.0 as nat
            };
            &&& table_entry(sections, (base + p.names_tab()) as u32, slot as nat, 4) == Some(
                (base + p.name_off(slot)) as nat,
            )
            &&& table_entry(sections, (base + p.ordinals_tab()) as u32, slot as nat, 2) == Some(
                slot as nat,
            )
            &&& table_entry(sections, (base + 40) as u32, slot as nat, 4) == Some(fv)
        }),
{
    let p = export_plan(t);
    let r = p.blob(base, t.base);
    let s = t.symbols[slot];
    lemma_plan(t);
    lemma_symbol_count(t);
    lemma_blob(t, base);
    lemma_order(t, slot);
    assert(slot_done(t, r, base, slot));
    lemma_low(p.name_off(slot));
    lemma_low(p.forwarder_off(slot));
    let na = address(base, p.name_off(slot));
    let fv = p.func_value(base, slot);
    assert(first_forwarded(p.syms, s.ordinal) == if s.forwarder is Some {
        Some(slot)
    } else {
        None::<int>
    });
    lemma_table_entry(sections, base, r, p.names_tab(), slot as nat, 4, na);
    lemma_table_entry(sections, base, r, p.ordinals_tab(), slot as nat, 2, slot as nat);
    lemma_table_entry(sections, base, r, 40, slot as nat, 4, fv);
}

/// The texts of the symbol in `slot`.
proof fn lemma_symbol_texts(
    sections: Seq<SectionModel>,
    t: ExportTableModel,
    base: u32,
    slot: int,
)
    requires
        ascending(t),
        plain_exports(t),
        exports_placed(t, base),
        image_holds(sections, base, export_plan(t).blob(base, t.base)),
        0 <= slot < t.symbols.len(),
    ensures
        ({
            let p = export_plan(t);
            let s = t.symbols[slot];
            &&& cstring(sections, (base + p.name_off(slot)) as u32) == s.name
            &&& s.forwarder is Some ==> cstring(
                sections,
                (base + p.forwarder_off(slot)) as u32,
            ) == s.forwarder
        }),
{
    let p = export_plan(t);
    let r = p.blob(base, t.base);
    let s = t.symbols[slot];
    lemma_blob(t, base);
    lemma_order(t, slot);
    assert(slot_done(t, r, base, slot));
    assert(plain_symbol(s));
    assert(s.name is Some);
    reveal(nul_terminated);
    let name = s.name->0;
    let no = p.name_off(slot) as int;
    let nb = encode_utf8(name);
    assert(r[no + nb.len()] == 0);
    assert(r.subrange(no, no + nb.len() + 1) =~= r.subrange(no, no + nb.len()).push(
        r[no + nb.len()],
    ));
    lemma_held_text(sections, base, r, no, name);
    if s.forwarder is Some {
        let f = s.forwarder->0;
        let fo = p.forwarder_off(slot) as int;
        let fb = encode_utf8(f);
        assert(r[fo + fb.len()] == 0);
        assert(r.subrange(fo, fo + fb.len() + 1) =~= r.subrange(fo, fo + fb.len()).push(
            r[fo + fb.len()],
        ));
        lemma_held_text(sections, base, r, fo, f);
    }
}

/// The symbol in `slot` is read back.
proof fn lemma_symbol(sections: Seq<SectionModel>, t: ExportTableModel, base: u32, slot: int)
    requires
        ascending(t),
        plain_exports(t),
        exports_placed(t, base),
        image_holds(sections, base, export_plan(t).blob(base, t.base)),
        0 <= slot < t.symbols.len(),
    ensures
        export_symbol(
            sections,
            DataDirectory { rva: Rva(base), size: low(export_plan(t).size()) },
            export_plan(t).header(base, t.base),
            slot as nat,
        ) == Some(reread_exports(t, base).symbols[slot]),
{
    let p = export_plan(t);
    let s = t.symbols[slot];
    lemma_header_values(t, base);
    lemma_symbol_entries(sections, t, base, slot);
    lemma_symbol_texts(sections, t, base, slot);
    lemma_order(t, slot);
    lemma_low(p.size());
    lemma_plan(t);
    assert(s.name is Some);
}

proof fn lemma_symbols(sections: Seq<SectionModel>, t: ExportTableModel, base: u32, n: nat)
    requires
        ascending(t),
        plain_exports(t),
        exports_placed(t, base),
        image_holds(sections, base, export_plan(t).blob(base, t.base)),
        n <= t.symbols.len(),
    ensures
        export_symbols(
            sections,
            DataDirectory { rva: Rva(base), size: low(export_plan(t).size()) },
            export_plan(t).header(base, t.base),
            n,
        ) == Some(reread_exports(t, base).symbols.take(n as int)),
    decreases n,
{
    let all = reread_exports(t, base).symbols;
    lemma_plan(t);
    if n == 0 {
        assert(all.take(0) =~= Seq::empty());
    } else {
        lemma_symbols(sections, t, base, (n - 1) as nat);
        lemma_symbol(sections, t, base, n - 1);
        assert(all.take(n as int) =~= all.take(n - 1).push(all[n - 1]));
    }
}

/// A rendered export table with rising ordinals is read back.
proof fn lemma_ascending_survives(sections: Seq<SectionModel>, t: ExportTableModel, base: u32)
    requires
        ascending(t),
        plain_exports(t),
        exports_placed(t, base),
        image_holds(sections, base, export_plan(t).blob(base, t.base)),
    ensures
        exports_at(
            sections,
            DataDirectory { rva: Rva(base), size: low(export_plan(t).size()) },
        ) == Some(reread_exports(t, base)),
{
    let p = export_plan(t);
    let r = p.blob(base, t.base);
    let d = p.header(base, t.base);
    lemma_plan(t);
    lemma_symbol_count(t);
    lemma_blob(t, base);
    lemma_export_size();
    lemma_header_values(t, base);
    lemma_held_record(sections, base, r, 0, export_fields(), d);
    reveal(nul_terminated);
    let m = match t.module_name {
        Some(m) => m,
        None => Seq::empty(),
    };
    assert(encode_utf8(Seq::<char>::empty()) =~= Seq::empty());
    assert(nul_terminated(m) == p.module.push(0));
    lemma_held_text(sections, base, r, p.module_off() as int, m);
    lemma_symbols(sections, t, base, t.symbols.len());
    let all = reread_exports(t, base).symbols;
    assert(all.take(t.symbols.len() as int) =~= all);
}

/// Sorting by ordinal keeps the symbols, and their ordinals apart.
proof fn lemma_sorted_apart(s: Seq<ExportSymbolModel>)
    requires
        named_apart(s),
    ensures
        named_apart(stable_sort(s)),
        stable_sort(s).len() == s.len(),
        forall|i: int| 0 <= i < s.len() ==> s.contains(#[trigger] stable_sort(s)[i]),
    decreases s.len(),
{
    if s.len() > 0 {
        let d = s.drop_last();
        let x = s.last();
        assert(named_apart(d)) by {
            assert forall|i: int| 0 <= i < d.len() implies (#[trigger] d[i]).name is Some by {
                assert(s[i].name is Some);
            }
            assert forall|i: int, j: int| 0 <= i < j < d.len() implies (#[trigger] d[i]).ordinal
                != (#[trigger] d[j]).ordinal by {
                assert(s[i].ordinal != s[j].ordinal);
            }
        }
        lemma_sorted_apart(d);
        let t = stable_sort(d);
        let p = insert_point(t, x.ordinal as int);
        lemma_insert_point(t, x.ordinal as int);
        let r = stable_sort(s);
        assert(r == t.insert(p, x));
        assert forall|i: int| 0 <= i < t.len() implies s.contains(#[trigger] t[i])
            && t[i].ordinal != x.ordinal by {
            assert(d.contains(t[i]));
            let k = choose|k: int| 0 <= k < d.len() && d[k] == t[i];
            assert(s[k] == t[i]);
            assert(s[k].ordinal != s[s.len() - 1].ordinal);
        }
        assert(s[s.len() - 1] == x);
        assert forall|i: int| 0 <= i < s.len() implies s.contains(#[trigger] r[i])
            && r[i].name is Some by {
            if i < p {
                assert(r[i] == t[i]);
            } else if i > p {
                assert(r[i] == t[i - 1]);
            }
        }
        assert forall|i: int, j: int| 0 <= i < j < r.len() implies (#[trigger] r[i]).ordinal != (
        #[trigger] r[j]).ordinal by {
            let a = if i < p {
                i
            } else {
                i - 1
            };
            let b = if j < p {
                j
            } else {
                j - 1
            };
            if i == p {
                assert(r[j] == t[b]);
            } else if j == p {
                assert(r[i] == t[a]);
            } else {
                assert(r[i] == t[a] && r[j] == t[b]);
                assert(t[a].ordinal != t[b].ordinal);
            }
        }
    }
}

/// In the order of their ordinals, symbols that are apart make the same table.
proof fn lemma_sorted_table(t: ExportTableModel)
    requires
        named_apart(t.symbols),
    ensures
        ({
            let u = ExportTableModel { symbols: stable_sort(t.symbols), ..t };
            export_plan(u) == export_plan(t) && ascending(u)
        }),
{
    let s = stable_sort(t.symbols);
    lemma_sorted_apart(t.symbols);
    stable_sort_sorts(t.symbols);
    stable_sort_fixpoint(s);
    assert forall|i: int, j: int| 0 <= i < j < s.len() implies (#[trigger] s[i]).ordinal < (
    #[trigger] s[j]).ordinal by {
        assert(s[i].key() <= s[j].key());
        assert(s[i].ordinal != s[j].ordinal);
    }
}

/// A rendered table has the size that was planned for it.
pub proof fn rendered_exports_size(t: ExportTableModel, base: u32)
    requires
        named_apart(t.symbols),
    ensures
        export_plan(t).blob(base, t.base).len() == export_plan(t).size(),
{
    lemma_sorted_table(t);
    lemma_blob(ExportTableModel { symbols: stable_sort(t.symbols), ..t }, base);
}

/// As many symbols are read back as there were.
pub proof fn reread_exports_keep_count(t: ExportTableModel, base: u32)
    requires
        named_apart(t.symbols),
    ensures
        reread_exports(t, base).symbols.len() == t.symbols.len(),
{
    lemma_sorted_apart(t.symbols);
}

/// A rendered export table that stands in an image is read back: every symbol
/// with its name, address and forwarder, in the order of the ordinals.
pub proof fn exports_survive(sections: Seq<SectionModel>, t: ExportTableModel, base: u32)
    requires
        named_apart(t.symbols),
        plain_exports(t),
        exports_placed(t, base),
        image_holds(sections, base, export_plan(t).blob(base, t.base)),
    ensures
        exports_at(
            sections,
            DataDirectory { rva: Rva(base), size: low(export_plan(t).size()) },
        ) == Some(reread_exports(t, base)),
        reread_exports(t, base).symbols.len() == t.symbols.len(),
{
    let s = stable_sort(t.symbols);
    let u = ExportTableModel { symbols: s, ..t };
    lemma_sorted_table(t);
    lemma_sorted_apart(t.symbols);
    assert forall|i: int| 0 <= i < s.len() implies #[trigger] plain_symbol(s[i]) && (
    s[i].forwarder is None ==> !(base <= s[i].rva.0 < base + export_plan(t).size())) by {
        assert(t.symbols.contains(s[i]));
        let k = choose|k: int| 0 <= k < t.symbols.len() && t.symbols[k] == s[i];
        assert(plain_symbol(t.symbols[k]));
    }
    assert forall|i: int| 0 <= i < u.symbols.len() && (#[trigger] u.symbols[i]).forwarder is None
        implies !(base <= u.symbols[i].rva.0 < base + export_plan(u).size()) by {
        assert(plain_symbol(s[i]));
    }
    lemma_ascending_survives(sections, u, base);
    assert(reread_exports(u, base) == reread_exports(t, base));
}

/// Writing a symbol that is not forwarded sets its own address and no other.
proof fn lemma_slot_address(p: ExportPlan, b: Seq<u8>, base: u32, slot: int)
    requires
        0 <= slot < p.syms.len(),
        p.named == named_of(p.syms),
        forall|j: int| 0 <= j < p.syms.len() ==> (#[trigger] p.syms[j]).forwarder is None,
        b.len() == p.size(),
    ensures
        ({
            let r = p.with_slot(b, base, slot);
            &&& r.len() == b.len()
            &&& r.subrange(40 + 4 * slot, 44 + 4 * slot) == le_bytes(
                4,
                p.syms[slot].rva.0 as nat,
            )
            &&& forall|k: int|
                0 <= k < 40 + 4 * p.syms.len() && !(40 + 4 * slot <= k < 44 + 4 * slot)
                    ==> #[trigger] r[k] == b[k]
        }),
{
    let s = p.syms[slot];
    let f = le_bytes(4, s.rva.0 as nat);
    lemma_slot_bounds(p, slot);
    lemma_first_forwarded(p.syms, s.ordinal);
    assert(first_forwarded(p.syms, s.ordinal) is None);
    lemma_le_bytes_len(4, s.rva.0 as nat);
    let b1 = splice(b, 40 + 4 * slot, f);
    lemma_splice(b, 40 + 4 * slot, f);
    let r = p.with_slot(b, base, slot);
    if let Some(name) = s.name {
        let i = first_with(p.named, s.ordinal)->0;
        let a = le_bytes(4, address(base, p.name_off(i)));
        let o = le_bytes(2, slot as nat);
        lemma_le_bytes_len(4, address(base, p.name_off(i)));
        lemma_le_bytes_len(2, slot as nat);
        let c1 = splice(b1, p.names_tab() + 4 * i, a);
        lemma_splice(b1, p.names_tab() + 4 * i, a);
        let c2 = splice(c1, p.ordinals_tab() + 2 * i, o);
        lemma_splice(c1, p.ordinals_tab() + 2 * i, o);
        assert(text_bytes(s.name) == encode_utf8(name));
        lemma_splice(c2, p.name_off(i) as int, encode_utf8(name));
        assert forall|k: int| 0 <= k < 40 + 4 * p.syms.len() implies r[k] == b1[k] by {
            assert(c1[k] == b1[k]);
            assert(c2[k] == c1[k]);
        }
    }
    assert(r.subrange(40 + 4 * slot, 44 + 4 * slot) =~= f) by {
        assert(b1.subrange(40 + 4 * slot, 44 + 4 * slot) == f);
        assert forall|k: int| 40 + 4 * slot <= k < 44 + 4 * slot implies r[k] == b1[k] by {}
        assert(r.subrange(40 + 4 * slot, 44 + 4 * slot) =~= b1.subrange(
            40 + 4 * slot,
            44 + 4 * slot,
        ));
    }
}

proof fn lemma_slot_addresses(p: ExportPlan, b: Seq<u8>, base: u32, n: nat)
    requires
        n <= p.syms.len(),
        p.named == named_of(p.syms),
        forall|j: int| 0 <= j < p.syms.len() ==> (#[trigger] p.syms[j]).forwarder is None,
        b.len() == p.size(),
    ensures
        ({
            let r = p.with_slots(b, base, n);
            &&& r.len() == b.len()
            &&& forall|k: int| 0 <= k < 40 ==> #[trigger] r[k] == b[k]
            &&& forall|j: int|
                0 <= j < n ==> r.subrange(40 + 4 * j, 44 + 4 * j) == le_bytes(
                    4,
                    (#[trigger] p.syms[j]).rva.0 as nat,
                )
        }),
    decreases n,
{
    if n > 0 {
        lemma_slot_addresses(p, b, base, (n - 1) as nat);
        let q = p.with_slots(b, base, (n - 1) as nat);
        lemma_slot_address(p, q, base, n - 1);
        let r = p.with_slots(b, base, n);
        assert forall|j: int| 0 <= j < n implies r.subrange(40 + 4 * j, 44 + 4 * j) == le_bytes(
            4,
            (#[trigger] p.syms[j]).rva.0 as nat,
        ) by {
            if j < n - 1 {
                assert(r.subrange(40 + 4 * j, 44 + 4 * j) =~= q.subrange(40 + 4 * j, 44 + 4 * j));
            }
        }
    }
}

/// A rendered table without forwarders has the address of every symbol, named or
/// not, in the order of the ordinals behind its header, and the header says
/// where and how many they are.
pub proof fn every_export_has_its_address(t: ExportTableModel, base: u32, i: int)
    requires
        forall|j: int| 0 <= j < t.symbols.len() ==> (#[trigger] t.symbols[j]).forwarder is None,
        base + export_plan(t).size() <= u32::MAX,
    ensures
        ({
            let b = export_plan(t).blob(base, t.base);
            let s = stable_sort(t.symbols);
            &&& b.len() == export_plan(t).size()
            &&& u32_at(b, 16) == t.base
            &&& u32_at(b, 20) == s.len()
            &&& u32_at(b, 28) == base + 40
            &&& 0 <= i < s.len() ==> u32_at(b, 40 + 4 * i) == s[i].rva.0
        }),
{
    let p = export_plan(t);
    let s = stable_sort(t.symbols);
    stable_sort_sorts(t.symbols);
    s.to_multiset_ensures();
    t.symbols.to_multiset_ensures();
    assert forall|j: int| 0 <= j < s.len() implies (#[trigger] s[j]).forwarder is None by {
        assert(s.contains(s[j]));
        assert(s.to_multiset().count(s[j]) > 0);
        assert(t.symbols.contains(s[j]));
        let k = choose|k: int| 0 <= k < t.symbols.len() && t.symbols[k] == s[j];
        assert(t.symbols[k].forwarder is None);
    }
    lemma_named(s);
    assert(p.named.len() <= s.len());
    let vs = p.header(base, t.base);
    let enc = encode_fields(export_fields(), vs);
    lemma_export_size();
    lemma_low(p.module_off());
    lemma_low(40);
    lemma_low(p.names_tab());
    lemma_low(p.ordinals_tab());
    lemma_pow256_values();
    assert(fields_fit(export_fields(), vs));
    lemma_fields_roundtrip(export_fields(), vs);
    lemma_low(s.len());
    lemma_low(p.named.len());
    lemma_export_numbers(enc);
    let head = enc + zeros((p.size() - 40) as nat);
    let start = splice(head, p.module_off() as int, p.module);
    lemma_splice(head, p.module_off() as int, p.module);
    lemma_slot_addresses(p, start, base, s.len());
    let b = p.blob(base, t.base);
    assert forall|k: int| 0 <= k < 40 implies #[trigger] b[k] == enc[k] by {
        assert(start[k] == head[k]);
    }
    assert(u32_at(b, 16) == u32_at(enc, 16));
    assert(u32_at(b, 20) == u32_at(enc, 20));
    assert(u32_at(b, 28) == u32_at(enc, 28));
    if 0 <= i < s.len() {
        let x = b.subrange(40 + 4 * i, 44 + 4 * i);
        assert(x == le_bytes(4, s[i].rva.0 as nat));
        lemma_le_roundtrip(4, s[i].rva.0 as nat);
        numbers_are_little_endian(x, 0);
        assert(x.subrange(0, 4) =~= x);
        assert(u32_at(x, 0) == u32_at(b, 40 + 4 * i));
    }
}

} // verus!
