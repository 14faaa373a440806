//! Renders a rich export table into the physical `IMAGE_EXPORT_DIRECTORY`
//! bytes of a PE.
//!
//! Layout: export directory (40 bytes) + function address array + name pointer
//! array + name-ordinal array + strings (module name, export names, forwarders).

use crate::bytes::{
    encode_fields, le_bytes, lemma_encode_len, lemma_le_bytes_len, low, low32, patch, push_fields,
    push_le, splice, zeros,
};
use crate::domain::export::{ExportSymbol, ExportSymbolModel, ExportTable, ExportTableModel};
use crate::domain::import::{lemma_views_push, views};
use crate::domain::types::Rva;
use crate::error::{invalid_argument, result_view, PeErrorModel, PeResult};
use crate::io::pe::import_render::{address, addressable};
use crate::io::pe::layout::{export_fields, export_layout, lemma_export_size};
use crate::sorting::{lemma_insert_point_is, stable_sort, stable_sort_sorts, Keyed};
use vstd::prelude::*;
use vstd::utf8::encode_utf8;

verus! {

impl Keyed for ExportSymbolModel {
    open spec fn key(&self) -> int {
        self.ordinal as int
    }
}

/// An optional text as bytes; an absent one is empty.
pub open spec fn text_bytes(o: Option<Seq<char>>) -> Seq<u8> {
    match o {
        Some(s) => encode_utf8(s),
        None => Seq::empty(),
    }
}

/// The symbols that have a name.
pub open spec fn named_of(s: Seq<ExportSymbolModel>) -> Seq<ExportSymbolModel>
    decreases s.len(),
{
    if s.len() == 0 {
        s
    } else if s.last().name is Some {
        named_of(s.drop_last()).push(s.last())
    } else {
        named_of(s.drop_last())
    }
}

/// The size of the name strings of `s`, each with its NUL.
pub open spec fn names_len(s: Seq<ExportSymbolModel>) -> nat
    decreases s.len(),
{
    if s.len() == 0 {
        0
    } else {
        names_len(s.drop_last()) + text_bytes(s.last().name).len() + 1
    }
}

/// The size of the forwarder strings of `s`, each with its NUL.
pub open spec fn forwarders_len(s: Seq<ExportSymbolModel>) -> nat
    decreases s.len(),
{
    if s.len() == 0 {
        0
    } else {
        forwarders_len(s.drop_last()) + if s.last().forwarder is Some {
            text_bytes(s.last().forwarder).len() + 1
        } else {
            0
        }
    }
}

/// The first symbol with the ordinal `o`.
pub open spec fn first_with(s: Seq<ExportSymbolModel>, o: u16) -> Option<int>
    decreases s.len(),
{
    if s.len() == 0 {
        None
    } else {
        match first_with(s.drop_last(), o) {
            Some(i) => Some(i),
            None => if s.last().ordinal == o {
                Some(s.len() - 1)
            } else {
                None
            },
        }
    }
}

/// The first forwarded symbol with the ordinal `o`.
pub open spec fn first_forwarded(s: Seq<ExportSymbolModel>, o: u16) -> Option<int>
    decreases s.len(),
{
    if s.len() == 0 {
        None
    } else {
        match first_forwarded(s.drop_last(), o) {
            Some(i) => Some(i),
            None => if s.last().ordinal == o && s.last().forwarder is Some {
                Some(s.len() - 1)
            } else {
                None
            },
        }
    }
}

/// How an export table is laid out: its symbols in ordinal order, those of them
/// that have a name, and the module name.
pub struct ExportPlan {
    pub syms: Seq<ExportSymbolModel>,
    pub named: Seq<ExportSymbolModel>,
    pub module: Seq<u8>,
}

/// The layout of a table.
pub open spec fn export_plan(t: ExportTableModel) -> ExportPlan {
    ExportPlan {
        syms: stable_sort(t.symbols),
        named: named_of(stable_sort(t.symbols)),
        module: text_bytes(t.module_name),
    }
}

impl ExportPlan {
    /// The offset of the name pointer array.
    pub open spec fn names_tab(self) -> nat {
        40 + 4 * self.syms.len()
    }

    /// The offset of the name-ordinal array.
    pub open spec fn ordinals_tab(self) -> nat {
        self.names_tab() + 4 * self.named.len()
    }

    /// The offset of the module name.
    pub open spec fn module_off(self) -> nat {
        self.ordinals_tab() + 2 * self.named.len()
    }

    /// The offset of the name of the `i`-th named symbol.
    pub open spec fn name_off(self, i: int) -> nat {
        self.module_off() + self.module.len() + 1 + names_len(self.named.take(i))
    }

    /// The offset of the forwarder of symbol `i`.
    pub open spec fn forwarder_off(self, i: int) -> nat {
        self.module_off() + self.module.len() + 1 + names_len(self.named) + forwarders_len(
            self.syms.take(i),
        )
    }

    /// The size of the table.
    pub open spec fn size(self) -> nat {
        self.module_off() + self.module.len() + 1 + names_len(self.named) + forwarders_len(
            self.syms,
        )
    }

    /// The address stored for the symbol in `slot`: that of the forwarder
    /// string for its ordinal, or its own.
    pub open spec fn func_value(self, base: u32, slot: int) -> nat {
        match first_forwarded(self.syms, self.syms[slot].ordinal) {
            Some(j) => address(base, self.forwarder_off(j)),
            None => self.syms[slot].rva.0 as nat,
        }
    }

    /// The table after the symbol in `slot` was written into it. Symbols that
    /// share an ordinal share the name entry and the forwarder string of the
    /// first of them.
    pub open spec fn with_slot(self, b: Seq<u8>, base: u32, slot: int) -> Seq<u8> {
        let s = self.syms[slot];
        let b1 = splice(b, 40 + 4 * slot, le_bytes(4, self.func_value(base, slot)));
        let b2 = match s.name {
            Some(name) => {
                let i = first_with(self.named, s.ordinal)->0;
                let c1 = splice(
                    b1,
                    self.names_tab() + 4 * i,
                    le_bytes(4, address(base, self.name_off(i))),
                );
                let c2 = splice(c1, self.ordinals_tab() + 2 * i, le_bytes(2, slot as nat));
                splice(c2, self.name_off(i) as int, encode_utf8(name))
            },
            None => b1,
        };
        match first_forwarded(self.syms, s.ordinal) {
            Some(j) => splice(b2, self.forwarder_off(j) as int, text_bytes(s.forwarder)),
            None => b2,
        }
    }

    /// The table after the first `n` symbols were written into `b`.
    pub open spec fn with_slots(self, b: Seq<u8>, base: u32, n: nat) -> Seq<u8>
        decreases n,
    {
        if n == 0 {
            b
        } else {
            self.with_slot(self.with_slots(b, base, (n - 1) as nat), base, n - 1)
        }
    }

    /// The fields of the export directory.
    pub open spec fn header(self, base: u32, ordinal_base: u32) -> Seq<u64> {
        seq![
            0u64,
            0u64,
            0u64,
            0u64,
            address(base, self.module_off()) as u64,
            ordinal_base as u64,
            low(self.syms.len()) as u64,
            low(self.named.len()) as u64,
            address(base, 40) as u64,
            address(base, self.names_tab()) as u64,
            address(base, self.ordinals_tab()) as u64,
        ]
    }

    /// The rendered table.
    pub open spec fn blob(self, base: u32, ordinal_base: u32) -> Seq<u8> {
        let head = encode_fields(export_fields(), self.header(base, ordinal_base)) + zeros(
            (self.size() - 40) as nat,
        );
        self.with_slots(
            splice(head, self.module_off() as int, self.module),
            base,
            self.syms.len(),
        )
    }

    /// Whether what the symbol in `slot` refers to has an address.
    pub open spec fn slot_addressable(self, base: u32, slot: int) -> bool {
        let s = self.syms[slot];
        &&& first_forwarded(self.syms, s.ordinal) matches Some(j) ==> addressable(
            base,
            self.forwarder_off(j),
        )
        &&& s.name is Some ==> addressable(
            base,
            self.name_off(first_with(self.named, s.ordinal)->0),
        )
    }

    /// Whether the whole table has addresses.
    pub open spec fn all_addressable(self, base: u32) -> bool {
        &&& addressable(base, self.module_off())
        &&& addressable(base, 40)
        &&& addressable(base, self.names_tab())
        &&& addressable(base, self.ordinals_tab())
        &&& forall|slot: int|
            0 <= slot < self.syms.len() ==> #[trigger] self.slot_addressable(base, slot)
    }
}

/// Symbols that share an ordinal are either all forwarded or none of them is.
pub open spec fn forwarders_agree(s: Seq<ExportSymbolModel>) -> bool {
    forall|i: int, j: int|
        #![trigger s[i], s[j]]
        0 <= i < s.len() && 0 <= j < s.len() && s[i].ordinal == s[j].ordinal && s[j].forwarder is Some
            ==> s[i].forwarder is Some
}

/// Whether symbols that share an ordinal are either all forwarded or none of
/// them is.
pub fn same_kind_per_ordinal(symbols: &[ExportSymbol]) -> (r: bool)
    ensures
        r == forwarders_agree(views(symbols@)),
{
    let ghost all = views(symbols@);
    let mut i: usize = 0;
    while i < symbols.len()
        invariant
            i <= symbols.len(),
            all == views(symbols@),
            forall|a: int, b: int|
                #![trigger all[a], all[b]]
                0 <= a < i && 0 <= b < all.len() && all[a].ordinal == all[b].ordinal
                    && all[b].forwarder is Some ==> all[a].forwarder is Some,
        decreases symbols.len() - i,
    {
        let mut j: usize = 0;
        while j < symbols.len()
            invariant
                j <= symbols.len(),
                i < symbols.len(),
                all == views(symbols@),
                forall|b: int|
                    #![trigger all[b]]
                    0 <= b < j && all[i as int].ordinal == all[b].ordinal
                        && all[b].forwarder is Some ==> all[i as int].forwarder is Some,
            decreases symbols.len() - j,
        {
            assert(all[i as int] == symbols@[i as int]@);
            assert(all[j as int] == symbols@[j as int]@);
            if symbols[i].ordinal == symbols[j].ordinal && symbols[j].forwarder.is_some()
                && symbols[i].forwarder.is_none() {
                return false;
            }
            j = j + 1;
        }
        i = i + 1;
    }
    true
}

/// The result of rendering an export table.
#[derive(Debug, PartialEq, Eq)]
pub struct RenderedExport {
    pub blob: Vec<u8>,
    pub rva: u32,
    pub size: u32,
}

/// A rendered export table as mathematical values.
#[verifier::ext_equal]
pub struct RenderedExportModel {
    pub blob: Seq<u8>,
    pub rva: u32,
    pub size: u32,
}

impl View for RenderedExport {
    type V = RenderedExportModel;

    open spec fn view(&self) -> RenderedExportModel {
        RenderedExportModel { blob: self.blob@, rva: self.rva, size: self.size }
    }
}

/// What rendering gives: the table, or an error when part of it has no address.
pub open spec fn rendered_export(t: ExportTableModel, base: u32) -> Result<
    RenderedExportModel,
    PeErrorModel,
> {
    let p = export_plan(t);
    if p.all_addressable(base) {
        Ok(
            RenderedExportModel {
                blob: p.blob(base, t.base),
                rva: base,
                size: low(p.size()),
            },
        )
    } else {
        Err(PeErrorModel::InvalidArgument("export table too large"@))
    }
}

pub proof fn lemma_first_with(s: Seq<ExportSymbolModel>, o: u16)
    ensures
        first_with(s, o) matches Some(i) ==> 0 <= i < s.len() && s[i].ordinal == o && forall|j: int|
            0 <= j < i ==> s[j].ordinal != o,
        first_with(s, o) is None ==> forall|j: int| 0 <= j < s.len() ==> s[j].ordinal != o,
    decreases s.len(),
{
    if s.len() > 0 {
        lemma_first_with(s.drop_last(), o);
        assert forall|j: int| 0 <= j < s.len() - 1 implies s.drop_last()[j] == s[j] by {}
    }
}

pub proof fn lemma_first_forwarded(s: Seq<ExportSymbolModel>, o: u16)
    ensures
        first_forwarded(s, o) matches Some(i) ==> 0 <= i < s.len() && s[i].ordinal == o
            && s[i].forwarder is Some && forall|j: int|
            0 <= j < i && s[j].ordinal == o ==> s[j].forwarder is None,
        first_forwarded(s, o) is None ==> forall|j: int|
            0 <= j < s.len() && s[j].ordinal == o ==> s[j].forwarder is None,
    decreases s.len(),
{
    if s.len() > 0 {
        lemma_first_forwarded(s.drop_last(), o);
        assert forall|j: int| 0 <= j < s.len() - 1 implies s.drop_last()[j] == s[j] by {}
    }
}

/// Every named symbol is in the list of named symbols, and nothing else is.
pub proof fn lemma_named(s: Seq<ExportSymbolModel>)
    ensures
        named_of(s).len() <= s.len(),
        forall|i: int|
            0 <= i < s.len() && s[i].name is Some ==> exists|j: int|
                0 <= j < named_of(s).len() && #[trigger] named_of(s)[j] == #[trigger] s[i],
        forall|j: int| 0 <= j < named_of(s).len() ==> (#[trigger] named_of(s)[j]).name is Some,
    decreases s.len(),
{
    if s.len() > 0 {
        let d = s.drop_last();
        lemma_named(d);
        assert forall|i: int| 0 <= i < s.len() && s[i].name is Some implies exists|j: int|
            0 <= j < named_of(s).len() && #[trigger] named_of(s)[j] == #[trigger] s[i] by {
            if i < s.len() - 1 {
                assert(d[i] == s[i]);
                let j = choose|j: int|
                    0 <= j < named_of(d).len() && #[trigger] named_of(d)[j] == d[i];
                assert(named_of(s)[j] == s[i]);
            } else {
                assert(named_of(s)[named_of(s).len() - 1] == s[i]);
            }
        }
    }
}

pub proof fn lemma_names_len(s: Seq<ExportSymbolModel>, i: int)
    requires
        0 <= i < s.len(),
    ensures
        names_len(s.take(i)) + text_bytes(s[i].name).len() + 1 == names_len(s.take(i + 1)),
        names_len(s.take(i + 1)) <= names_len(s),
    decreases s.len(),
{
    assert(s.take(i + 1).drop_last() =~= s.take(i));
    if i == s.len() - 1 {
        assert(s.take(i + 1) =~= s);
    } else {
        lemma_names_len(s.drop_last(), i);
        assert(s.drop_last().take(i + 1) =~= s.take(i + 1));
    }
}

pub proof fn lemma_names_len_mono(s: Seq<ExportSymbolModel>, i: int, j: int)
    requires
        0 <= i <= j <= s.len(),
    ensures
        names_len(s.take(i)) <= names_len(s.take(j)),
    decreases j - i,
{
    if i < j {
        lemma_names_len(s, i);
        lemma_names_len_mono(s, i + 1, j);
    }
}

pub proof fn lemma_forwarders_len(s: Seq<ExportSymbolModel>, i: int)
    requires
        0 <= i < s.len(),
    ensures
        forwarders_len(s.take(i)) + (if s[i].forwarder is Some {
            text_bytes(s[i].forwarder).len() + 1
        } else {
            0
        }) == forwarders_len(s.take(i + 1)),
        forwarders_len(s.take(i + 1)) <= forwarders_len(s),
    decreases s.len(),
{
    assert(s.take(i + 1).drop_last() =~= s.take(i));
    if i == s.len() - 1 {
        assert(s.take(i + 1) =~= s);
    } else {
        lemma_forwarders_len(s.drop_last(), i);
        assert(s.drop_last().take(i + 1) =~= s.take(i + 1));
    }
}

pub proof fn lemma_forwarders_len_mono(s: Seq<ExportSymbolModel>, i: int, j: int)
    requires
        0 <= i <= j <= s.len(),
    ensures
        forwarders_len(s.take(i)) <= forwarders_len(s.take(j)),
    decreases j - i,
{
    if i < j {
        lemma_forwarders_len(s, i);
        lemma_forwarders_len_mono(s, i + 1, j);
    }
}

/// The places that the symbol in `slot` is written to lie inside the table.
pub proof fn lemma_slot_bounds(p: ExportPlan, slot: int)
    requires
        0 <= slot < p.syms.len(),
        p.named == named_of(p.syms),
        forwarders_agree(p.syms),
    ensures
        p.syms[slot].name is Some ==> ({
            let i = first_with(p.named, p.syms[slot].ordinal);
            &&& i is Some
            &&& 0 <= i->0 < p.named.len()
            &&& p.name_off(i->0) + text_bytes(p.syms[slot].name).len() < p.size()
        }),
        first_forwarded(p.syms, p.syms[slot].ordinal) matches Some(j) ==> 0 <= j <= slot
            && p.syms[slot].forwarder is Some && p.forwarder_off(j) + text_bytes(
            p.syms[slot].forwarder,
        ).len() < p.size(),
{
    let s = p.syms[slot];
    lemma_named(p.syms);
    lemma_first_with(p.named, s.ordinal);
    lemma_first_forwarded(p.syms, s.ordinal);
    if s.name is Some {
        let j = choose|j: int| 0 <= j < p.named.len() && #[trigger] p.named[j] == s;
        let i = first_with(p.named, s.ordinal)->0;
        assert(p.named[j].ordinal == s.ordinal);
        assert(first_with(p.named, s.ordinal) is Some);
        lemma_names_len_mono(p.named, i, j);
        lemma_names_len(p.named, j);
    }
    if let Some(j) = first_forwarded(p.syms, s.ordinal) {
        assert(p.syms[j].ordinal == s.ordinal && p.syms[j].forwarder is Some);
        assert(s.forwarder is Some);
        lemma_forwarders_len_mono(p.syms, j, slot);
        lemma_forwarders_len(p.syms, slot);
    }
}

/// The symbols in ordinal order.
fn sort_symbols(symbols: &[ExportSymbol]) -> (r: Vec<ExportSymbol>)
    ensures
        views(r@) == stable_sort(views(symbols@)),
{
    let mut r: Vec<ExportSymbol> = Vec::new();
    let mut i: usize = 0;
    let ghost all = views(symbols@);
    assert(all.take(0) =~= Seq::empty());
    assert(views(r@) =~= stable_sort(all.take(0)));
    while i < symbols.len()
        invariant
            i <= symbols.len(),
            all == views(symbols@),
            views(r@) == stable_sort(all.take(i as int)),
        decreases symbols.len() - i,
    {
        let s = symbols[i].clone();
        let o: u16 = s.ordinal;
        let mut p: usize = r.len();
        while p > 0 && r[p - 1].ordinal > o
            invariant
                p <= r.len(),
                forall|j: int| p <= j < r.len() ==> (o as int) < #[trigger] views(r@)[j].key(),
            decreases p,
        {
            p = p - 1;
        }
        proof {
            let t = views(r@);
            if p > 0 {
                assert(t[p - 1].key() <= o as int);
            }
            lemma_insert_point_is(t, o as int, p as int);
            assert(views(r@.insert(p as int, s)) =~= t.insert(p as int, s@));
            assert(all.take(i + 1).drop_last() =~= all.take(i as int));
            assert(all.take(i + 1).last() == s@);
        }
        r.insert(p, s);
        i = i + 1;
    }
    assert(all.take(symbols.len() as int) =~= all);
    r
}

/// The named ones among `syms`.
fn pick_named(syms: &[ExportSymbol]) -> (r: Vec<ExportSymbol>)
    ensures
        views(r@) == named_of(views(syms@)),
{
    let mut r: Vec<ExportSymbol> = Vec::new();
    let mut i: usize = 0;
    let ghost all = views(syms@);
    assert(all.take(0) =~= Seq::empty());
    assert(views(r@) =~= named_of(all.take(0)));
    while i < syms.len()
        invariant
            i <= syms.len(),
            all == views(syms@),
            views(r@) == named_of(all.take(i as int)),
        decreases syms.len() - i,
    {
        proof {
            assert(all.take(i + 1).drop_last() =~= all.take(i as int));
            assert(all.take(i + 1).last() == syms@[i as int]@);
        }
        if syms[i].name.is_some() {
            let s = syms[i].clone();
            proof {
                lemma_views_push(r@, s);
            }
            r.push(s);
        }
        i = i + 1;
    }
    assert(all.take(syms.len() as int) =~= all);
    r
}

/// The position of the first symbol with the ordinal `o`.
fn find_ordinal(s: &[ExportSymbol], o: u16) -> (r: Option<usize>)
    ensures
        match r {
            Some(i) => first_with(views(s@), o) == Some(i as int) && i < s@.len(),
            None => first_with(views(s@), o) is None,
        },
{
    let mut i: usize = 0;
    proof {
        lemma_first_with(views(s@), o);
    }
    while i < s.len()
        invariant
            i <= s.len(),
            forall|j: int| 0 <= j < i ==> views(s@)[j].ordinal != o,
        decreases s.len() - i,
    {
        if s[i].ordinal == o {
            proof {
                lemma_first_with(views(s@), o);
                assert(views(s@)[i as int].ordinal == o);
            }
            return Some(i);
        }
        i = i + 1;
    }
    None
}

/// The position of the first forwarded symbol with the ordinal `o`.
fn find_forwarded(s: &[ExportSymbol], o: u16) -> (r: Option<usize>)
    ensures
        match r {
            Some(i) => first_forwarded(views(s@), o) == Some(i as int) && i < s@.len(),
            None => first_forwarded(views(s@), o) is None,
        },
{
    let mut i: usize = 0;
    proof {
        lemma_first_forwarded(views(s@), o);
    }
    while i < s.len()
        invariant
            i <= s.len(),
            forall|j: int|
                0 <= j < i && views(s@)[j].ordinal == o ==> views(s@)[j].forwarder is None,
        decreases s.len() - i,
    {
        if s[i].ordinal == o && s[i].forwarder.is_some() {
            proof {
                lemma_first_forwarded(views(s@), o);
                assert(views(s@)[i as int].ordinal == o);
                assert(views(s@)[i as int].forwarder is Some);
            }
            return Some(i);
        }
        i = i + 1;
    }
    None
}

/// Append `n` zeros.
fn push_zeros(out: &mut Vec<u8>, n: usize)
    ensures
        final(out)@ == old(out)@ + zeros(n as nat),
{
    let mut i: usize = 0;
    assert(out@ =~= old(out)@ + zeros(0));
    while i < n
        invariant
            i <= n,
            out@ == old(out)@ + zeros(i as nat),
        decreases n - i,
    {
        out.push(0);
        i = i + 1;
        assert(out@ =~= old(out)@ + zeros(i as nat));
    }
}

/// The bytes of an optional text.
fn opt_bytes(o: &Option<String>) -> (r: &[u8])
    ensures
        r@ == text_bytes(crate::domain::export::opt_text(*o)),
{
    match o {
        Some(s) => s.as_str().as_bytes(),
        None => &[],
    }
}

/// The offsets of everything in the table, and an all-zero table.
struct ExportOffsets {
    names_tab: usize,
    ordinals_tab: usize,
    module_off: usize,
    name_offs: Vec<usize>,
    forwarder_offs: Vec<usize>,
    blob: Vec<u8>,
}

/// The offsets are those of the plan.
closed spec fn offsets_ok(o: ExportOffsets, p: ExportPlan) -> bool {
    &&& o.names_tab == p.names_tab()
    &&& o.ordinals_tab == p.ordinals_tab()
    &&& o.module_off == p.module_off()
    &&& o.name_offs@.len() == p.named.len()
    &&& forall|i: int| 0 <= i < p.named.len() ==> #[trigger] o.name_offs@[i] == p.name_off(i)
    &&& o.forwarder_offs@.len() == p.syms.len()
    &&& forall|i: int|
        0 <= i < p.syms.len() ==> #[trigger] o.forwarder_offs@[i] == p.forwarder_off(i)
}

fn plan_offsets(exports: &ExportTable, syms: &[ExportSymbol], named: &[ExportSymbol]) -> (r:
    ExportOffsets)
    requires
        views(syms@) == export_plan(exports@).syms,
        views(named@) == export_plan(exports@).named,
    ensures
        offsets_ok(r, export_plan(exports@)),
        r.blob@ == zeros(export_plan(exports@).size()),
{
    let ghost p = export_plan(exports@);
    let mut blob: Vec<u8> = Vec::new();
    push_zeros(&mut blob, 40);
    let mut i: usize = 0;
    while i < syms.len()
        invariant
            i <= syms.len(),
            blob@ == zeros((40 + 4 * i) as nat),
        decreases syms.len() - i,
    {
        push_zeros(&mut blob, 4);
        i = i + 1;
        assert(blob@ =~= zeros((40 + 4 * i) as nat));
    }
    let names_tab: usize = blob.len();
    i = 0;
    while i < named.len()
        invariant
            i <= named.len(),
            blob@ == zeros((names_tab + 4 * i) as nat),
        decreases named.len() - i,
    {
        push_zeros(&mut blob, 4);
        i = i + 1;
        assert(blob@ =~= zeros((names_tab + 4 * i) as nat));
    }
    let ordinals_tab: usize = blob.len();
    i = 0;
    while i < named.len()
        invariant
            i <= named.len(),
            blob@ == zeros((ordinals_tab + 2 * i) as nat),
        decreases named.len() - i,
    {
        push_zeros(&mut blob, 2);
        i = i + 1;
        assert(blob@ =~= zeros((ordinals_tab + 2 * i) as nat));
    }
    let module_off: usize = blob.len();
    push_zeros(&mut blob, opt_bytes(&exports.module_name).len());
    blob.push(0);
    assert(blob@ =~= zeros(p.module_off() + p.module.len() + 1));
    let mut name_offs: Vec<usize> = Vec::new();
    i = 0;
    assert(p.named.take(0) =~= Seq::empty());
    while i < named.len()
        invariant
            i <= named.len(),
            p.named == views(named@),
            name_offs@.len() == i,
            forall|j: int| 0 <= j < i ==> #[trigger] name_offs@[j] == p.name_off(j),
            blob@ == zeros(p.name_off(i as int)),
        decreases named.len() - i,
    {
        name_offs.push(blob.len());
        proof {
            lemma_names_len(p.named, i as int);
            assert(p.named[i as int] == named@[i as int]@);
        }
        push_zeros(&mut blob, opt_bytes(&named[i].name).len());
        blob.push(0);
        i = i + 1;
        assert(blob@ =~= zeros(p.name_off(i as int)));
    }
    assert(p.named.take(named.len() as int) =~= p.named);
    let mut forwarder_offs: Vec<usize> = Vec::new();
    i = 0;
    assert(p.syms.take(0) =~= Seq::empty());
    while i < syms.len()
        invariant
            i <= syms.len(),
            p.syms == views(syms@),
            forwarder_offs@.len() == i,
            forall|j: int| 0 <= j < i ==> #[trigger] forwarder_offs@[j] == p.forwarder_off(j),
            blob@ == zeros(p.forwarder_off(i as int)),
        decreases syms.len() - i,
    {
        forwarder_offs.push(blob.len());
        proof {
            lemma_forwarders_len(p.syms, i as int);
            assert(p.syms[i as int] == syms@[i as int]@);
        }
        if syms[i].forwarder.is_some() {
            push_zeros(&mut blob, opt_bytes(&syms[i].forwarder).len());
            blob.push(0);
        }
        i = i + 1;
        assert(blob@ =~= zeros(p.forwarder_off(i as int)));
    }
    assert(p.syms.take(syms.len() as int) =~= p.syms);
    ExportOffsets { names_tab, ordinals_tab, module_off, name_offs, forwarder_offs, blob }
}

/// `base + off` as an address, if it has one.
fn address_of(base: u32, off: usize) -> (r: Option<u32>)
    ensures
        match r {
            Some(v) => addressable(base, off as nat) && v == address(base, off as nat),
            None => !addressable(base, off as nat),
        },
{
    base.checked_add(low32(off as u128))
}

/// Overwrite the `w` bytes at `off` with the number `v`.
fn put_le(b: &mut Vec<u8>, off: usize, w: usize, v: u64)
    requires
        w <= 8,
        off + w <= old(b).len(),
    ensures
        final(b)@ == splice(old(b)@, off as int, le_bytes(w as nat, v as nat)),
        final(b)@.len() == old(b)@.len(),
{
    let mut x: Vec<u8> = Vec::new();
    push_le(&mut x, w, v);
    proof {
        lemma_le_bytes_len(w as nat, v as nat);
        assert(x@ =~= le_bytes(w as nat, v as nat));
    }
    patch(b, off, &x);
}

/// Write the symbol in `slot` into the table. `false` when something it refers
/// to has no address.
fn write_slot(
    exports: &ExportTable,
    syms: &[ExportSymbol],
    named: &[ExportSymbol],
    o: &mut ExportOffsets,
    base: u32,
    slot: usize,
) -> (r: bool)
    requires
        slot < syms@.len(),
        views(syms@) == export_plan(exports@).syms,
        views(named@) == export_plan(exports@).named,
        forwarders_agree(export_plan(exports@).syms),
        offsets_ok(*old(o), export_plan(exports@)),
        old(o).blob@.len() == export_plan(exports@).size(),
    ensures
        offsets_ok(*final(o), export_plan(exports@)),
        final(o).blob@.len() == export_plan(exports@).size(),
        r == export_plan(exports@).slot_addressable(base, slot as int),
        r ==> final(o).blob@ == export_plan(exports@).with_slot(
            old(o).blob@,
            base,
            slot as int,
        ),
{
    let ghost p = export_plan(exports@);
    let s: &ExportSymbol = &syms[slot];
    proof {
        assert(p.syms[slot as int] == s@);
        lemma_slot_bounds(p, slot as int);
        lemma_named(p.syms);
    }
    let forwarded = find_forwarded(syms, s.ordinal);
    let value: u32 = match forwarded {
        Some(j) => match address_of(base, o.forwarder_offs[j]) {
            Some(v) => v,
            None => {
                return false;
            },
        },
        None => s.rva.get(),
    };
    put_le(&mut o.blob, 40 + 4 * slot, 4, value as u64);
    if let Some(name) = &s.name {
        let i: usize = match find_ordinal(named, s.ordinal) {
            Some(i) => i,
            None => 0,
        };
        let at: u32 = match address_of(base, o.name_offs[i]) {
            Some(v) => v,
            None => {
                return false;
            },
        };
        put_le(&mut o.blob, o.names_tab + 4 * i, 4, at as u64);
        put_le(&mut o.blob, o.ordinals_tab + 2 * i, 2, slot as u64);
        patch(&mut o.blob, o.name_offs[i], name.as_str().as_bytes());
    }
    match forwarded {
        Some(j) => {
            patch(&mut o.blob, o.forwarder_offs[j], opt_bytes(&s.forwarder));
        },
        None => {},
    }
    true
}

/// Render `exports` into a blob based at `base_rva`. Symbols are sorted by
/// ordinal and assumed contiguous (`base..base + symbols.len()`).
pub fn render_export_table(exports: &ExportTable, base_rva: Rva) -> (r: PeResult<RenderedExport>)
    requires
        forwarders_agree(exports@.symbols),
    ensures
        result_view(r) == rendered_export(exports@, base_rva.0),
{
    let base: u32 = base_rva.get();
    let syms = sort_symbols(&exports.symbols);
    let named = pick_named(&syms);
    let ghost p = export_plan(exports@);
    proof {
        lemma_sort_keeps_agreement(exports@.symbols);
    }
    let mut o = plan_offsets(exports, &syms, &named);
    let a_module = address_of(base, o.module_off);
    let a_funcs = address_of(base, 40);
    let a_names = address_of(base, o.names_tab);
    let a_ordinals = address_of(base, o.ordinals_tab);
    if a_module.is_none() || a_funcs.is_none() || a_names.is_none() || a_ordinals.is_none() {
        return Err(invalid_argument("export table too large"));
    }
    let vals: [u64; 11] = [
        0,
        0,
        0,
        0,
        a_module.unwrap() as u64,
        exports.base as u64,
        low32(syms.len() as u128) as u64,
        low32(named.len() as u128) as u64,
        a_funcs.unwrap() as u64,
        a_names.unwrap() as u64,
        a_ordinals.unwrap() as u64,
    ];
    proof {
        assert(vals@ =~= p.header(base, exports.base));
        lemma_export_size();
        lemma_encode_len(export_fields(), vals@);
    }
    let mut head: Vec<u8> = Vec::new();
    push_fields(&mut head, &export_layout(), &vals);
    patch(&mut o.blob, 0, &head);
    proof {
        assert(o.blob@ =~= encode_fields(export_fields(), p.header(base, exports.base)) + zeros(
            (p.size() - 40) as nat,
        ));
    }
    patch(&mut o.blob, o.module_off, opt_bytes(&exports.module_name));
    let ghost start = o.blob@;
    let mut slot: usize = 0;
    while slot < syms.len()
        invariant
            slot <= syms.len(),
            p == export_plan(exports@),
            views(syms@) == p.syms,
            views(named@) == p.named,
            forwarders_agree(p.syms),
            offsets_ok(o, p),
            o.blob@.len() == p.size(),
            o.blob@ == p.with_slots(start, base, slot as nat),
            forall|j: int| 0 <= j < slot ==> #[trigger] p.slot_addressable(base, j),
            base == base_rva.0,
        decreases syms.len() - slot,
    {
        if !write_slot(exports, &syms, &named, &mut o, base, slot) {
            return Err(invalid_argument("export table too large"));
        }
        slot = slot + 1;
    }
    let size: u32 = low32(o.blob.len() as u128);
    Ok(RenderedExport { blob: o.blob, rva: base, size })
}

/// Sorting does not change which symbols there are, so it keeps the agreement
/// on forwarders.
pub proof fn lemma_sort_keeps_agreement(s: Seq<ExportSymbolModel>)
    requires
        forwarders_agree(s),
    ensures
        forwarders_agree(stable_sort(s)),
{
    stable_sort_sorts(s);
    let t = stable_sort(s);
    assert forall|i: int, j: int|
        #![trigger t[i], t[j]]
        0 <= i < t.len() && 0 <= j < t.len() && t[i].ordinal == t[j].ordinal
            && t[j].forwarder is Some implies t[i].forwarder is Some by {
        s.to_multiset_ensures();
        t.to_multiset_ensures();
        assert(t.contains(t[i]) && t.contains(t[j]));
        assert(s.to_multiset().count(t[i]) > 0);
        assert(s.to_multiset().count(t[j]) > 0);
        let a = choose|a: int| 0 <= a < s.len() && s[a] == t[i];
        let b = choose|b: int| 0 <= b < s.len() && s[b] == t[j];
        assert(s[a].ordinal == s[b].ordinal);
    }
}

} // verus!
