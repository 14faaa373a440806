//! Import Address Table (IAT) scanning and fixing types.

use crate::bytes::{le_value, low, low32, read_le};
use crate::domain::document::{image_read, read_error, PeDocument};
use crate::domain::import::ImportDescriptor;
use crate::domain::section::SectionModel;
use crate::domain::types::{pointer_size, ptr_size, Rva};
use crate::error::{invalid_argument, PeErrorModel, PeResult};
use crate::sorting::{
    lemma_insert_point_is, lemma_none_kept, sorted, stable_sort, stable_sort_keeps_equals_in_order,
    stable_sort_sorts, Keyed,
};
use vstd::prelude::*;

verus! {

/// One slot of an IAT: its location and the target address stored there.
#[derive(Debug, Clone, Copy, PartialEq, Eq, Structural)]
pub struct IatEntry {
    /// RVA of the thunk slot within the image.
    pub rva: Rva,
    /// Value stored at the slot: usually an absolute API address.
    pub value: u64,
}

impl Keyed for IatEntry {
    open spec fn key(&self) -> int {
        self.rva.0 as int
    }
}

/// The result of scanning for an IAT. For the [`ScanMethod::Resolver`] scan
/// this is one contiguous run; for [`ScanMethod::CodeReference`] it is the
/// full referenced-slot set (possibly spanning several segments).
#[derive(Debug, PartialEq, Eq)]
pub struct IatScan {
    /// RVA of the first entry.
    pub base_rva: Rva,
    /// Number of entries in `entries`.
    pub size: usize,
    pub entries: Vec<IatEntry>,
}

/// A scan result as mathematical values.
#[verifier::ext_equal]
pub struct IatScanModel {
    pub base_rva: Rva,
    pub size: nat,
    pub entries: Seq<IatEntry>,
}

impl View for IatScan {
    type V = IatScanModel;

    open spec fn view(&self) -> IatScanModel {
        IatScanModel {
            base_rva: self.base_rva,
            size: self.size as nat,
            entries: self.entries@,
        }
    }
}

impl Clone for IatScan {
    fn clone(&self) -> (r: IatScan)
        ensures
            r@ == self@,
    {
        IatScan {
            base_rva: self.base_rva,
            size: self.size,
            entries: clone_entries(&self.entries),
        }
    }
}

/// A copy of a list of entries.
pub fn clone_entries(entries: &[IatEntry]) -> (r: Vec<IatEntry>)
    ensures
        r@ == entries@,
{
    let mut r: Vec<IatEntry> = Vec::new();
    let mut i: usize = 0;
    while i < entries.len()
        invariant
            i <= entries.len(),
            r@ == entries@.take(i as int),
        decreases entries.len() - i,
    {
        r.push(entries[i]);
        i = i + 1;
        assert(r@ =~= entries@.take(i as int));
    }
    assert(r@ =~= entries@);
    r
}

/// The entries in address order; entries at the same address keep their order.
pub fn sort_entries(entries: &[IatEntry]) -> (r: Vec<IatEntry>)
    ensures
        r@ == stable_sort(entries@),
{
    let mut r: Vec<IatEntry> = Vec::new();
    let mut i: usize = 0;
    let ghost all = entries@;
    assert(all.take(0) =~= Seq::empty());
    assert(r@ =~= stable_sort(all.take(0)));
    while i < entries.len()
        invariant
            i <= entries.len(),
            all == entries@,
            r@ == stable_sort(all.take(i as int)),
        decreases entries.len() - i,
    {
        let e: IatEntry = entries[i];
        let mut p: usize = r.len();
        while p > 0 && r[p - 1].rva.get() > e.rva.get()
            invariant
                p <= r.len(),
                forall|j: int| p <= j < r.len() ==> e.key() < #[trigger] r@[j].key(),
            decreases p,
        {
            p = p - 1;
        }
        proof {
            if p > 0 {
                assert(r@[p - 1].key() <= e.key());
            }
            lemma_insert_point_is(r@, e.key(), p as int);
            assert(all.take(i + 1).drop_last() =~= all.take(i as int));
            assert(all.take(i + 1).last() == e);
        }
        r.insert(p, e);
        i = i + 1;
    }
    assert(all.take(entries.len() as int) =~= all);
    r
}

/// A sequence with every entry dropped whose address is that of the entry kept
/// before it.
pub open spec fn deduped(s: Seq<IatEntry>) -> Seq<IatEntry>
    decreases s.len(),
{
    if s.len() <= 1 {
        s
    } else {
        let d = deduped(s.drop_last());
        if d.last().rva == s.last().rva {
            d
        } else {
            d.push(s.last())
        }
    }
}

/// Whether some entry is at the address `rva`.
pub open spec fn has_rva(s: Seq<IatEntry>, rva: Rva) -> bool {
    exists|j: int| 0 <= j < s.len() && (#[trigger] s[j]).rva == rva
}

/// Addresses rise strictly.
pub open spec fn strictly_rising(s: Seq<IatEntry>) -> bool {
    forall|i: int, j: int| 0 <= i < j < s.len() ==> s[i].rva.0 < s[j].rva.0
}

proof fn lemma_sorted_prefix(s: Seq<IatEntry>)
    requires
        sorted(s),
        s.len() > 0,
    ensures
        sorted(s.drop_last()),
{
    let t = s.drop_last();
    assert forall|i: int, j: int| 0 <= i <= j < t.len() implies t[i].key() <= t[j].key() by {
        assert(s[i].key() <= s[j].key());
    }
}

proof fn lemma_deduped_rising(s: Seq<IatEntry>)
    requires
        sorted(s),
    ensures
        s.len() > 0 ==> deduped(s).len() > 0 && deduped(s).last().rva == s.last().rva,
        strictly_rising(deduped(s)),
    decreases s.len(),
{
    let n = s.len();
    if n > 1 {
        let t = s.drop_last();
        lemma_sorted_prefix(s);
        lemma_deduped_rising(t);
        let d = deduped(t);
        let r = deduped(s);
        assert(t.last() == s[n - 2]);
        assert(s[n - 2].key() <= s[n - 1].key());
        if d.last().rva != s.last().rva {
            assert forall|i: int, j: int| 0 <= i < j < r.len() implies r[i].rva.0 < r[j].rva.0 by {
                if j < d.len() {
                    assert(d[i].rva.0 < d[j].rva.0);
                } else if i < d.len() - 1 {
                    assert(d[i].rva.0 < d[d.len() - 1].rva.0);
                }
            }
        }
    }
}

proof fn lemma_deduped_member(s: Seq<IatEntry>, i: int)
    requires
        0 <= i < deduped(s).len(),
    ensures
        s.contains(deduped(s)[i]),
    decreases s.len(),
{
    let n = s.len();
    if n == 1 {
        assert(s[0] == deduped(s)[0]);
    } else if n > 1 {
        let t = s.drop_last();
        let d = deduped(t);
        if i < d.len() {
            lemma_deduped_member(t, i);
            let k = choose|k: int| 0 <= k < t.len() && t[k] == d[i];
            assert(s[k] == deduped(s)[i]);
        } else {
            assert(s[n - 1] == deduped(s)[i]);
        }
    }
}

proof fn lemma_deduped_covers(s: Seq<IatEntry>, i: int)
    requires
        0 <= i < s.len(),
    ensures
        deduped(s).len() > 0,
        has_rva(deduped(s), s[i].rva),
    decreases s.len(),
{
    let n = s.len();
    let r = deduped(s);
    if n == 1 {
        assert(r[0].rva == s[i].rva);
    } else {
        let t = s.drop_last();
        let d = deduped(t);
        if i < n - 1 {
            lemma_deduped_covers(t, i);
            let j = choose|j: int| 0 <= j < d.len() && (#[trigger] d[j]).rva == t[i].rva;
            assert(r[j].rva == s[i].rva);
        } else {
            lemma_deduped_covers(t, 0);
            assert(r[r.len() - 1].rva == s[i].rva);
        }
    }
}

/// The entries of a table in address order, one for each address, as a scan.
pub open spec fn scan_of(entries: Seq<IatEntry>) -> IatScanModel {
    let e = deduped(stable_sort(entries));
    IatScanModel {
        base_rva: if e.len() > 0 {
            e[0].rva
        } else {
            Rva(0)
        },
        size: e.len(),
        entries: e,
    }
}

/// A curated table becomes a scan whose addresses rise strictly and are those
/// of the table.
pub proof fn scan_is_strictly_sorted(entries: Seq<IatEntry>)
    ensures
        strictly_rising(scan_of(entries).entries),
        forall|i: int|
            0 <= i < scan_of(entries).entries.len() ==> entries.contains(
                #[trigger] scan_of(entries).entries[i],
            ),
        forall|i: int|
            0 <= i < entries.len() ==> has_rva(
                scan_of(entries).entries,
                (#[trigger] entries[i]).rva,
            ),
{
    let s = stable_sort(entries);
    stable_sort_sorts(entries);
    lemma_deduped_rising(s);
    entries.to_multiset_ensures();
    s.to_multiset_ensures();
    let r = scan_of(entries).entries;
    assert forall|i: int| 0 <= i < r.len() implies entries.contains(#[trigger] r[i]) by {
        lemma_deduped_member(s, i);
        assert(s.to_multiset().count(r[i]) > 0);
    }
    assert forall|i: int| 0 <= i < entries.len() implies has_rva(r, (#[trigger] entries[i]).rva) by {
        assert(entries.contains(entries[i]));
        assert(entries.to_multiset().count(entries[i]) > 0);
        assert(s.contains(entries[i]));
        let k = choose|k: int| 0 <= k < s.len() && s[k] == entries[i];
        lemma_deduped_covers(s, k);
    }
}

/// In address order, the entry that is kept of an address is the first with it.
proof fn lemma_deduped_first(s: Seq<IatEntry>, rva: Rva)
    requires
        sorted(s),
        has_rva(s, rva),
    ensures
        s.filter(|x: IatEntry| x.key() == rva.0 as int).len() > 0,
        deduped(s).contains(s.filter(|x: IatEntry| x.key() == rva.0 as int)[0]),
    decreases s.len(),
{
    reveal(Seq::filter);
    let f = |x: IatEntry| x.key() == rva.0 as int;
    let n = s.len();
    let t = s.drop_last();
    let x = s.last();
    lemma_sorted_prefix(s);
    if has_rva(t, rva) {
        lemma_deduped_first(t, rva);
        let first = t.filter(f)[0];
        assert(s.filter(f)[0] == first);
        let d = deduped(t);
        let i = choose|i: int| 0 <= i < d.len() && d[i] == first;
        assert(deduped(s)[i] == first);
    } else {
        let j = choose|j: int| 0 <= j < s.len() && (#[trigger] s[j]).rva == rva;
        assert(j == n - 1) by {
            if j < n - 1 {
                assert(t[j].rva == rva);
            }
        }
        assert forall|q: int| 0 <= q < t.len() implies (#[trigger] t[q]).key() != rva.0 as int by {
            assert(t[q].rva != rva);
        }
        lemma_none_kept(t, rva.0 as int);
        assert(s.filter(f) =~= seq![x]);
        if n > 1 {
            let d = deduped(t);
            lemma_deduped_rising(t);
            assert(t.last() == s[n - 2]);
            assert(t[n - 2].rva != rva);
            assert(d.last().rva != x.rva);
            assert(deduped(s)[d.len() as int] == x);
        } else {
            assert(deduped(s)[0] == x);
        }
    }
}

/// Of several entries of a table at one address, the first becomes the scan's.
pub proof fn first_entry_of_an_address_counts(entries: Seq<IatEntry>, i: int)
    requires
        0 <= i < entries.len(),
        forall|j: int| 0 <= j < i ==> (#[trigger] entries[j]).rva != entries[i].rva,
    ensures
        scan_of(entries).entries.contains(entries[i]),
{
    let rva = entries[i].rva;
    let k = rva.0 as int;
    let s = stable_sort(entries);
    let f = |x: IatEntry| x.key() == k;
    stable_sort_sorts(entries);
    stable_sort_keeps_equals_in_order(entries, k);
    entries.to_multiset_ensures();
    s.to_multiset_ensures();
    assert(entries.contains(entries[i]));
    assert(s.to_multiset().count(entries[i]) > 0);
    assert(s.contains(entries[i]));
    let q = choose|q: int| 0 <= q < s.len() && s[q] == entries[i];
    assert(s[q].rva == rva);
    lemma_deduped_first(s, rva);
    lemma_first_kept(entries, i);
}

proof fn lemma_first_kept(s: Seq<IatEntry>, i: int)
    requires
        0 <= i < s.len(),
        forall|j: int| 0 <= j < i ==> (#[trigger] s[j]).rva != s[i].rva,
    ensures
        s.filter(|x: IatEntry| x.key() == s[i].rva.0 as int).len() > 0,
        s.filter(|x: IatEntry| x.key() == s[i].rva.0 as int)[0] == s[i],
    decreases s.len(),
{
    reveal(Seq::filter);
    let f = |x: IatEntry| x.key() == s[i].rva.0 as int;
    let t = s.drop_last();
    if i < t.len() {
        assert forall|j: int| 0 <= j < i implies (#[trigger] t[j]).rva != t[i].rva by {
            assert(s[j].rva != s[i].rva);
        }
        lemma_first_kept(t, i);
        assert(t[i] == s[i]);
    } else {
        let k = s[i].rva.0 as int;
        assert forall|q: int| 0 <= q < t.len() implies (#[trigger] t[q]).key() != k by {
            assert(s[q].rva != s[i].rva);
        }
        lemma_none_kept(t, k);
        assert(s.filter(f) =~= seq![s[i]]);
    }
}

/// A manually-constructed IAT: a mutable set of `(rva, value)` slots that may
/// come from several **non-contiguous** regions.
///
/// Protectors can erase and split the IAT across separate segments that the
/// automatic scan only partially recovers. Build a table from the automatic
/// scan and curate it: add missed regions with [`IatTable::add_region`], drop
/// false positives. [`IatTable::to_scan`] then gives a normal scan.
#[derive(Debug, PartialEq, Eq)]
pub struct IatTable {
    entries: Vec<IatEntry>,
}

impl View for IatTable {
    type V = Seq<IatEntry>;

    closed spec fn view(&self) -> Seq<IatEntry> {
        self.entries@
    }
}

impl Default for IatTable {
    fn default() -> (r: IatTable)
        ensures
            r@ == Seq::<IatEntry>::empty(),
    {
        IatTable { entries: Vec::new() }
    }
}

impl Clone for IatTable {
    fn clone(&self) -> (r: IatTable)
        ensures
            r@ == self@,
    {
        IatTable { entries: clone_entries(&self.entries) }
    }
}

/// The address of slot `k` of a region, if it has one.
pub open spec fn region_slot(rva: u32, ps: nat, k: nat) -> Option<u32> {
    if rva + low(k * ps) <= u32::MAX {
        Some((rva + low(k * ps)) as u32)
    } else {
        None
    }
}

/// The entry in slot `k` of a region, or why there is none.
pub open spec fn region_entry(
    sections: Seq<SectionModel>,
    rva: u32,
    ps: nat,
    k: nat,
) -> Result<IatEntry, PeErrorModel> {
    match region_slot(rva, ps, k) {
        None => Err(PeErrorModel::InvalidArgument("add_region: region RVA overflow"@)),
        Some(r) => match image_read(sections, r, ps) {
            None => Err(read_error(sections, r, ps)),
            Some(b) => Ok(IatEntry { rva: Rva(r), value: le_value(b) as u64 }),
        },
    }
}

/// The entries of the first `n` slots of a region, up to the first that cannot
/// be read.
pub open spec fn region_entries(
    sections: Seq<SectionModel>,
    rva: u32,
    ps: nat,
    n: nat,
) -> Seq<IatEntry>
    decreases n,
{
    if n == 0 {
        Seq::empty()
    } else {
        let before = region_entries(sections, rva, ps, (n - 1) as nat);
        if before.len() == n - 1 && region_entry(sections, rva, ps, (n - 1) as nat) is Ok {
            before.push(region_entry(sections, rva, ps, (n - 1) as nat)->Ok_0)
        } else {
            before
        }
    }
}

proof fn lemma_region_stuck(sections: Seq<SectionModel>, rva: u32, ps: nat, k: nat, n: nat)
    requires
        k < n,
        region_entries(sections, rva, ps, k).len() == k,
        region_entry(sections, rva, ps, k) is Err,
    ensures
        region_entries(sections, rva, ps, n) == region_entries(sections, rva, ps, k),
    decreases n,
{
    if k + 1 < n {
        lemma_region_stuck(sections, rva, ps, k, (n - 1) as nat);
    }
}

/// How many slots a region of `size` bytes has.
pub open spec fn slot_count(size: nat, ps: nat) -> nat {
    if ps == 0 {
        0
    } else {
        ((size + ps - 1) / ps as int) as nat
    }
}

impl IatTable {
    pub fn new() -> (r: Self)
        ensures
            r@ == Seq::<IatEntry>::empty(),
    {
        IatTable { entries: Vec::new() }
    }

    /// Start from an automatic scan so it can be curated.
    pub fn from_scan(scan: &IatScan) -> (r: Self)
        ensures
            r@ == scan@.entries,
    {
        IatTable { entries: clone_entries(&scan.entries) }
    }

    pub fn from_entries(entries: Vec<IatEntry>) -> (r: Self)
        ensures
            r@ == entries@,
    {
        IatTable { entries }
    }

    /// Append every slot in `[rva, rva + size)` (size in bytes), reading one
    /// pointer per slot from the document. Lets you add IAT regions the
    /// automatic scan missed. The slots before one that cannot be read stay
    /// appended.
    pub fn add_region(&mut self, doc: &PeDocument, rva: Rva, size: usize) -> (r: PeResult<()>)
        ensures
            ({
                let ps = pointer_size(doc@.arch);
                let n = slot_count(size as nat, ps);
                let e = region_entries(doc@.sections, rva.0, ps, n);
                &&& final(self)@ == old(self)@ + e
                &&& r is Ok <==> e.len() == n
                &&& r matches Err(x) ==> {
                    let failed = region_entry(doc@.sections, rva.0, ps, e.len());
                    failed is Err && failed->Err_0 == x@
                }
            }),
    {
        let psize: usize = ptr_size(doc.arch);
        let ghost ps = psize as nat;
        let ghost secs = doc@.sections;
        let ghost start = self@;
        let n: usize = size / psize + if size % psize != 0 {
            1
        } else {
            0
        };
        assert(n == slot_count(size as nat, ps)) by {
            if psize == 8 {
                assert((size + 7) / 8 == size / 8 + if size % 8 != 0 {
                    1int
                } else {
                    0int
                });
            } else {
                assert((size + 3) / 4 == size / 4 + if size % 4 != 0 {
                    1int
                } else {
                    0int
                });
            }
        }
        let mut k: usize = 0;
        assert(self@ =~= start + region_entries(secs, rva.0, ps, 0));
        while k < n
            invariant
                k <= n,
                n == slot_count(size as nat, ps),
                ps == psize,
                psize == 4 || psize == 8,
                ps == pointer_size(doc@.arch),
                secs == doc@.sections,
                start == old(self)@,
                region_entries(secs, rva.0, ps, k as nat).len() == k,
                self@ == start + region_entries(secs, rva.0, ps, k as nat),
            decreases n - k,
        {
            let off: u32 = if psize == 8 {
                low32(k as u128 * 8)
            } else {
                low32(k as u128 * 4)
            };
            assert(off == low(k as nat * ps));
            let slot = match rva.checked_add(off) {
                Some(s) => s,
                None => {
                    proof {
                        lemma_region_stuck(secs, rva.0, ps, k as nat, n as nat);
                    }
                    return Err(invalid_argument("add_region: region RVA overflow"));
                },
            };
            let value: u64 = match doc.read(slot, psize) {
                Ok(b) => {
                    assert(b@.subrange(0, psize as int) =~= b@);
                    read_le(b, 0, psize)
                },
                Err(e) => {
                    proof {
                        lemma_region_stuck(secs, rva.0, ps, k as nat, n as nat);
                    }
                    return Err(e);
                },
            };
            let ghost before = self@;
            self.entries.push(IatEntry { rva: slot, value });
            k = k + 1;
            assert(self@ =~= start + region_entries(secs, rva.0, ps, k as nat));
        }
        Ok(())
    }

    pub fn add(&mut self, entry: IatEntry)
        ensures
            final(self)@ == old(self)@.push(entry),
    {
        self.entries.push(entry);
    }

    pub fn add_many(&mut self, entries: &[IatEntry])
        ensures
            final(self)@ == old(self)@ + entries@,
    {
        let mut more: Vec<IatEntry> = clone_entries(entries);
        self.entries.append(&mut more);
    }

    /// Remove the first entry at `rva`.
    pub fn remove(&mut self, rva: Rva)
        ensures
            match first_at(old(self)@, rva) {
                Some(i) => final(self)@ == old(self)@.remove(i),
                None => final(self)@ == old(self)@,
            },
    {
        let mut i: usize = 0;
        proof {
            lemma_first_at(self@, rva);
        }
        while i < self.entries.len()
            invariant
                i <= self.entries.len(),
                self@ == old(self)@,
                forall|j: int| 0 <= j < i ==> self@[j].rva != rva,
            decreases self.entries.len() - i,
        {
            if self.entries[i].rva == rva {
                proof {
                    lemma_first_at(self@, rva);
                }
                self.entries.remove(i);
                return;
            }
            i = i + 1;
        }
    }

    pub fn clear(&mut self)
        ensures
            final(self)@ == Seq::<IatEntry>::empty(),
    {
        self.entries.clear();
    }

    pub fn entries(&self) -> (r: &[IatEntry])
        ensures
            r@ == self@,
    {
        self.entries.as_slice()
    }

    pub fn len(&self) -> (r: usize)
        ensures
            r == self@.len(),
    {
        self.entries.len()
    }

    pub fn is_empty(&self) -> (r: bool)
        ensures
            r == (self@.len() == 0),
    {
        self.entries.is_empty()
    }

    /// The entries sorted by RVA with duplicates removed.
    pub fn to_scan(&self) -> (r: IatScan)
        ensures
            r@ == scan_of(self@),
    {
        let s = sort_entries(&self.entries);
        let mut out: Vec<IatEntry> = Vec::new();
        let mut i: usize = 0;
        proof {
            assert(s@.take(0) =~= Seq::empty());
        }
        while i < s.len()
            invariant
                i <= s.len(),
                out@ == deduped(s@.take(i as int)),
                i > 0 ==> out@.len() > 0,
            decreases s.len() - i,
        {
            proof {
                assert(s@.take(i + 1).drop_last() =~= s@.take(i as int));
                assert(s@.take(i + 1).last() == s@[i as int]);
                if i == 0 {
                    assert(s@.take(1) =~= out@.push(s@[0]));
                }
            }
            if i == 0 || out[out.len() - 1].rva != s[i].rva {
                out.push(s[i]);
            }
            i = i + 1;
        }
        assert(s@.take(s.len() as int) =~= s@);
        let base_rva = if out.len() > 0 {
            out[0].rva
        } else {
            Rva(0)
        };
        let size: usize = out.len();
        IatScan { base_rva, size, entries: out }
    }
}

/// The first entry at `rva`.
pub open spec fn first_at(s: Seq<IatEntry>, rva: Rva) -> Option<int>
    decreases s.len(),
{
    if s.len() == 0 {
        None
    } else {
        match first_at(s.drop_last(), rva) {
            Some(i) => Some(i),
            None => if s.last().rva == rva {
                Some(s.len() - 1)
            } else {
                None
            },
        }
    }
}

proof fn lemma_first_at(s: Seq<IatEntry>, rva: Rva)
    ensures
        first_at(s, rva) matches Some(i) ==> 0 <= i < s.len() && s[i].rva == rva && forall|j: int|
            0 <= j < i ==> s[j].rva != rva,
        first_at(s, rva) is None ==> forall|j: int| 0 <= j < s.len() ==> s[j].rva != rva,
    decreases s.len(),
{
    if s.len() > 0 {
        lemma_first_at(s.drop_last(), rva);
        assert forall|j: int| 0 <= j < s.len() - 1 implies s.drop_last()[j] == s[j] by {}
    }
}

/// How the IAT scanner locates candidate slots.
#[derive(Debug, Clone, Copy, PartialEq, Eq, Structural)]
pub enum ScanMethod {
    /// Keep slots whose stored value resolves via [`crate::api::resolver::ImportResolver`].
    Resolver,
    /// Disassemble the code sections and return every slot dereferenced by a
    /// direct memory operand (`call/jmp/mov/lea [rip+disp]` on x64, absolute
    /// addressing on x86) that lands in a data section.
    CodeReference,
    /// Reflect the IAT from the PE structure itself: collect the `FirstThunk`
    /// arrays of import descriptors whose `OriginalFirstThunk` is gone
    /// (`== 0` or `== FirstThunk`), or, when the import directory is absent
    /// but the IAT data directory remains, every entry of its NULL-separated
    /// per-module sub-arrays.
    Reflection,
}

impl Default for ScanMethod {
    fn default() -> (r: ScanMethod)
        ensures
            r == ScanMethod::Resolver,
    {
        ScanMethod::Resolver
    }
}

/// Options controlling a scan.
#[derive(Debug, Clone, Copy, PartialEq, Eq)]
pub struct ScanOptions {
    /// Restrict scanning to a `(rva, len)` window; `None` scans the whole image.
    pub region: Option<(Rva, usize)>,
    pub method: ScanMethod,
    /// Minimum number of consecutive valid entries a candidate must have.
    pub min_entries: usize,
    /// Resolver scan: maximum consecutive zero slots allowed inside a run (the
    /// per-module NULL separators of a real IAT). Larger gaps end the run.
    pub max_null_gap: usize,
    /// Code-reference scan: require each referenced slot's content to resolve
    /// through the resolver. Disable for protected dumps where the slot
    /// content does not resolve: the code references alone locate the IAT.
    pub validate_slots: bool,
}

impl Default for ScanOptions {
    fn default() -> (r: ScanOptions)
        ensures
            r.region is None,
            r.method == ScanMethod::Resolver,
            r.min_entries == 4,
            r.max_null_gap == 4,
            r.validate_slots,
    {
        ScanOptions {
            region: None,
            method: ScanMethod::Resolver,
            min_entries: 4,
            max_null_gap: 4,
            validate_slots: true,
        }
    }
}

/// Options controlling an IAT fix.
#[derive(Debug, Clone, Copy, PartialEq, Eq, Structural)]
pub struct IatFixOptions {
    /// Rewrite the original IAT slots in place so they point at the newly
    /// built thunks.
    pub redirect_iat: bool,
}

impl Default for IatFixOptions {
    fn default() -> (r: IatFixOptions)
        ensures
            r.redirect_iat,
    {
        IatFixOptions { redirect_iat: true }
    }
}

/// Outcome of an IAT fix operation.
#[derive(Debug, PartialEq, Eq)]
pub struct IatFixReport {
    /// Number of modules written into the new import table.
    pub imports_built: usize,
    /// Total number of IAT entries processed.
    pub total_entries: usize,
    /// Entries that could not be resolved to a module/function.
    pub unresolved: Vec<IatEntry>,
    /// RVA of the newly built import table, if any.
    pub new_import_rva: Option<Rva>,
    /// Size in bytes of the newly built import table.
    pub new_import_size: usize,
}

/// A fix report as mathematical values.
#[verifier::ext_equal]
pub struct IatFixReportModel {
    pub imports_built: usize,
    pub total_entries: usize,
    pub unresolved: Seq<IatEntry>,
    pub new_import_rva: Option<Rva>,
    pub new_import_size: usize,
}

impl View for IatFixReport {
    type V = IatFixReportModel;

    open spec fn view(&self) -> IatFixReportModel {
        IatFixReportModel {
            imports_built: self.imports_built,
            total_entries: self.total_entries,
            unresolved: self.unresolved@,
            new_import_rva: self.new_import_rva,
            new_import_size: self.new_import_size,
        }
    }
}

impl Default for IatFixReport {
    fn default() -> (r: IatFixReport)
        ensures
            r.imports_built == 0,
            r.total_entries == 0,
            r.unresolved@.len() == 0,
            r.new_import_rva is None,
            r.new_import_size == 0,
    {
        IatFixReport {
            imports_built: 0,
            total_entries: 0,
            unresolved: Vec::new(),
            new_import_rva: None,
            new_import_size: 0,
        }
    }
}

/// Outcome of rebuilding the physical import table.
#[derive(Debug, PartialEq, Eq)]
pub struct RebuiltImportTable {
    /// RVA of the new descriptor array.
    pub rva: Rva,
    /// Size in bytes of the new import table.
    pub size: u32,
    /// RVA of the first FirstThunk (IAT) array.
    pub iat_rva: Rva,
    /// Combined size in bytes of all FirstThunk arrays.
    pub iat_size: u32,
    /// New thunk value for each function, in descriptor order. This is the
    /// value that belongs in the (redirected) IAT slot for that function.
    pub thunk_values: Vec<u64>,
}

/// A rebuilt import table as mathematical values.
#[verifier::ext_equal]
pub struct RebuiltImportTableModel {
    pub rva: Rva,
    pub size: u32,
    pub iat_rva: Rva,
    pub iat_size: u32,
    pub thunk_values: Seq<u64>,
}

impl View for RebuiltImportTable {
    type V = RebuiltImportTableModel;

    open spec fn view(&self) -> RebuiltImportTableModel {
        RebuiltImportTableModel {
            rva: self.rva,
            size: self.size,
            iat_rva: self.iat_rva,
            iat_size: self.iat_size,
            thunk_values: self.thunk_values@,
        }
    }
}

/// Outcome of recovering a dumped process's import table.
#[derive(Debug, PartialEq, Eq)]
pub struct DumpImportRecovery {
    /// Recovered imports: descriptors with an intact `OriginalFirstThunk`
    /// parsed by name, plus descriptors reflected from overwritten thunk
    /// arrays and resolved through the resolver.
    pub descriptors: Vec<ImportDescriptor>,
    /// Reflected slots whose value could not be resolved to a module/function.
    pub unresolved: Vec<IatEntry>,
}

impl Default for DumpImportRecovery {
    fn default() -> (r: DumpImportRecovery)
        ensures
            r.descriptors@.len() == 0,
            r.unresolved@.len() == 0,
    {
        DumpImportRecovery { descriptors: Vec::new(), unresolved: Vec::new() }
    }
}

} // verus!
