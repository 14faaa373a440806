//! IAT scanning.

use crate::api::resolver::ImportResolver;
use crate::bytes::{le_value, low, low32, read_le};
use crate::disasm::{decode_one, decoded, reencode_one, reencoded, Insn, InsnKind, InsnModel};
use crate::domain::data_directory::{DataDirectory, DataDirectoryIndex};
use crate::domain::document::{image_read, len32, lemma_len32, section_end, DocModel, PeDocument};
use crate::domain::iat::{
    sort_entries, strictly_rising, IatEntry, IatScan, IatScanModel, ScanMethod, ScanOptions,
};
use crate::domain::optional::header_image_base;
use crate::domain::section::{Section, SectionModel, IMAGE_SCN_CNT_CODE, IMAGE_SCN_MEM_EXECUTE};
use crate::domain::types::{pointer_size, ptr_size, Arch, Rva};
use crate::error::{not_found, result_view, PeError, PeErrorModel, PeResult};
use crate::io::pe::decode::present_directory;
use crate::io::pe::parser::find_directory;
use crate::sorting::{stable_sort, stable_sort_sorts};
use crate::text::{dec_text, push_dec};
use vstd::prelude::*;
use vstd::slice::slice_subrange;
use vstd::string::*;

verus! {

/// The pointer-sized value at `r`.
pub open spec fn thunk_at(sections: Seq<SectionModel>, r: u32, ps: nat) -> Option<u64> {
    match image_read(sections, r, ps) {
        None => None,
        Some(b) => Some(le_value(b) as u64),
    }
}

fn read_thunk_at(doc: &PeDocument, r: u32, psize: usize) -> (v: Option<u64>)
    requires
        psize == 4 || psize == 8,
    ensures
        v == thunk_at(doc@.sections, r, psize as nat),
{
    match doc.read(Rva(r), psize) {
        Ok(b) => {
            assert(b@.subrange(0, psize as int) =~= b@);
            Some(read_le(b, 0, psize))
        },
        Err(_) => None,
    }
}

/// Lowest section address and highest section end.
pub open spec fn extent(sections: Seq<SectionModel>) -> (u32, u32)
    decreases sections.len(),
{
    if sections.len() == 0 {
        (u32::MAX, 0)
    } else {
        let (s0, e0) = extent(sections.drop_last());
        let s = sections.last().header.virtual_address.0;
        let e = section_end(sections.last());
        (
            if s < s0 {
                s
            } else {
                s0
            },
            if e > e0 {
                e
            } else {
                e0
            },
        )
    }
}

/// The byte window to scan: the `region` from the options, or the whole image
/// extent.
pub open spec fn window(d: DocModel, o: ScanOptions) -> Result<(u32, nat), PeErrorModel> {
    match o.region {
        Some((rva, len)) => Ok((rva.0, len as nat)),
        None => {
            let (s0, e0) = extent(d.sections);
            if e0 <= s0 {
                Err(PeErrorModel::NotFound("image has no mappable data"@))
            } else {
                Ok((s0, (e0 - s0) as nat))
            }
        },
    }
}

/// A run of slots under construction, the best so far, the zero slots since
/// the last entry, and whether the end of the address space was reached.
pub struct RunState {
    pub current: Option<Seq<IatEntry>>,
    pub best: Option<Seq<IatEntry>>,
    pub gap: nat,
    pub ended: bool,
}

/// The best run after `run` was considered: the first of the longest runs with
/// at least `min` entries.
pub open spec fn better(
    run: Seq<IatEntry>,
    best: Option<Seq<IatEntry>>,
    min: nat,
) -> Option<Seq<IatEntry>> {
    if run.len() >= min && (best matches Some(b) ==> run.len() > b.len()) {
        Some(run)
    } else {
        best
    }
}

/// The current run closed.
pub open spec fn closed_run(s: RunState, min: nat) -> Option<Seq<IatEntry>> {
    match s.current {
        Some(run) => better(run, s.best, min),
        None => s.best,
    }
}

/// One slot: a resolvable value extends the run, a zero is a gap that ends the
/// run when it grows too long, anything else ends the run.
pub open spec fn run_step<R: ImportResolver>(
    s: RunState,
    r: u32,
    v: Option<u64>,
    res: &R,
    o: ScanOptions,
) -> RunState {
    if v is Some && res.target(v->0) is Some {
        let before = match s.current {
            Some(run) => run,
            None => Seq::empty(),
        };
        RunState {
            current: Some(before.push(IatEntry { rva: Rva(r), value: v->0 })),
            gap: 0,
            ..s
        }
    } else if v == Some(0u64) {
        if s.gap + 1 > o.max_null_gap {
            RunState {
                current: None,
                best: closed_run(s, o.min_entries as nat),
                gap: s.gap + 1,
                ..s
            }
        } else {
            RunState { gap: s.gap + 1, ..s }
        }
    } else {
        RunState { current: None, best: closed_run(s, o.min_entries as nat), gap: 0, ..s }
    }
}

/// The state after the first `n` slots of the window.
pub open spec fn runs<R: ImportResolver>(
    sections: Seq<SectionModel>,
    ps: nat,
    start: u32,
    res: &R,
    o: ScanOptions,
    n: nat,
) -> RunState
    decreases n,
{
    if n == 0 {
        RunState { current: None, best: None, gap: 0, ended: false }
    } else {
        let s = runs(sections, ps, start, res, o, (n - 1) as nat);
        let off = low(((n - 1) * ps) as nat);
        if s.ended || start + off > u32::MAX {
            RunState { ended: true, ..s }
        } else {
            let r = (start + off) as u32;
            run_step(s, r, thunk_at(sections, r, ps), res, o)
        }
    }
}

/// How many slots a window of `len` bytes has.
pub open spec fn window_slots(len: nat, ps: nat) -> nat {
    crate::domain::iat::slot_count(len, ps)
}

/// A list of entries as a scan.
pub open spec fn as_scan(e: Seq<IatEntry>) -> IatScanModel {
    IatScanModel { base_rva: e[0].rva, size: e.len(), entries: e }
}

/// What the resolver scan finds: the first of the longest runs of resolvable
/// slots.
pub open spec fn resolver_scan<R: ImportResolver>(d: DocModel, res: &R, o: ScanOptions) -> Result<
    IatScanModel,
    PeErrorModel,
> {
    match window(d, o) {
        Err(e) => Err(e),
        Ok((start, len)) => {
            let ps = pointer_size(d.arch);
            let s = runs(d.sections, ps, start, res, o, window_slots(len, ps));
            match closed_run(s, o.min_entries as nat) {
                Some(e) => Ok(as_scan(e)),
                None => Err(
                    PeErrorModel::NotFound(
                        "no IAT run with >= "@ + dec_text(o.min_entries as nat)
                            + " resolvable entries found"@,
                    ),
                ),
            }
        },
    }
}

/// Whether an instruction belongs to the families that reference IAT slots.
pub open spec fn is_reference(k: InsnKind) -> bool {
    k != InsnKind::Other
}

/// Whether an instruction dereferences an absolute address: a memory operand
/// with neither a base nor an index register.
pub open spec fn is_absolute(i: InsnModel) -> bool {
    i.memory_operands.contains(true) && !i.has_base && !i.has_index
}

/// The slot address an instruction refers to.
pub open spec fn slot_target(i: InsnModel, image_base: u64) -> Option<u32> {
    if !is_reference(i.kind) {
        None
    } else if i.ip_relative {
        if i.ip_target <= u32::MAX {
            Some(i.ip_target as u32)
        } else {
            None
        }
    } else if is_absolute(i) {
        if image_base <= i.displacement && i.displacement - image_base <= u32::MAX {
            Some((i.displacement - image_base) as u32)
        } else {
            None
        }
    } else {
        None
    }
}

/// Whether a section's flags mark it as code.
pub open spec fn is_code(s: SectionModel) -> bool {
    s.header.characteristics & (IMAGE_SCN_CNT_CODE | IMAGE_SCN_MEM_EXECUTE) != 0
}

/// Whether `r` lies in a section that is not code.
pub open spec fn in_data(sections: Seq<SectionModel>, r: u32) -> bool {
    exists|i: int|
        0 <= i < sections.len() && in_data_section(#[trigger] sections[i], r)
}

pub open spec fn in_data_section(s: SectionModel, r: u32) -> bool {
    &&& s.header.virtual_address.0 <= r < s.header.virtual_address.0 + len32(s)
    &&& !is_code(s)
}

/// The entry at `r`, if it can be an IAT slot: pointer-aligned, in a data
/// section, readable and, where slots are validated, resolvable.
pub open spec fn slot_entry<R: ImportResolver>(
    d: DocModel,
    r: u32,
    res: &R,
    o: ScanOptions,
) -> Option<IatEntry> {
    let ps = pointer_size(d.arch);
    if r as nat % ps != 0 || !in_data(d.sections, r) {
        None
    } else {
        match thunk_at(d.sections, r, ps) {
            None => None,
            Some(v) => if !o.validate_slots || res.target(v) is Some {
                Some(IatEntry { rva: Rva(r), value: v })
            } else {
                None
            },
        }
    }
}

/// `e` added to a set of entries in strict address order; an entry at the same
/// address is replaced.
pub open spec fn put_entry(s: Seq<IatEntry>, e: IatEntry) -> Seq<IatEntry>
    decreases s.len(),
{
    if s.len() == 0 {
        seq![e]
    } else if s.last().rva.0 < e.rva.0 {
        s.push(e)
    } else if s.last().rva.0 == e.rva.0 {
        s.drop_last().push(e)
    } else {
        put_entry(s.drop_last(), e).push(s.last())
    }
}

/// The entries referenced by the instructions of `data` from `pos` on, added
/// to `found`.
pub open spec fn referenced<R: ImportResolver>(
    d: DocModel,
    res: &R,
    o: ScanOptions,
    data: Seq<u8>,
    ip: u32,
    pos: nat,
    found: Seq<IatEntry>,
) -> Seq<IatEntry>
    decreases data.len() - pos,
{
    if pos >= data.len() {
        found
    } else {
        let i = decoded(bits(d.arch), data.skip(pos as int), (ip + pos) as u64);
        let next = match slot_target(i, header_image_base(d.optional)) {
            None => found,
            Some(r) => match slot_entry(d, r, res, o) {
                None => found,
                Some(e) => put_entry(found, e),
            },
        };
        if i.len == 0 || pos + i.len > data.len() {
            next
        } else {
            referenced(d, res, o, data, ip, pos + i.len, next)
        }
    }
}

/// The decoder bitness of an architecture.
pub open spec fn bits(arch: Arch) -> u32 {
    match arch {
        Arch::Bit64 => 64,
        Arch::Bit32 => 32,
    }
}

/// The part of a section inside the window: its address range.
pub open spec fn clipped(s: SectionModel, start: u32, end: u32) -> (u32, u32) {
    let a = s.header.virtual_address.0;
    let b = section_end(s);
    (
        if a < start {
            start
        } else {
            a
        },
        if b < end {
            b
        } else {
            end
        },
    )
}

/// The entries referenced by the code of the first `n` sections.
pub open spec fn code_entries<R: ImportResolver>(
    d: DocModel,
    res: &R,
    o: ScanOptions,
    start: u32,
    end: u32,
    n: nat,
) -> Seq<IatEntry>
    decreases n,
{
    if n == 0 {
        Seq::empty()
    } else {
        let found = code_entries(d, res, o, start, end, (n - 1) as nat);
        let s = d.sections[n - 1];
        let (lo, hi) = clipped(s, start, end);
        if !is_code(s) || hi <= lo {
            found
        } else {
            let off = lo - s.header.virtual_address.0;
            referenced(d, res, o, s.data.subrange(off, off + (hi - lo)), lo, 0, found)
        }
    }
}

/// The end of the window, held at the top of the address space.
pub open spec fn window_end(start: u32, len: nat) -> u32 {
    if start + low(len) <= u32::MAX {
        (start + low(len)) as u32
    } else {
        u32::MAX
    }
}

/// What the code-reference scan finds: every slot that code refers to.
pub open spec fn code_scan<R: ImportResolver>(d: DocModel, res: &R, o: ScanOptions) -> Result<
    IatScanModel,
    PeErrorModel,
> {
    match window(d, o) {
        Err(e) => Err(e),
        Ok((start, len)) => {
            let e = code_entries(d, res, o, start, window_end(start, len), d.sections.len());
            if e.len() == 0 {
                Err(PeErrorModel::NotFound("no IAT slot referenced by code (and resolvable)"@))
            } else if e.len() < o.min_entries {
                Err(
                    PeErrorModel::NotFound(
                        "only "@ + dec_text(e.len()) + " IAT slots referenced by code (need >= "@
                            + dec_text(o.min_entries as nat) + ")"@,
                    ),
                )
            } else {
                Ok(as_scan(e))
            }
        },
    }
}

/// The non-zero slots of the thunk array at `addr`, up to a zero slot or the
/// end of what can be read.
pub open spec fn thunk_array_entries(sections: Seq<SectionModel>, addr: int, ps: nat) -> Seq<
    IatEntry,
>
    decreases 0x1_0000_0020 - addr,
{
    if addr < 0 || addr > u32::MAX || ps == 0 || ps > 8 {
        Seq::empty()
    } else {
        match thunk_at(sections, addr as u32, ps) {
            None => Seq::empty(),
            Some(v) => if v == 0 {
                Seq::empty()
            } else {
                seq![IatEntry { rva: Rva(addr as u32), value: v }] + thunk_array_entries(
                    sections,
                    addr + ps,
                    ps,
                )
            },
        }
    }
}

/// A 32-bit field of a descriptor.
pub open spec fn dword(b: Seq<u8>, off: int) -> u32 {
    le_value(b.subrange(off, off + 4)) as u32
}

/// The slots of the descriptors from `addr` on whose original thunk array is
/// gone: it is absent, or the same as the bound one.
pub open spec fn overwritten_entries(sections: Seq<SectionModel>, addr: int, ps: nat) -> Seq<
    IatEntry,
>
    decreases 0x1_0000_0020 - addr,
{
    if addr < 0 || addr > u32::MAX {
        Seq::empty()
    } else {
        match image_read(sections, addr as u32, 20) {
            None => Seq::empty(),
            Some(b) => {
                let oft = dword(b, 0);
                let ft = dword(b, 16);
                if oft == 0 && ft == 0 {
                    Seq::empty()
                } else {
                    let own = if (oft == 0 || oft == ft) && ft != 0 {
                        thunk_array_entries(sections, ft as int, ps)
                    } else {
                        Seq::empty()
                    };
                    own + overwritten_entries(sections, addr + 20, ps)
                }
            },
        }
    }
}

/// How far the IAT directory is walked.
pub open spec fn iat_walk_end(dd: DataDirectory) -> nat {
    if dd.size <= u32::MAX - dd.rva.0 {
        dd.size as nat
    } else {
        (u32::MAX - dd.rva.0) as nat
    }
}

/// The entries of the IAT directory from offset `off` on. A zero slot closes a
/// sub-array, a second one the table.
pub open spec fn iat_dir_entries(
    sections: Seq<SectionModel>,
    dd: DataDirectory,
    ps: nat,
    off: nat,
) -> Seq<IatEntry>
    decreases iat_walk_end(dd) + 16 - off,
{
    if off >= iat_walk_end(dd) || ps == 0 || ps > 8 {
        Seq::empty()
    } else {
        match thunk_at(sections, (dd.rva.0 + off) as u32, ps) {
            None => Seq::empty(),
            Some(v) => if v == 0 {
                if off + ps >= iat_walk_end(dd) {
                    Seq::empty()
                } else {
                    match thunk_at(sections, (dd.rva.0 + off + ps) as u32, ps) {
                        None => Seq::empty(),
                        Some(w) => if w == 0 {
                            Seq::empty()
                        } else {
                            iat_dir_entries(sections, dd, ps, off + ps)
                        },
                    }
                }
            } else {
                seq![IatEntry { rva: Rva((dd.rva.0 + off) as u32), value: v }] + iat_dir_entries(
                    sections,
                    dd,
                    ps,
                    off + ps,
                )
            },
        }
    }
}

/// What the reflection scan finds in the PE structure itself.
pub open spec fn reflection_scan(d: DocModel) -> Result<IatScanModel, PeErrorModel> {
    let ps = pointer_size(d.arch);
    match present_directory(d.data_directories, DataDirectoryIndex::Import) {
        Some(dd) => {
            let e = overwritten_entries(d.sections, dd.rva.0 as int, ps);
            if e.len() > 0 {
                Ok(as_scan(stable_sort(e)))
            } else {
                Err(
                    PeErrorModel::NotFound(
                        "no import descriptor with an overwritten OriginalFirstThunk to reflect"@,
                    ),
                )
            }
        },
        None => match present_directory(d.data_directories, DataDirectoryIndex::Iat) {
            Some(dd) => {
                let e = iat_dir_entries(d.sections, dd, ps, 0);
                if e.len() > 0 {
                    Ok(as_scan(stable_sort(e)))
                } else {
                    Err(
                        PeErrorModel::NotFound(
                            "no non-empty IAT sub-array in the IAT data directory"@,
                        ),
                    )
                }
            },
            None => Err(
                PeErrorModel::NotFound(
                    "neither an import directory nor an IAT data directory to reflect"@,
                ),
            ),
        },
    }
}

/// What a scan finds.
pub open spec fn scanned<R: ImportResolver>(d: DocModel, res: &R, o: ScanOptions) -> Result<
    IatScanModel,
    PeErrorModel,
> {
    match o.method {
        ScanMethod::Resolver => resolver_scan(d, res, o),
        ScanMethod::CodeReference => code_scan(d, res, o),
        ScanMethod::Reflection => reflection_scan(d),
    }
}

/// Locates a candidate Import Address Table in a [`PeDocument`].
///
/// - [`ScanMethod::Resolver`] walks the image (or a `region` window) slot by
///   slot and keeps maximal runs whose stored value resolves through
///   [`ImportResolver`].
/// - [`ScanMethod::CodeReference`] disassembles the executable sections and
///   collects every slot dereferenced by a direct memory operand
///   (`call/jmp/mov/lea [rip+disp]` on x64, absolute addressing on x86),
///   validates each slot's content through the resolver, and returns the full
///   referenced-slot set.
/// - [`ScanMethod::Reflection`] reads the slots off the PE structure itself.
pub trait IatScanner {
    /// The document that is scanned.
    spec fn scan_document(&self) -> DocModel;

    fn scan<R: ImportResolver>(&self, resolver: &R, options: &ScanOptions) -> (r: PeResult<IatScan>)
        ensures
            result_view(r) == scanned(self.scan_document(), resolver, *options),
    ;
}

impl IatScanner for PeDocument {
    open spec fn scan_document(&self) -> DocModel {
        self@
    }

    fn scan<R: ImportResolver>(&self, resolver: &R, options: &ScanOptions) -> (r: PeResult<
        IatScan,
    >) {
        match options.method {
            ScanMethod::Resolver => self.scan_by_resolver(resolver, options),
            ScanMethod::CodeReference => self.scan_by_code_reference(resolver, options),
            ScanMethod::Reflection => self.scan_by_reflection(),
        }
    }
}

/// A run of slots under construction and the best so far.
struct Runs {
    current: Option<Vec<IatEntry>>,
    best: Option<Vec<IatEntry>>,
    gap: usize,
}

spec fn opt_seq(o: Option<Vec<IatEntry>>) -> Option<Seq<IatEntry>> {
    match o {
        Some(v) => Some(v@),
        None => None,
    }
}

impl Runs {
    spec fn is(self, s: RunState) -> bool {
        &&& opt_seq(self.current) == s.current
        &&& opt_seq(self.best) == s.best
        &&& self.gap == s.gap
    }

    /// Close the current run.
    fn close(self, min: usize, Ghost(s): Ghost<RunState>) -> (r: Runs)
        requires
            self.is(s),
        ensures
            r.current is None,
            opt_seq(r.best) == closed_run(s, min as nat),
            r.gap == self.gap,
    {
        match self.current {
            None => Runs { current: None, best: self.best, gap: self.gap },
            Some(run) => {
                let longer = match &self.best {
                    Some(b) => run.len() > b.len(),
                    None => true,
                };
                if run.len() >= min && longer {
                    Runs { current: None, best: Some(run), gap: self.gap }
                } else {
                    Runs { current: None, best: self.best, gap: self.gap }
                }
            },
        }
    }

    /// Take in one slot.
    fn step<R: ImportResolver>(
        self,
        r: u32,
        v: Option<u64>,
        res: &R,
        o: &ScanOptions,
        Ghost(s): Ghost<RunState>,
    ) -> (n: Runs)
        requires
            self.is(s),
            self.gap < usize::MAX,
        ensures
            n.is(run_step(s, r, v, res, *o)),
            n.gap <= self.gap + 1,
    {
        let resolves = match v {
            Some(x) => res.resolve(x).is_some(),
            None => false,
        };
        if resolves {
            let x: u64 = match v {
                Some(x) => x,
                None => 0,
            };
            let mut run: Vec<IatEntry> = match self.current {
                Some(run) => run,
                None => Vec::new(),
            };
            run.push(IatEntry { rva: Rva(r), value: x });
            return Runs { current: Some(run), best: self.best, gap: 0 };
        }
        let zero = match v {
            Some(x) => x == 0,
            None => false,
        };
        if zero {
            let gap: usize = self.gap + 1;
            if gap > o.max_null_gap {
                let c = self.close(o.min_entries, Ghost(s));
                Runs { current: None, best: c.best, gap }
            } else {
                Runs { current: self.current, best: self.best, gap }
            }
        } else {
            let c = self.close(o.min_entries, Ghost(s));
            Runs { current: None, best: c.best, gap: 0 }
        }
    }
}

proof fn lemma_runs_ended<R: ImportResolver>(
    sections: Seq<SectionModel>,
    ps: nat,
    start: u32,
    res: &R,
    o: ScanOptions,
    k: nat,
    n: nat,
)
    requires
        k <= n,
        runs(sections, ps, start, res, o, k).ended,
    ensures
        runs(sections, ps, start, res, o, n) == runs(sections, ps, start, res, o, k),
    decreases n,
{
    if k < n {
        lemma_runs_ended(sections, ps, start, res, o, k, (n - 1) as nat);
    }
}

impl PeDocument {
    /// The byte window to scan.
    fn scan_window(&self, options: &ScanOptions) -> (r: PeResult<(u32, usize)>)
        ensures
            match r {
                Ok((s, l)) => window(self@, *options) is Ok && window(self@, *options)->Ok_0 == (
                    s,
                    l as nat,
                ),
                Err(e) => window(self@, *options) is Err && window(self@, *options)->Err_0 == e@,
            },
    {
        if let Some((rva, len)) = options.region {
            return Ok((rva.get(), len));
        }
        let mut s0: u32 = u32::MAX;
        let mut e0: u32 = 0;
        let mut i: usize = 0;
        let ghost secs = self@.sections;
        assert(secs.take(0) =~= Seq::empty());
        while i < self.sections.len()
            invariant
                i <= self.sections.len(),
                secs == self@.sections,
                (s0, e0) == extent(secs.take(i as int)),
            decreases self.sections.len() - i,
        {
            proof {
                assert(secs.take(i + 1).drop_last() =~= secs.take(i as int));
                assert(secs.take(i + 1).last() == self.sections@[i as int]@);
            }
            let s: u32 = self.sections[i].header.virtual_address.get();
            let e: u32 = s.saturating_add(self.sections[i].data.len() as u32);
            if s < s0 {
                s0 = s;
            }
            if e > e0 {
                e0 = e;
            }
            i = i + 1;
        }
        assert(secs.take(self.sections.len() as int) =~= secs);
        if e0 <= s0 {
            return Err(not_found("image has no mappable data"));
        }
        Ok((s0, (e0 - s0) as usize))
    }

    fn scan_by_resolver<R: ImportResolver>(&self, resolver: &R, options: &ScanOptions) -> (r:
        PeResult<IatScan>)
        ensures
            result_view(r) == resolver_scan(self@, resolver, *options),
    {
        let psize: usize = ptr_size(self.arch);
        let ghost ps = psize as nat;
        let (start, len) = match self.scan_window(options) {
            Ok(w) => w,
            Err(e) => {
                return Err(e);
            },
        };
        let n: usize = len / psize + if len % psize != 0 {
            1
        } else {
            0
        };
        assert(n == window_slots(len as nat, ps)) by {
            if psize == 8 {
                assert((len + 7) / 8 == len / 8 + if len % 8 != 0 {
                    1int
                } else {
                    0int
                });
            } else {
                assert((len + 3) / 4 == len / 4 + if len % 4 != 0 {
                    1int
                } else {
                    0int
                });
            }
        }
        let mut state = Runs { current: None, best: None, gap: 0 };
        let mut k: usize = 0;
        let ghost secs = self@.sections;
        while k < n
            invariant_except_break
                k <= n,
                state.gap <= k,
                !runs(secs, ps, start, resolver, *options, k as nat).ended,
                state.is(runs(secs, ps, start, resolver, *options, k as nat)),
            invariant
                psize == 4 || psize == 8,
                ps == psize,
                secs == self@.sections,
            ensures
                state.is(runs(secs, ps, start, resolver, *options, n as nat)),
            decreases n - k,
        {
            let off: u32 = if psize == 8 {
                low32(k as u128 * 8)
            } else {
                low32(k as u128 * 4)
            };
            assert(off == low((k * ps) as nat));
            if off > u32::MAX - start {
                proof {
                    lemma_runs_ended(
                        secs,
                        ps,
                        start,
                        resolver,
                        *options,
                        (k + 1) as nat,
                        n as nat,
                    );
                }
                break;
            }
            let slot: u32 = start + off;
            let v = read_thunk_at(self, slot, psize);
            let ghost before = runs(secs, ps, start, resolver, *options, k as nat);
            state = state.step(slot, v, resolver, options, Ghost(before));
            k = k + 1;
        }
        let ghost last = runs(secs, ps, start, resolver, *options, n as nat);
        let done = state.close(options.min_entries, Ghost(last));
        match done.best {
            Some(entries) => {
                proof {
                    lemma_runs_nonempty(secs, ps, start, resolver, *options, n as nat);
                }
                assert(entries@.len() > 0);
                let base_rva = entries[0].rva;
                let size: usize = entries.len();
                Ok(IatScan { base_rva, size, entries })
            },
            None => {
                let mut m: String = "no IAT run with >= ".to_owned();
                push_dec(&mut m, options.min_entries as u64);
                m.append(" resolvable entries found");
                Err(PeError::NotFound(m))
            },
        }
    }
}

/// A run under construction, and so the best run, has at least one entry.
proof fn lemma_runs_nonempty<R: ImportResolver>(
    sections: Seq<SectionModel>,
    ps: nat,
    start: u32,
    res: &R,
    o: ScanOptions,
    n: nat,
)
    ensures
        runs(sections, ps, start, res, o, n).current matches Some(r) ==> r.len() > 0,
        runs(sections, ps, start, res, o, n).best matches Some(r) ==> r.len() > 0,
    decreases n,
{
    if n > 0 {
        lemma_runs_nonempty(sections, ps, start, res, o, (n - 1) as nat);
    }
}

/// Where `e` goes in `put_entry`: nothing at or behind `p` has an address up to
/// its own.
proof fn lemma_put_entry(s: Seq<IatEntry>, e: IatEntry, p: int)
    requires
        0 <= p <= s.len(),
        forall|j: int| p <= j < s.len() ==> (#[trigger] s[j]).rva.0 > e.rva.0,
        p > 0 ==> s[p - 1].rva.0 <= e.rva.0,
    ensures
        put_entry(s, e) == if p > 0 && s[p - 1].rva.0 == e.rva.0 {
            s.update(p - 1, e)
        } else {
            s.insert(p, e)
        },
    decreases s.len(),
{
    let n = s.len();
    let r = if p > 0 && s[p - 1].rva.0 == e.rva.0 {
        s.update(p - 1, e)
    } else {
        s.insert(p, e)
    };
    if n == 0 {
        assert(r =~= seq![e]);
    } else if p == n {
        if s[p - 1].rva.0 == e.rva.0 {
            assert(r =~= s.drop_last().push(e));
        } else {
            assert(r =~= s.push(e));
        }
    } else {
        let t = s.drop_last();
        assert(s[n - 1].rva.0 > e.rva.0);
        assert forall|j: int| p <= j < t.len() implies (#[trigger] t[j]).rva.0 > e.rva.0 by {
            assert(s[j].rva.0 > e.rva.0);
        }
        lemma_put_entry(t, e, p);
        assert(put_entry(s, e) =~= r);
    }
}

/// Adding an entry keeps the addresses strictly rising.
proof fn lemma_put_rising(s: Seq<IatEntry>, e: IatEntry)
    requires
        strictly_rising(s),
    ensures
        strictly_rising(put_entry(s, e)),
        put_entry(s, e).len() > 0,
        forall|j: int|
            0 <= j < put_entry(s, e).len() ==> (#[trigger] put_entry(s, e)[j]).rva.0 <= if s.len()
                > 0 && s.last().rva.0 > e.rva.0 {
                s.last().rva.0
            } else {
                e.rva.0
            },
    decreases s.len(),
{
    if s.len() > 0 {
        let t = s.drop_last();
        assert(strictly_rising(t)) by {
            assert forall|i: int, j: int| 0 <= i < j < t.len() implies t[i].rva.0 < t[j].rva.0 by {
                assert(s[i].rva.0 < s[j].rva.0);
            }
        }
        let r = put_entry(s, e);
        let k = s.len() - 1;
        assert forall|i: int| 0 <= i < k implies (#[trigger] s[i]).rva.0 < s[k].rva.0 by {}
        if s.last().rva.0 > e.rva.0 {
            lemma_put_rising(t, e);
            let q = put_entry(t, e);
            assert(r == q.push(s.last()));
            assert forall|i: int, j: int| 0 <= i < j < r.len() implies r[i].rva.0 < r[j].rva.0 by {
                if j < q.len() {
                    assert(q[i].rva.0 < q[j].rva.0);
                } else {
                    assert(q[i].rva.0 <= if t.len() > 0 && t.last().rva.0 > e.rva.0 {
                        t.last().rva.0
                    } else {
                        e.rva.0
                    });
                    if t.len() > 0 {
                        assert(s[t.len() - 1].rva.0 < s[k].rva.0);
                    }
                }
            }
        }
    }
}

proof fn lemma_referenced_rising<R: ImportResolver>(
    d: DocModel,
    res: &R,
    o: ScanOptions,
    data: Seq<u8>,
    ip: u32,
    pos: nat,
    found: Seq<IatEntry>,
)
    requires
        strictly_rising(found),
    ensures
        strictly_rising(referenced(d, res, o, data, ip, pos, found)),
    decreases data.len() - pos,
{
    if pos < data.len() {
        let i = decoded(bits(d.arch), data.skip(pos as int), (ip + pos) as u64);
        let next = match slot_target(i, header_image_base(d.optional)) {
            None => found,
            Some(r) => match slot_entry(d, r, res, o) {
                None => found,
                Some(e) => put_entry(found, e),
            },
        };
        if let Some(r) = slot_target(i, header_image_base(d.optional)) {
            if let Some(e) = slot_entry(d, r, res, o) {
                lemma_put_rising(found, e);
            }
        }
        if i.len > 0 && pos + i.len <= data.len() {
            lemma_referenced_rising(d, res, o, data, ip, pos + i.len, next);
        }
    }
}

proof fn lemma_code_rising<R: ImportResolver>(
    d: DocModel,
    res: &R,
    o: ScanOptions,
    start: u32,
    end: u32,
    n: nat,
)
    ensures
        strictly_rising(code_entries(d, res, o, start, end, n)),
    decreases n,
{
    if n > 0 {
        lemma_code_rising(d, res, o, start, end, (n - 1) as nat);
        let found = code_entries(d, res, o, start, end, (n - 1) as nat);
        let s = d.sections[n - 1];
        let (lo, hi) = clipped(s, start, end);
        let off = lo - s.header.virtual_address.0;
        lemma_referenced_rising(
            d,
            res,
            o,
            s.data.subrange(off, off + (hi - lo)),
            lo,
            0,
            found,
        );
    }
}

/// A code-reference scan gives each slot once, in address order.
pub proof fn code_scan_is_strictly_sorted<R: ImportResolver>(
    d: DocModel,
    res: &R,
    o: ScanOptions,
)
    requires
        code_scan(d, res, o) is Ok,
    ensures
        strictly_rising(code_scan(d, res, o)->Ok_0.entries),
        code_scan(d, res, o)->Ok_0.entries.len() >= o.min_entries,
{
    let (start, len) = window(d, o)->Ok_0;
    lemma_code_rising(d, res, o, start, window_end(start, len), d.sections.len());
}

proof fn lemma_runs_long<R: ImportResolver>(
    sections: Seq<SectionModel>,
    ps: nat,
    start: u32,
    res: &R,
    o: ScanOptions,
    n: nat,
)
    ensures
        runs(sections, ps, start, res, o, n).best matches Some(r) ==> r.len() >= o.min_entries
            && forall|i: int| 0 <= i < r.len() ==> res.target((#[trigger] r[i]).value) is Some,
        runs(sections, ps, start, res, o, n).current matches Some(r) ==> forall|i: int|
            0 <= i < r.len() ==> res.target((#[trigger] r[i]).value) is Some,
    decreases n,
{
    if n > 0 {
        lemma_runs_long(sections, ps, start, res, o, (n - 1) as nat);
    }
}

/// A resolver scan gives at least the asked number of entries, and every one
/// of them resolves.
pub proof fn resolver_scan_entries_resolve<R: ImportResolver>(
    d: DocModel,
    res: &R,
    o: ScanOptions,
)
    requires
        resolver_scan(d, res, o) is Ok,
    ensures
        resolver_scan(d, res, o)->Ok_0.entries.len() >= o.min_entries,
        forall|i: int|
            0 <= i < resolver_scan(d, res, o)->Ok_0.entries.len() ==> res.target(
                (#[trigger] resolver_scan(d, res, o)->Ok_0.entries[i]).value,
            ) is Some,
{
    let (start, len) = window(d, o)->Ok_0;
    let ps = pointer_size(d.arch);
    lemma_runs_long(d.sections, ps, start, res, o, window_slots(len, ps));
}

/// Add an entry to a list in address order.
fn put(found: &mut Vec<IatEntry>, e: IatEntry)
    ensures
        final(found)@ == put_entry(old(found)@, e),
{
    let mut p: usize = found.len();
    while p > 0 && found[p - 1].rva.get() > e.rva.get()
        invariant
            p <= found.len(),
            found@ == old(found)@,
            forall|j: int| p <= j < found.len() ==> (#[trigger] found@[j]).rva.0 > e.rva.0,
        decreases p,
    {
        p = p - 1;
    }
    proof {
        lemma_put_entry(found@, e, p as int);
    }
    if p > 0 && found[p - 1].rva.get() == e.rva.get() {
        found[p - 1] = e;
    } else {
        found.insert(p, e);
    }
}

/// The slot address an instruction refers to.
pub fn find_target(i: &Insn, image_base: u64) -> (r: Option<u32>)
    ensures
        r == slot_target(i@, image_base),
{
    let reference = match i.kind {
        InsnKind::Other => false,
        _ => true,
    };
    if !reference {
        return None;
    }
    if i.ip_relative {
        if i.ip_target <= u32::MAX as u64 {
            return Some(i.ip_target as u32);
        }
        return None;
    }
    let mut memory = false;
    let mut k: usize = 0;
    while k < i.memory_operands.len()
        invariant
            k <= i.memory_operands.len(),
            memory == i.memory_operands@.take(k as int).contains(true),
        decreases i.memory_operands.len() - k,
    {
        let m: bool = i.memory_operands[k];
        proof {
            let before = i.memory_operands@.take(k as int);
            let after = i.memory_operands@.take(k + 1);
            assert(after =~= before.push(m));
            if before.contains(true) {
                let q = choose|q: int| 0 <= q < before.len() && before[q] == true;
                assert(after[q] == true);
            }
            if m {
                assert(after[k as int] == true);
            }
            if after.contains(true) {
                let q = choose|q: int| 0 <= q < after.len() && after[q] == true;
                if q < k {
                    assert(before[q] == true);
                }
            }
        }
        memory = memory || m;
        k = k + 1;
    }
    assert(i.memory_operands@.take(i.memory_operands.len() as int) =~= i.memory_operands@);
    if memory && !i.has_base && !i.has_index && image_base <= i.displacement && i.displacement
        - image_base <= u32::MAX as u64 {
        Some((i.displacement - image_base) as u32)
    } else {
        None
    }
}

/// Whether a section's flags mark it as code.
fn section_is_code(s: &Section) -> (r: bool)
    ensures
        r == is_code(s@),
{
    s.header.characteristics & (IMAGE_SCN_CNT_CODE | IMAGE_SCN_MEM_EXECUTE) != 0
}

fn decoder_bits(arch: Arch) -> (r: u32)
    ensures
        r == bits(arch),
        r == 32 || r == 64,
{
    match arch {
        Arch::Bit64 => 64,
        Arch::Bit32 => 32,
    }
}

impl PeDocument {
    /// Whether `r` lies in a section that is not code.
    fn slot_in_data(&self, r: u32) -> (b: bool)
        ensures
            b == in_data(self@.sections, r),
    {
        let mut i: usize = 0;
        while i < self.sections.len()
            invariant
                i <= self.sections.len(),
                forall|j: int| 0 <= j < i ==> !in_data_section(#[trigger] self@.sections[j], r),
            decreases self.sections.len() - i,
        {
            let s: &Section = &self.sections[i];
            assert(self@.sections[i as int] == s@);
            let a: u32 = s.header.virtual_address.get();
            let len: u32 = s.data.len() as u32;
            if a <= r && (r as u64) < a as u64 + len as u64 && !section_is_code(s) {
                assert(in_data_section(self@.sections[i as int], r));
                return true;
            }
            i = i + 1;
        }
        false
    }

    /// The entry at `r`, if it can be an IAT slot.
    pub fn find_slot<R: ImportResolver>(&self, r: u32, resolver: &R, options: &ScanOptions) -> (e:
        Option<IatEntry>)
        ensures
            e == slot_entry(self@, r, resolver, *options),
    {
        let psize: usize = ptr_size(self.arch);
        if r % (psize as u32) != 0 || !self.slot_in_data(r) {
            return None;
        }
        match read_thunk_at(self, r, psize) {
            None => None,
            Some(v) => {
                if !options.validate_slots || resolver.resolve(v).is_some() {
                    Some(IatEntry { rva: Rva(r), value: v })
                } else {
                    None
                }
            },
        }
    }

    /// Add the entries that the instructions of `data` refer to.
    fn collect_references<R: ImportResolver>(
        &self,
        resolver: &R,
        options: &ScanOptions,
        data: &[u8],
        ip: u32,
        found: &mut Vec<IatEntry>,
    )
        requires
            data@.len() <= u32::MAX,
        ensures
            final(found)@ == referenced(self@, resolver, *options, data@, ip, 0, old(found)@),
    {
        let bitness: u32 = decoder_bits(self.arch);
        let image_base: u64 = self.optional.image_base();
        let mut pos: usize = 0;
        let ghost d = self@;
        let ghost start = found@;
        while pos < data.len()
            invariant
                pos <= data.len(),
                data@.len() <= u32::MAX,
                d == self@,
                bitness == bits(d.arch),
                bitness == 32 || bitness == 64,
                image_base == header_image_base(d.optional),
                referenced(d, resolver, *options, data@, ip, 0, start) == referenced(
                    d,
                    resolver,
                    *options,
                    data@,
                    ip,
                    pos as nat,
                    found@,
                ),
            decreases data.len() - pos,
        {
            let rest = slice_subrange(data, pos, data.len());
            assert(rest@ =~= data@.skip(pos as int));
            let i = decode_one(bitness, rest, ip as u64 + pos as u64);
            if let Some(r) = find_target(&i, image_base) {
                if let Some(e) = self.find_slot(r, resolver, options) {
                    put(found, e);
                }
            }
            pos = pos + i.len;
        }
    }

    /// Locate IAT slots referenced by code, disassembling each executable
    /// section. Keeps the target of every instruction that dereferences a
    /// direct memory address: a RIP/EIP-relative operand (x64) or an absolute
    /// address (x86), and validates each slot's content through the resolver
    /// (unless `validate_slots` is off for protected dumps).
    fn scan_by_code_reference<R: ImportResolver>(&self, resolver: &R, options: &ScanOptions) -> (r:
        PeResult<IatScan>)
        ensures
            result_view(r) == code_scan(self@, resolver, *options),
    {
        let (start, len) = match self.scan_window(options) {
            Ok(w) => w,
            Err(e) => {
                return Err(e);
            },
        };
        let end: u32 = start.saturating_add(low32(len as u128));
        let mut found: Vec<IatEntry> = Vec::new();
        let mut k: usize = 0;
        let ghost d = self@;
        while k < self.sections.len()
            invariant
                k <= self.sections.len(),
                d == self@,
                found@ == code_entries(d, resolver, *options, start, end, k as nat),
            decreases self.sections.len() - k,
        {
            let s: &Section = &self.sections[k];
            assert(d.sections[k as int] == s@);
            if section_is_code(s) {
                let a: u32 = s.header.virtual_address.get();
                let b: u32 = a.saturating_add(s.data.len() as u32);
                let lo: u32 = if a < start {
                    start
                } else {
                    a
                };
                let hi: u32 = if b < end {
                    b
                } else {
                    end
                };
                if hi > lo {
                    let off: usize = (lo - a) as usize;
                    let n: usize = (hi - lo) as usize;
                    proof {
                        lemma_len32(s@);
                    }
                    let data = slice_subrange(s.data.as_slice(), off, off + n);
                    self.collect_references(resolver, options, data, lo, &mut found);
                }
            }
            k = k + 1;
        }
        if found.len() == 0 {
            return Err(not_found("no IAT slot referenced by code (and resolvable)"));
        }
        if found.len() < options.min_entries {
            let mut m: String = "only ".to_owned();
            push_dec(&mut m, found.len() as u64);
            m.append(" IAT slots referenced by code (need >= ");
            push_dec(&mut m, options.min_entries as u64);
            m.append(")");
            return Err(PeError::NotFound(m));
        }
        let base_rva = found[0].rva;
        let size: usize = found.len();
        Ok(IatScan { base_rva, size, entries: found })
    }
}

/// `p` in front of `q`.
proof fn lemma_push_front(p: Seq<IatEntry>, x: IatEntry, q: Seq<IatEntry>)
    ensures
        p + (seq![x] + q) == p.push(x) + q,
{
    assert(p + (seq![x] + q) =~= p.push(x) + q);
}

/// Collect the non-zero thunk slots of the NULL-terminated array at `ft_rva`.
pub(crate) fn collect_thunk_array(
    doc: &PeDocument,
    ft_rva: u32,
    psize: usize,
    out: &mut Vec<IatEntry>,
)
    requires
        psize == 4 || psize == 8,
    ensures
        final(out)@ == old(out)@ + thunk_array_entries(
            doc@.sections,
            ft_rva as int,
            psize as nat,
        ),
{
    let mut addr: u64 = ft_rva as u64;
    let ghost secs = doc@.sections;
    let ghost whole = old(out)@ + thunk_array_entries(secs, ft_rva as int, psize as nat);
    while addr <= u32::MAX as u64
        invariant_except_break
            addr <= 0x1_0000_0008,
        invariant
            psize == 4 || psize == 8,
            secs == doc@.sections,
            whole == out@ + thunk_array_entries(secs, addr as int, psize as nat),
        ensures
            thunk_array_entries(secs, addr as int, psize as nat).len() == 0,
        decreases 0x1_0000_0020 - addr,
    {
        let v: u64 = match read_thunk_at(doc, addr as u32, psize) {
            Some(v) => v,
            None => {
                break;
            },
        };
        if v == 0 {
            break;
        }
        let e = IatEntry { rva: Rva(addr as u32), value: v };
        proof {
            lemma_push_front(out@, e, thunk_array_entries(secs, addr + psize, psize as nat));
        }
        out.push(e);
        addr = addr + psize as u64;
    }
    assert(whole =~= out@);
}

/// Collect every entry of the IAT data directory `dd`, walked as NULL-separated
/// per-module sub-arrays: a NULL closes a sub-array, a second NULL closes the
/// whole table, and the directory `size` bounds the walk.
pub(crate) fn collect_iat_dir_entries(
    doc: &PeDocument,
    dd: DataDirectory,
    psize: usize,
    out: &mut Vec<IatEntry>,
)
    requires
        psize == 4 || psize == 8,
    ensures
        final(out)@ == old(out)@ + iat_dir_entries(doc@.sections, dd, psize as nat, 0),
{
    let room: u32 = u32::MAX - dd.rva.get();
    let end: u64 = if dd.size <= room {
        dd.size as u64
    } else {
        room as u64
    };
    let mut off: u64 = 0;
    let ghost secs = doc@.sections;
    let ghost whole = old(out)@ + iat_dir_entries(secs, dd, psize as nat, 0);
    while off < end
        invariant_except_break
            off <= end + 8,
        invariant
            psize == 4 || psize == 8,
            end == iat_walk_end(dd),
            secs == doc@.sections,
            whole == out@ + iat_dir_entries(secs, dd, psize as nat, off as nat),
        ensures
            iat_dir_entries(secs, dd, psize as nat, off as nat).len() == 0,
        decreases end + 16 - off,
    {
        let at: u32 = dd.rva.get() + off as u32;
        let v: u64 = match read_thunk_at(doc, at, psize) {
            Some(v) => v,
            None => {
                break;
            },
        };
        if v == 0 {
            let next: u64 = off + psize as u64;
            if next >= end {
                break;
            }
            let w: u64 = match read_thunk_at(doc, dd.rva.get() + next as u32, psize) {
                Some(w) => w,
                None => {
                    break;
                },
            };
            if w == 0 {
                break;
            }
            off = next;
        } else {
            let e = IatEntry { rva: Rva(at), value: v };
            proof {
                lemma_push_front(
                    out@,
                    e,
                    iat_dir_entries(secs, dd, psize as nat, off as nat + psize as nat),
                );
            }
            out.push(e);
            off = off + psize as u64;
        }
    }
    assert(whole =~= out@);
}

/// Sort the reflected entries by RVA and wrap them in an [`IatScan`].
fn entries_to_scan(entries: &[IatEntry]) -> (r: IatScan)
    requires
        entries@.len() > 0,
    ensures
        r@ == as_scan(stable_sort(entries@)),
{
    let sorted = sort_entries(entries);
    proof {
        stable_sort_sorts(entries@);
    }
    let base_rva = sorted[0].rva;
    let size: usize = sorted.len();
    IatScan { base_rva, size, entries: sorted }
}

impl PeDocument {
    /// The slots of all import descriptors whose original thunk array is gone.
    fn collect_overwritten(&self, dir: u32, psize: usize) -> (out: Vec<IatEntry>)
        requires
            psize == 4 || psize == 8,
        ensures
            out@ == overwritten_entries(self@.sections, dir as int, psize as nat),
    {
        let mut out: Vec<IatEntry> = Vec::new();
        let mut addr: u64 = dir as u64;
        let ghost secs = self@.sections;
        let ghost whole = overwritten_entries(secs, dir as int, psize as nat);
        assert(out@ + whole =~= whole);
        while addr <= u32::MAX as u64
            invariant_except_break
                addr <= 0x1_0000_0014,
            invariant
                psize == 4 || psize == 8,
                secs == self@.sections,
                whole == out@ + overwritten_entries(secs, addr as int, psize as nat),
            ensures
                overwritten_entries(secs, addr as int, psize as nat).len() == 0,
            decreases 0x1_0000_0020 - addr,
        {
            let (oft, ft): (u32, u32) = match self.read(Rva(addr as u32), 20) {
                Ok(b) => (read_le(b, 0, 4) as u32, read_le(b, 16, 4) as u32),
                Err(_) => {
                    break;
                },
            };
            if oft == 0 && ft == 0 {
                break;
            }
            let ghost rest = overwritten_entries(secs, addr + 20, psize as nat);
            let ghost before = out@;
            if (oft == 0 || oft == ft) && ft != 0 {
                collect_thunk_array(self, ft, psize, &mut out);
                assert(out@ + rest =~= before + (thunk_array_entries(
                    secs,
                    ft as int,
                    psize as nat,
                ) + rest));
            } else {
                assert(out@ + rest =~= before + (Seq::<IatEntry>::empty() + rest));
            }
            addr = addr + 20;
        }
        assert(whole =~= out@);
        out
    }

    /// Reflect the IAT from the PE structure itself: when the loader has
    /// overwritten an import descriptor's `OriginalFirstThunk` (`== 0` or
    /// `== FirstThunk`), the `FirstThunk` array now holds loaded *addresses*
    /// and *is* the IAT. If the import directory is gone but the IAT data
    /// directory remains, walk its NULL-separated per-module sub-arrays (a
    /// double NULL closes the whole table). The reflected slots are returned
    /// unresolved.
    fn scan_by_reflection(&self) -> (r: PeResult<IatScan>)
        ensures
            result_view(r) == reflection_scan(self@),
    {
        let psize: usize = ptr_size(self.arch);
        if let Some(dd) = find_directory(self, DataDirectoryIndex::Import) {
            let entries = self.collect_overwritten(dd.rva.get(), psize);
            if entries.len() > 0 {
                return Ok(entries_to_scan(&entries));
            }
            return Err(
                not_found("no import descriptor with an overwritten OriginalFirstThunk to reflect"),
            );
        }
        if let Some(dd) = find_directory(self, DataDirectoryIndex::Iat) {
            let mut entries: Vec<IatEntry> = Vec::new();
            collect_iat_dir_entries(self, dd, psize, &mut entries);
            assert(entries@ =~= iat_dir_entries(self@.sections, dd, psize as nat, 0));
            if entries.len() > 0 {
                return Ok(entries_to_scan(&entries));
            }
            return Err(not_found("no non-empty IAT sub-array in the IAT data directory"));
        }
        Err(not_found("neither an import directory nor an IAT data directory to reflect"))
    }
}

/// The new address for a slot: that of the last pair that names it.
pub open spec fn new_slot(mapping: Seq<(Rva, Rva)>, r: u32) -> Option<u32>
    decreases mapping.len(),
{
    if mapping.len() == 0 {
        None
    } else if mapping.last().0 == Rva(r) {
        Some(mapping.last().1.0)
    } else {
        new_slot(mapping.drop_last(), r)
    }
}

/// A 64-bit sum, wrapping around.
pub open spec fn wrapped(a: int, b: int) -> u64 {
    ((a + b) % 0x1_0000_0000_0000_0000) as u64
}

/// The displacement an instruction gets when it refers to a slot that moves: the
/// new slot's address, relative to the image for an operand that is relative to
/// the instruction pointer.
pub open spec fn moved_displacement(
    i: InsnModel,
    image_base: u64,
    mapping: Seq<(Rva, Rva)>,
) -> Option<u64> {
    match slot_target(i, image_base) {
        None => None,
        Some(r) => match new_slot(mapping, r) {
            None => None,
            Some(n) => Some(
                if i.ip_relative {
                    n as u64
                } else {
                    wrapped(image_base as int, n as int)
                },
            ),
        },
    }
}

/// An encoding, as long as it has the given length.
pub open spec fn of_length(encoded: Option<Seq<u8>>, len: nat) -> Option<Seq<u8>> {
    match encoded {
        Some(b) if b.len() == len => Some(b),
        _ => None,
    }
}

/// The bytes that replace the instruction at `pos`: when it refers to a slot
/// that moves, its encoding with the new address, as long as that has the same
/// length.
pub open spec fn rewritten(
    d: DocModel,
    mapping: Seq<(Rva, Rva)>,
    data: Seq<u8>,
    va: u32,
    pos: nat,
) -> Option<Seq<u8>> {
    let ip = wrapped(va as int, pos as int);
    let rest = data.skip(pos as int);
    let i = decoded(bits(d.arch), rest, ip);
    match moved_displacement(i, header_image_base(d.optional), mapping) {
        None => None,
        Some(target) => of_length(reencoded(bits(d.arch), rest, ip, target), i.len),
    }
}

/// The bytes of a code section from `pos` on with its references rewritten,
/// and how many were.
pub open spec fn remapped_code(
    d: DocModel,
    mapping: Seq<(Rva, Rva)>,
    data: Seq<u8>,
    va: u32,
    pos: nat,
) -> (Seq<u8>, nat)
    decreases data.len() - pos,
{
    if pos >= data.len() {
        (Seq::empty(), 0)
    } else {
        let i = decoded(bits(d.arch), data.skip(pos as int), wrapped(va as int, pos as int));
        if i.len == 0 || pos + i.len > data.len() {
            (data.skip(pos as int), 0)
        } else {
            let (rest, n) = remapped_code(d, mapping, data, va, pos + i.len);
            match rewritten(d, mapping, data, va, pos) {
                Some(b) => (b + rest, n + 1),
                None => (data.subrange(pos as int, (pos + i.len) as int) + rest, n),
            }
        }
    }
}

/// A section with its references rewritten; only code sections have any.
pub open spec fn remapped_section(
    d: DocModel,
    mapping: Seq<(Rva, Rva)>,
    s: SectionModel,
) -> (SectionModel, nat) {
    if is_code(s) {
        let (data, n) = remapped_code(d, mapping, s.data, s.header.virtual_address.0, 0);
        (SectionModel { header: s.header, data }, n)
    } else {
        (s, 0)
    }
}

/// The sections with all references rewritten.
pub open spec fn remapped_sections(d: DocModel, mapping: Seq<(Rva, Rva)>) -> Seq<SectionModel> {
    Seq::new(d.sections.len(), |i: int| remapped_section(d, mapping, d.sections[i]).0)
}

/// How many references of the first `n` sections are rewritten.
pub open spec fn remapped_count(d: DocModel, mapping: Seq<(Rva, Rva)>, n: nat) -> nat
    decreases n,
{
    if n == 0 {
        0
    } else {
        remapped_count(d, mapping, (n - 1) as nat) + remapped_section(
            d,
            mapping,
            d.sections[n - 1],
        ).1
    }
}

/// Rewriting references changes no section's length.
pub proof fn remap_keeps_lengths(
    d: DocModel,
    mapping: Seq<(Rva, Rva)>,
    data: Seq<u8>,
    va: u32,
    pos: nat,
)
    requires
        pos <= data.len(),
    ensures
        remapped_code(d, mapping, data, va, pos).0.len() == data.len() - pos,
    decreases data.len() - pos,
{
    if pos < data.len() {
        let i = decoded(bits(d.arch), data.skip(pos as int), wrapped(va as int, pos as int));
        if i.len > 0 && pos + i.len <= data.len() {
            remap_keeps_lengths(d, mapping, data, va, pos + i.len);
        }
    }
}

/// Where no pair is given nothing is rewritten.
pub proof fn remap_of_nothing_is_identity(d: DocModel, data: Seq<u8>, va: u32, pos: nat)
    requires
        pos <= data.len(),
    ensures
        remapped_code(d, Seq::empty(), data, va, pos) == (data.skip(pos as int), 0nat),
    decreases data.len() - pos,
{
    if pos < data.len() {
        let i = decoded(bits(d.arch), data.skip(pos as int), wrapped(va as int, pos as int));
        if i.len > 0 && pos + i.len <= data.len() {
            remap_of_nothing_is_identity(d, data, va, pos + i.len);
            assert(data.subrange(pos as int, (pos + i.len) as int) + data.skip(
                (pos + i.len) as int,
            ) =~= data.skip(pos as int));
        }
    } else {
        assert(data.skip(pos as int) =~= Seq::empty());
    }
}

/// The new address for a slot.
pub fn find_new_slot(mapping: &[(Rva, Rva)], r: u32) -> (n: Option<u32>)
    ensures
        n == new_slot(mapping@, r),
{
    let mut i: usize = mapping.len();
    assert(mapping@.take(mapping.len() as int) =~= mapping@);
    while i > 0
        invariant
            i <= mapping.len(),
            new_slot(mapping@, r) == new_slot(mapping@.take(i as int), r),
        decreases i,
    {
        let p: (Rva, Rva) = mapping[i - 1];
        proof {
            assert(mapping@.take(i as int).last() == p);
            assert(mapping@.take(i as int).drop_last() =~= mapping@.take(i - 1));
        }
        if p.0.get() == r {
            return Some(p.1.get());
        }
        i = i - 1;
    }
    None
}

/// The displacement an instruction gets when it refers to a slot that moves.
pub fn find_displacement(i: &Insn, image_base: u64, mapping: &[(Rva, Rva)]) -> (r: Option<u64>)
    ensures
        r == moved_displacement(i@, image_base, mapping@),
{
    let r: u32 = match find_target(i, image_base) {
        Some(r) => r,
        None => {
            return None;
        },
    };
    match find_new_slot(mapping, r) {
        None => None,
        Some(n) => {
            if i.ip_relative {
                Some(n as u64)
            } else {
                Some(image_base.wrapping_add(n as u64))
            }
        },
    }
}

/// An encoding, as long as it has the length of what it replaces: any other
/// would move the instructions behind it.
pub fn keep_length(encoded: Option<Vec<u8>>, len: usize) -> (r: Option<Vec<u8>>)
    ensures
        opt_bytes(r) == of_length(opt_bytes(encoded), len as nat),
{
    match encoded {
        None => None,
        Some(b) => {
            if b.len() == len {
                Some(b)
            } else {
                None
            }
        },
    }
}

/// What an optional byte list holds.
pub open spec fn opt_bytes(b: Option<Vec<u8>>) -> Option<Seq<u8>> {
    match b {
        Some(v) => Some(v@),
        None => None,
    }
}

impl PeDocument {
    /// The replacement for the instruction `i` at `pos`.
    fn rewrite_insn(
        &self,
        mapping: &[(Rva, Rva)],
        data: &[u8],
        va: u32,
        pos: usize,
        i: &Insn,
    ) -> (r: Option<Vec<u8>>)
        requires
            pos < data@.len(),
            i@ == decoded(
                bits(self@.arch),
                data@.skip(pos as int),
                wrapped(va as int, pos as int),
            ),
        ensures
            opt_bytes(r) == rewritten(self@, mapping@, data@, va, pos as nat),
    {
        let target: u64 = match find_displacement(i, self.optional.image_base(), mapping) {
            Some(target) => target,
            None => {
                return None;
            },
        };
        let rest = slice_subrange(data, pos, data.len());
        assert(rest@ =~= data@.skip(pos as int));
        let ip: u64 = (va as u64).wrapping_add(pos as u64);
        assert(ip == wrapped(va as int, pos as int));
        keep_length(reencode_one(decoder_bits(self.arch), rest, ip, target), i.len)
    }

    /// A code section's bytes with its references rewritten, and how many were.
    fn remap_code(&self, mapping: &[(Rva, Rva)], data: &[u8], va: u32) -> (r: (Vec<u8>, usize))
        ensures
            r.0@ == remapped_code(self@, mapping@, data@, va, 0).0,
            r.1 == remapped_code(self@, mapping@, data@, va, 0).1,
    {
        let bitness: u32 = decoder_bits(self.arch);
        let mut out: Vec<u8> = Vec::new();
        let mut patched: usize = 0;
        let mut pos: usize = 0;
        let ghost d = self@;
        let ghost whole = remapped_code(d, mapping@, data@, va, 0);
        assert(out@ + whole.0 =~= whole.0);
        while pos < data.len()
            invariant
                pos <= data.len(),
                patched <= pos,
                d == self@,
                bitness == bits(d.arch),
                bitness == 32 || bitness == 64,
                whole.0 == out@ + remapped_code(d, mapping@, data@, va, pos as nat).0,
                whole.1 == patched + remapped_code(d, mapping@, data@, va, pos as nat).1,
            decreases data.len() - pos,
        {
            let rest = slice_subrange(data, pos, data.len());
            assert(rest@ =~= data@.skip(pos as int));
            let ip: u64 = (va as u64).wrapping_add(pos as u64);
            assert(ip == wrapped(va as int, pos as int));
            let i = decode_one(bitness, rest, ip);
            let ghost before = out@;
            let ghost tail = remapped_code(d, mapping@, data@, va, (pos + i.len) as nat).0;
            match self.rewrite_insn(mapping, data, va, pos, &i) {
                Some(mut b) => {
                    let ghost piece = b@;
                    out.append(&mut b);
                    patched = patched + 1;
                    assert(out@ + tail =~= before + (piece + tail));
                },
                None => {
                    let piece = slice_subrange(data, pos, pos + i.len);
                    crate::bytes::push_bytes(&mut out, piece);
                    assert(out@ + tail =~= before + (piece@ + tail));
                },
            }
            pos = pos + i.len;
        }
        assert(whole.0 =~= out@);
        (out, patched)
    }

    /// Rewrite the direct-memory code references in the executable sections
    /// whose target slot RVA is the first of a pair of `mapping` to point at
    /// the second instead: the code side of relocating (scattering) an IAT.
    /// Only the displacement is changed, so each rewritten instruction keeps
    /// its byte length; an instruction whose re-encoding would change length
    /// is left untouched (it would desynchronize the decoder). Returns the
    /// number of instructions rewritten.
    pub fn remap_iat_references(&mut self, mapping: &[(Rva, Rva)]) -> (r: PeResult<usize>)
        ensures
            r is Ok,
            mapping@.len() == 0 ==> *final(self) == *old(self) && r->Ok_0 == 0,
            mapping@.len() > 0 ==> final(self)@ == (DocModel {
                sections: remapped_sections(old(self)@, mapping@),
                ..old(self)@
            }) && r->Ok_0 == {
                let n = remapped_count(old(self)@, mapping@, old(self)@.sections.len());
                if n <= usize::MAX {
                    n as int
                } else {
                    usize::MAX as int
                }
            },
    {
        if mapping.len() == 0 {
            return Ok(0);
        }
        let mut news: Vec<Option<Vec<u8>>> = Vec::new();
        let mut patched: usize = 0;
        let mut k: usize = 0;
        let ghost d = self@;
        while k < self.sections.len()
            invariant
                k <= self.sections.len(),
                *self == *old(self),
                d == self@,
                news@.len() == k,
                forall|j: int|
                    0 <= j < k ==> match #[trigger] news@[j] {
                        Some(b) => remapped_section(d, mapping@, d.sections[j]).0 == (
                        SectionModel { header: d.sections[j].header, data: b@ }),
                        None => remapped_section(d, mapping@, d.sections[j]).0 == d.sections[j],
                    },
                patched == {
                    let n = remapped_count(d, mapping@, k as nat);
                    if n <= usize::MAX {
                        n as int
                    } else {
                        usize::MAX as int
                    }
                },
            decreases self.sections.len() - k,
        {
            let s: &Section = &self.sections[k];
            assert(d.sections[k as int] == s@);
            if section_is_code(s) {
                let (data, n) = self.remap_code(
                    mapping,
                    s.data.as_slice(),
                    s.header.virtual_address.get(),
                );
                patched = patched.saturating_add(n);
                news.push(Some(data));
            } else {
                news.push(None);
            }
            k = k + 1;
        }
        self.replace_data(news, Ghost(mapping@));
        Ok(patched)
    }

    /// Put the rewritten bytes in place.
    fn replace_data(&mut self, news: Vec<Option<Vec<u8>>>, Ghost(mapping): Ghost<Seq<(Rva, Rva)>>)
        requires
            news@.len() == old(self).sections@.len(),
            forall|j: int|
                0 <= j < news@.len() ==> match #[trigger] news@[j] {
                    Some(b) => remapped_section(
                        old(self)@,
                        mapping,
                        old(self)@.sections[j],
                    ).0 == (SectionModel { header: old(self)@.sections[j].header, data: b@ }),
                    None => remapped_section(old(self)@, mapping, old(self)@.sections[j]).0
                        == old(self)@.sections[j],
                },
        ensures
            final(self)@ == (DocModel {
                sections: remapped_sections(old(self)@, mapping),
                ..old(self)@
            }),
    {
        let ghost d = self@;
        let mut news = news;
        let mut k: usize = self.sections.len();
        while k > 0
            invariant
                k <= self.sections@.len(),
                d == old(self)@,
                self.sections@.len() == d.sections.len(),
                news@.len() == k,
                self@ == (DocModel { sections: self@.sections, ..d }),
                forall|j: int| 0 <= j < k ==> #[trigger] self@.sections[j] == d.sections[j],
                forall|j: int|
                    k <= j < d.sections.len() ==> #[trigger] self@.sections[j]
                        == remapped_section(d, mapping, d.sections[j]).0,
                forall|j: int|
                    0 <= j < k ==> match #[trigger] news@[j] {
                        Some(b) => remapped_section(d, mapping, d.sections[j]).0 == (
                        SectionModel { header: d.sections[j].header, data: b@ }),
                        None => remapped_section(d, mapping, d.sections[j]).0 == d.sections[j],
                    },
            decreases k,
        {
            let ghost prev = self@.sections;
            let ghost last = news@[k - 1];
            let x = news.pop();
            k = k - 1;
            assert(self@.sections[k as int] == d.sections[k as int]);
            if let Some(Some(data)) = x {
                self.sections[k].data = data;
            }
            assert(self@.sections =~= prev.update(
                k as int,
                remapped_section(d, mapping, d.sections[k as int]).0,
            ));
        }
        assert(self@.sections =~= remapped_sections(d, mapping));
    }
}

} // verus!
