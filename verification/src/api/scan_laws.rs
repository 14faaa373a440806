//! What every scan of an image keeps of it.

use crate::api::iat_scanner::{
    bits, clipped, code_entries, code_scan, dword, extent, iat_dir_entries, iat_walk_end,
    overwritten_entries, put_entry, referenced, runs, scanned, slot_entry, slot_target,
    thunk_array_entries, thunk_at, window, window_end, window_slots,
};
use crate::api::resolver::ImportResolver;
use crate::disasm::decoded;
use crate::domain::data_directory::{DataDirectory, DataDirectoryIndex};
use crate::domain::document::{image_read, section_end, DocModel};
use crate::domain::iat::{IatEntry, ScanMethod, ScanOptions};
use crate::domain::optional::header_image_base;
use crate::domain::section::SectionModel;
use crate::domain::types::pointer_size;
use crate::error::PeErrorModel;
use crate::io::pe::decode::present_directory;
use crate::sorting::{stable_sort, stable_sort_sorts};
use vstd::prelude::*;
use vstd::seq_lib::*;

verus! {

/// Whether every entry is a slot of the image with the value that it holds.
pub open spec fn all_stand(sections: Seq<SectionModel>, ps: nat, s: Seq<IatEntry>) -> bool {
    forall|i: int|
        0 <= i < s.len() ==> thunk_at(sections, (#[trigger] s[i]).rva.0, ps) == Some(s[i].value)
}

/// Whether every entry resolves.
pub open spec fn all_resolve<R: ImportResolver>(res: &R, s: Seq<IatEntry>) -> bool {
    forall|i: int| 0 <= i < s.len() ==> res.target((#[trigger] s[i]).value) is Some
}

proof fn lemma_runs_stand<R: ImportResolver>(
    sections: Seq<SectionModel>,
    ps: nat,
    start: u32,
    res: &R,
    o: ScanOptions,
    n: nat,
)
    ensures
        runs(sections, ps, start, res, o, n).best matches Some(r) ==> all_stand(sections, ps, r),
        runs(sections, ps, start, res, o, n).current matches Some(r) ==> all_stand(
            sections,
            ps,
            r,
        ),
    decreases n,
{
    if n > 0 {
        lemma_runs_stand(sections, ps, start, res, o, (n - 1) as nat);
    }
}

/// Every entry of a list into which `e` was put was there before, or is `e`.
proof fn lemma_put_entry_from(s: Seq<IatEntry>, e: IatEntry)
    ensures
        forall|i: int|
            0 <= i < put_entry(s, e).len() ==> (#[trigger] put_entry(s, e)[i]) == e || s.contains(
                put_entry(s, e)[i],
            ),
    decreases s.len(),
{
    let r = put_entry(s, e);
    if s.len() > 0 {
        let t = s.drop_last();
        lemma_put_entry_from(t, e);
        assert forall|i: int| 0 <= i < r.len() implies (#[trigger] r[i]) == e || s.contains(
            r[i],
        ) by {
            if s.last().rva.0 < e.rva.0 {
                if i < s.len() {
                    assert(s[i] == r[i]);
                }
            } else if s.last().rva.0 == e.rva.0 {
                if i < t.len() {
                    assert(s[i] == r[i]);
                }
            } else {
                let q = put_entry(t, e);
                if i < q.len() {
                    assert(r[i] == q[i]);
                    if q[i] != e {
                        let j = choose|j: int| 0 <= j < t.len() && t[j] == q[i];
                        assert(s[j] == r[i]);
                    }
                } else {
                    assert(r[i] == s[s.len() - 1]);
                }
            }
        }
    }
}

proof fn lemma_referenced_stand<R: ImportResolver>(
    d: DocModel,
    res: &R,
    o: ScanOptions,
    data: Seq<u8>,
    ip: u32,
    pos: nat,
    found: Seq<IatEntry>,
)
    requires
        all_stand(d.sections, pointer_size(d.arch), found),
        o.validate_slots ==> all_resolve(res, found),
    ensures
        all_stand(
            d.sections,
            pointer_size(d.arch),
            referenced(d, res, o, data, ip, pos, found),
        ),
        o.validate_slots ==> all_resolve(res, referenced(d, res, o, data, ip, pos, found)),
    decreases data.len() - pos,
{
    if pos < data.len() {
        let i = decoded(bits(d.arch), data.skip(pos as int), (ip + pos) as u64);
        let next = match slot_target(i, header_image_base(d.optional)) {
            None => found,
            Some(r) => match slot_entry(d, r, res, o) {
                None => found,
                Some(e) => put_entry(found, e),
            },
        };
        if let Some(r) = slot_target(i, header_image_base(d.optional)) {
            if let Some(e) = slot_entry(d, r, res, o) {
                lemma_put_entry_from(found, e);
            }
        }
        assert(all_stand(d.sections, pointer_size(d.arch), next));
        assert(o.validate_slots ==> all_resolve(res, next));
        if i.len > 0 && pos + i.len <= data.len() {
            lemma_referenced_stand(d, res, o, data, ip, pos + i.len, next);
        }
    }
}

proof fn lemma_code_stand<R: ImportResolver>(
    d: DocModel,
    res: &R,
    o: ScanOptions,
    start: u32,
    end: u32,
    n: nat,
)
    ensures
        all_stand(d.sections, pointer_size(d.arch), code_entries(d, res, o, start, end, n)),
        o.validate_slots ==> all_resolve(res, code_entries(d, res, o, start, end, n)),
    decreases n,
{
    if n > 0 {
        lemma_code_stand(d, res, o, start, end, (n - 1) as nat);
        let found = code_entries(d, res, o, start, end, (n - 1) as nat);
        let s = d.sections[n - 1];
        let (lo, hi) = clipped(s, start, end);
        let off = lo - s.header.virtual_address.0;
        lemma_referenced_stand(d, res, o, s.data.subrange(off, off + (hi - lo)), lo, 0, found);
    }
}

proof fn lemma_array_stand(sections: Seq<SectionModel>, addr: int, ps: nat)
    ensures
        all_stand(sections, ps, thunk_array_entries(sections, addr, ps)),
    decreases 0x1_0000_0020 - addr,
{
    if !(addr < 0 || addr > u32::MAX || ps == 0 || ps > 8) {
        if let Some(v) = thunk_at(sections, addr as u32, ps) {
            if v != 0 {
                lemma_array_stand(sections, addr + ps, ps);
            }
        }
    }
}

proof fn lemma_overwritten_stand(sections: Seq<SectionModel>, addr: int, ps: nat)
    ensures
        all_stand(sections, ps, overwritten_entries(sections, addr, ps)),
    decreases 0x1_0000_0020 - addr,
{
    if !(addr < 0 || addr > u32::MAX) {
        if let Some(b) = image_read(sections, addr as u32, 20) {
            lemma_array_stand(sections, dword(b, 16) as int, ps);
            lemma_overwritten_stand(sections, addr + 20, ps);
        }
    }
}

proof fn lemma_iat_dir_stand(
    sections: Seq<SectionModel>,
    dd: DataDirectory,
    ps: nat,
    off: nat,
)
    ensures
        all_stand(sections, ps, iat_dir_entries(sections, dd, ps, off)),
    decreases iat_walk_end(dd) + 16 - off,
{
    if !(off >= iat_walk_end(dd) || ps == 0 || ps > 8) {
        lemma_iat_dir_stand(sections, dd, ps, off + ps);
    }
}

proof fn lemma_sorted_stand(sections: Seq<SectionModel>, ps: nat, s: Seq<IatEntry>)
    requires
        all_stand(sections, ps, s),
    ensures
        all_stand(sections, ps, stable_sort(s)),
{
    let t = stable_sort(s);
    stable_sort_sorts(s);
    assert forall|i: int| 0 <= i < t.len() implies thunk_at(
        sections,
        (#[trigger] t[i]).rva.0,
        ps,
    ) == Some(t[i].value) by {
        t.to_multiset_ensures();
        s.to_multiset_ensures();
        assert(t.contains(t[i]));
        assert(t.to_multiset().count(t[i]) > 0);
        assert(s.contains(t[i]));
        let j = choose|j: int| 0 <= j < s.len() && s[j] == t[i];
        assert(s[j] == t[i]);
    }
}

/// Whatever the method, every entry that a scan finds is a slot of the image
/// with the value that it holds.
pub proof fn scanned_slots_stand<R: ImportResolver>(d: DocModel, res: &R, o: ScanOptions)
    requires
        scanned(d, res, o) is Ok,
    ensures
        all_stand(d.sections, pointer_size(d.arch), scanned(d, res, o)->Ok_0.entries),
{
    let ps = pointer_size(d.arch);
    match o.method {
        ScanMethod::Resolver => {
            let (start, len) = window(d, o)->Ok_0;
            lemma_runs_stand(d.sections, ps, start, res, o, window_slots(len, ps));
        },
        ScanMethod::CodeReference => {
            let (start, len) = window(d, o)->Ok_0;
            lemma_code_stand(d, res, o, start, window_end(start, len), d.sections.len());
        },
        ScanMethod::Reflection => {
            match present_directory(d.data_directories, DataDirectoryIndex::Import) {
                Some(dd) => {
                    lemma_overwritten_stand(d.sections, dd.rva.0 as int, ps);
                    lemma_sorted_stand(
                        d.sections,
                        ps,
                        overwritten_entries(d.sections, dd.rva.0 as int, ps),
                    );
                },
                None => {
                    let dd = present_directory(d.data_directories, DataDirectoryIndex::Iat)->0;
                    lemma_iat_dir_stand(d.sections, dd, ps, 0);
                    lemma_sorted_stand(d.sections, ps, iat_dir_entries(d.sections, dd, ps, 0));
                },
            }
        },
    }
}

/// A code-reference scan that validates its slots gives only slots that
/// resolve.
pub proof fn code_scan_entries_resolve<R: ImportResolver>(d: DocModel, res: &R, o: ScanOptions)
    requires
        code_scan(d, res, o) is Ok,
        o.validate_slots,
    ensures
        all_resolve(res, code_scan(d, res, o)->Ok_0.entries),
{
    let (start, len) = window(d, o)->Ok_0;
    lemma_code_stand(d, res, o, start, window_end(start, len), d.sections.len());
}

/// A scan begins at its first entry and counts all of them.
pub proof fn scans_begin_at_their_first_entry<R: ImportResolver>(
    d: DocModel,
    res: &R,
    o: ScanOptions,
)
    requires
        scanned(d, res, o) is Ok,
    ensures
        scanned(d, res, o)->Ok_0.base_rva == scanned(d, res, o)->Ok_0.entries[0].rva,
        scanned(d, res, o)->Ok_0.size == scanned(d, res, o)->Ok_0.entries.len(),
{
}

proof fn lemma_extent(sections: Seq<SectionModel>)
    ensures
        ({
            let (s, e) = extent(sections);
            &&& forall|i: int|
                0 <= i < sections.len() ==> s <= (#[trigger] sections[i]).header.virtual_address.0
                    && section_end(sections[i]) <= e
            &&& sections.len() > 0 ==> exists|i: int|
                0 <= i < sections.len() && s == (#[trigger] sections[i]).header.virtual_address.0
            &&& sections.len() > 0 ==> exists|i: int|
                0 <= i < sections.len() && e == section_end(#[trigger] sections[i])
        }),
    decreases sections.len(),
{
    if sections.len() > 0 {
        let t = sections.drop_last();
        let n = sections.len() - 1;
        lemma_extent(t);
        let (s, e) = extent(sections);
        let (s0, e0) = extent(t);
        assert forall|i: int| 0 <= i < sections.len() implies s <= (
        #[trigger] sections[i]).header.virtual_address.0 && section_end(sections[i]) <= e by {
            if i < n {
                assert(t[i] == sections[i]);
            }
        }
        if s == sections[n].header.virtual_address.0 {
        } else {
            let i = choose|i: int|
                0 <= i < t.len() && s0 == (#[trigger] t[i]).header.virtual_address.0;
            assert(s == sections[i].header.virtual_address.0);
        }
        if e == section_end(sections[n]) {
        } else {
            let i = choose|i: int| 0 <= i < t.len() && e0 == section_end(#[trigger] t[i]);
            assert(e == section_end(sections[i]));
        }
    }
}

/// A scan looks at the region that it is given; without one, from the lowest
/// address of a section to the highest end of one.
pub proof fn scans_look_at_the_whole_image(d: DocModel, o: ScanOptions)
    ensures
        o.region matches Some((rva, len)) ==> window(d, o) == Ok::<_, PeErrorModel>(
            (rva.0, len as nat),
        ),
        o.region is None ==> match window(d, o) {
            Ok((start, len)) => {
                &&& forall|i: int|
                    0 <= i < d.sections.len() ==> start <= (
                    #[trigger] d.sections[i]).header.virtual_address.0 && section_end(
                        d.sections[i],
                    ) <= start + len
                &&& exists|i: int|
                    0 <= i < d.sections.len() && start == (
                    #[trigger] d.sections[i]).header.virtual_address.0
                &&& exists|i: int|
                    0 <= i < d.sections.len() && start + len == section_end(
                        #[trigger] d.sections[i],
                    )
            },
            Err(_) => forall|i: int, j: int|
                0 <= i < d.sections.len() && 0 <= j < d.sections.len() ==> section_end(
                    #[trigger] d.sections[i],
                ) <= (#[trigger] d.sections[j]).header.virtual_address.0 || section_end(
                    d.sections[i],
                ) == 0,
        },
{
    lemma_extent(d.sections);
}

} // verus!
