//! Which slots the code-reference scan finds, and which references are moved.

use crate::api::iat_scanner::{
    clipped, code_entries, code_scan, in_data, in_data_section, is_code, moved_displacement,
    new_slot, put_entry, referenced, remap_keeps_lengths, remapped_code, remapped_sections,
    rewritten, slot_entry, slot_target, thunk_at, window, window_end, wrapped,
};
use crate::api::resolver::ImportResolver;
use crate::api::scan_laws::all_stand;
use crate::disasm::{decoded, reencoded, InsnKind, InsnModel};
use crate::domain::document::{lemma_len32, DocModel};
use crate::domain::iat::{IatEntry, ScanOptions};
use crate::domain::optional::header_image_base;
use crate::domain::section::SectionModel;
use crate::domain::types::{pointer_size, Arch, Rva};
use crate::io::pe::laws::headers::lemma_low;
use vstd::prelude::*;

verus! {

/// Whether an instruction refers to the slot at `r`: it is a call, jump, push,
/// move or address load whose memory operand is relative to the instruction
/// pointer and has that address, or is absolute and has that address in the
/// loaded image.
pub open spec fn refers_to(i: InsnModel, image_base: u64, r: u32) -> bool {
    &&& i.kind == InsnKind::Call || i.kind == InsnKind::Jmp || i.kind == InsnKind::Push || i.kind
        == InsnKind::Mov || i.kind == InsnKind::Lea
    &&& if i.ip_relative {
        i.ip_target == r
    } else {
        i.memory_operands.contains(true) && !i.has_base && !i.has_index && i.displacement
            == image_base + r
    }
}

/// The slot that an instruction refers to is the one that its operand addresses.
pub proof fn instructions_refer_to_their_operand(i: InsnModel, image_base: u64, r: u32)
    ensures
        slot_target(i, image_base) == Some(r) <==> refers_to(i, image_base, r),
{
}

/// Whether a section's flags mark it as code or as executable.
pub open spec fn marked_code(s: SectionModel) -> bool {
    s.header.characteristics & 0x2000_0020 != 0
}

/// Whether there can be a slot at `r`: it is aligned to the size of a pointer and
/// lies in the bytes of a section that is no code, and the pointer there can be
/// read.
pub open spec fn may_be_slot(d: DocModel, r: u32) -> bool {
    &&& r as int % (match d.arch {
        Arch::Bit64 => 8int,
        Arch::Bit32 => 4,
    }) == 0
    &&& exists|i: int|
        0 <= i < d.sections.len() && (#[trigger] d.sections[i]).header.virtual_address.0 <= r
            < d.sections[i].header.virtual_address.0 + d.sections[i].data.len() && !marked_code(
            d.sections[i],
        )
    &&& thunk_at(d.sections, r, pointer_size(d.arch)) is Some
}

/// The entry of the slot at `r`.
pub open spec fn entry_of(d: DocModel, r: u32) -> IatEntry {
    IatEntry { rva: Rva(r), value: thunk_at(d.sections, r, pointer_size(d.arch))->0 }
}

proof fn lemma_marked(s: SectionModel)
    ensures
        is_code(s) == marked_code(s),
{
    assert(0x20u32 | 0x2000_0000u32 == 0x2000_0020u32) by (bit_vector);
}

/// A slot counts if it may be one and, where slots are validated, its value
/// resolves.
pub proof fn slots_lie_in_data<R: ImportResolver>(d: DocModel, res: &R, o: ScanOptions, r: u32)
    requires
        forall|j: int| 0 <= j < d.sections.len() ==> (#[trigger] d.sections[j]).data.len()
            <= u32::MAX,
    ensures
        slot_entry(d, r, res, o) == if may_be_slot(d, r) && (o.validate_slots ==> res.target(
            entry_of(d, r).value,
        ) is Some) {
            Some(entry_of(d, r))
        } else {
            None
        },
{
    assert(in_data(d.sections, r) == exists|i: int|
        0 <= i < d.sections.len() && (#[trigger] d.sections[i]).header.virtual_address.0 <= r
            < d.sections[i].header.virtual_address.0 + d.sections[i].data.len() && !marked_code(
            d.sections[i],
        )) by {
        assert forall|i: int| 0 <= i < d.sections.len() implies in_data_section(
            #[trigger] d.sections[i],
            r,
        ) == (d.sections[i].header.virtual_address.0 <= r
            < d.sections[i].header.virtual_address.0 + d.sections[i].data.len() && !marked_code(
            d.sections[i],
        )) by {
            lemma_marked(d.sections[i]);
            lemma_len32(d.sections[i]);
        }
    }
}

/// Where instruction `n` of the code from `pos` on begins, each behind the one
/// before it.
pub open spec fn start_of(arch: Arch, data: Seq<u8>, ip: u32, pos: nat, n: nat) -> Option<nat>
    decreases n,
{
    if pos >= data.len() {
        None
    } else if n == 0 {
        Some(pos)
    } else {
        let i = insn_at(arch, data, ip, pos);
        if i.len == 0 || pos + i.len > data.len() {
            None
        } else {
            start_of(arch, data, ip, pos + i.len, (n - 1) as nat)
        }
    }
}

/// The instruction at `pos` of code whose first byte has the address `ip`.
pub open spec fn insn_at(arch: Arch, data: Seq<u8>, ip: u32, pos: nat) -> InsnModel {
    decoded(
        match arch {
            Arch::Bit64 => 64,
            Arch::Bit32 => 32,
        },
        data.skip(pos as int),
        (ip + pos) as u64,
    )
}

/// Putting an entry that stands keeps the entries that stand.
proof fn lemma_put_keeps(
    sections: Seq<SectionModel>,
    ps: nat,
    s: Seq<IatEntry>,
    e: IatEntry,
)
    requires
        all_stand(sections, ps, s),
        thunk_at(sections, e.rva.0, ps) == Some(e.value),
    ensures
        put_entry(s, e).contains(e),
        forall|x: IatEntry| #[trigger] s.contains(x) ==> put_entry(s, e).contains(x),
        forall|x: IatEntry| #[trigger]
            put_entry(s, e).contains(x) ==> x == e || s.contains(x),
        all_stand(sections, ps, put_entry(s, e)),
    decreases s.len(),
{
    let r = put_entry(s, e);
    if s.len() == 0 {
        assert(r[0] == e);
    } else {
        let t = s.drop_last();
        let l = s.len() - 1;
        assert forall|i: int| 0 <= i < t.len() implies thunk_at(
            sections,
            (#[trigger] t[i]).rva.0,
            ps,
        ) == Some(t[i].value) by {
            assert(t[i] == s[i]);
        }
        assert(thunk_at(sections, s[l].rva.0, ps) == Some(s[l].value));
        lemma_put_keeps(sections, ps, t, e);
        let q = put_entry(t, e);
        if s.last().rva.0 < e.rva.0 {
            assert(r[l + 1] == e);
            assert forall|x: IatEntry| #[trigger] s.contains(x) implies r.contains(x) by {
                let i = choose|i: int| 0 <= i < s.len() && s[i] == x;
                assert(r[i] == x);
            }
            assert forall|x: IatEntry| #[trigger] r.contains(x) implies x == e || s.contains(x) by {
                let i = choose|i: int| 0 <= i < r.len() && r[i] == x;
                if i <= l {
                    assert(s[i] == x);
                }
            }
        } else if s.last().rva.0 == e.rva.0 {
            assert(s.last() == e);
            assert(r =~= s);
            assert(s[l] == e);
        } else {
            assert(q.contains(e));
            let k = choose|k: int| 0 <= k < q.len() && q[k] == e;
            assert(r[k] == e);
            assert forall|x: IatEntry| #[trigger] s.contains(x) implies r.contains(x) by {
                let i = choose|i: int| 0 <= i < s.len() && s[i] == x;
                if i < l {
                    assert(t[i] == x);
                    assert(t.contains(x));
                    let j = choose|j: int| 0 <= j < q.len() && q[j] == x;
                    assert(r[j] == x);
                } else {
                    assert(r[q.len() as int] == x);
                }
            }
            assert forall|x: IatEntry| #[trigger] r.contains(x) implies x == e || s.contains(x) by {
                let i = choose|i: int| 0 <= i < r.len() && r[i] == x;
                if i < q.len() {
                    assert(q[i] == x);
                    assert(q.contains(x));
                    if x != e {
                        let j = choose|j: int| 0 <= j < t.len() && t[j] == x;
                        assert(s[j] == x);
                    }
                } else {
                    assert(s[l] == x);
                }
            }
            assert(all_stand(sections, ps, r)) by {
                assert forall|i: int| 0 <= i < r.len() implies thunk_at(
                    sections,
                    (#[trigger] r[i]).rva.0,
                    ps,
                ) == Some(r[i].value) by {
                    if i < q.len() {
                        assert(r[i] == q[i]);
                    }
                }
            }
        }
    }
}

/// The entry that the instruction at `pos` adds, if it adds one.
spec fn own_entry<R: ImportResolver>(
    d: DocModel,
    res: &R,
    o: ScanOptions,
    data: Seq<u8>,
    ip: u32,
    pos: nat,
) -> Option<IatEntry> {
    match slot_target(insn_at(d.arch, data, ip, pos), header_image_base(d.optional)) {
        Some(r) => slot_entry(d, r, res, o),
        None => None,
    }
}

proof fn lemma_own_stands<R: ImportResolver>(
    d: DocModel,
    res: &R,
    o: ScanOptions,
    data: Seq<u8>,
    ip: u32,
    pos: nat,
)
    ensures
        own_entry(d, res, o, data, ip, pos) matches Some(e) ==> thunk_at(
            d.sections,
            e.rva.0,
            pointer_size(d.arch),
        ) == Some(e.value),
{
}

/// Walking code keeps what was found and adds what its instructions refer to.
proof fn lemma_walk<R: ImportResolver>(
    d: DocModel,
    res: &R,
    o: ScanOptions,
    data: Seq<u8>,
    ip: u32,
    pos: nat,
    found: Seq<IatEntry>,
)
    requires
        all_stand(d.sections, pointer_size(d.arch), found),
    ensures
        ({
            let all = referenced(d, res, o, data, ip, pos, found);
            &&& all_stand(d.sections, pointer_size(d.arch), all)
            &&& forall|x: IatEntry| #[trigger] found.contains(x) ==> all.contains(x)
            &&& forall|n: nat|
                (#[trigger] start_of(d.arch, data, ip, pos, n) matches Some(p) && own_entry(
                    d,
                    res,
                    o,
                    data,
                    ip,
                    p,
                ) is Some) ==> all.contains(
                    own_entry(d, res, o, data, ip, start_of(d.arch, data, ip, pos, n)->0)->0,
                )
            &&& forall|x: IatEntry| #[trigger]
                all.contains(x) ==> found.contains(x) || exists|n: nat|
                    (#[trigger] start_of(d.arch, data, ip, pos, n) matches Some(p) && own_entry(
                        d,
                        res,
                        o,
                        data,
                        ip,
                        p,
                    ) == Some(x))
        }),
    decreases data.len() - pos,
{
    let ps = pointer_size(d.arch);
    let all = referenced(d, res, o, data, ip, pos, found);
    if pos < data.len() {
        let i = insn_at(d.arch, data, ip, pos);
        let own = own_entry(d, res, o, data, ip, pos);
        lemma_own_stands(d, res, o, data, ip, pos);
        let next = match own {
            Some(e) => put_entry(found, e),
            None => found,
        };
        if let Some(e) = own {
            lemma_put_keeps(d.sections, ps, found, e);
        }
        let on = i.len > 0 && pos + i.len <= data.len();
        if on {
            lemma_walk(d, res, o, data, ip, pos + i.len, next);
            assert(all == referenced(d, res, o, data, ip, pos + i.len, next));
        } else {
            assert(all == next);
        }
        assert(start_of(d.arch, data, ip, pos, 0) == Some(pos));
        assert forall|n: nat|
            (#[trigger] start_of(d.arch, data, ip, pos, n) matches Some(p) && own_entry(
                d,
                res,
                o,
                data,
                ip,
                p,
            ) is Some) implies all.contains(
            own_entry(d, res, o, data, ip, start_of(d.arch, data, ip, pos, n)->0)->0,
        ) by {
            if n == 0 {
                assert(next.contains(own->0));
            } else {
                let m = (n - 1) as nat;
                assert(start_of(d.arch, data, ip, pos, n) == start_of(
                    d.arch,
                    data,
                    ip,
                    pos + i.len,
                    m,
                ));
            }
        }
        assert forall|x: IatEntry| #[trigger] all.contains(x) implies found.contains(x) || exists|
            n: nat,
        |
            (#[trigger] start_of(d.arch, data, ip, pos, n) matches Some(p) && own_entry(
                d,
                res,
                o,
                data,
                ip,
                p,
            ) == Some(x)) by {
            if !found.contains(x) {
                if next.contains(x) {
                    assert(own == Some(x));
                    assert(start_of(d.arch, data, ip, pos, 0) == Some(pos));
                } else {
                    let m = choose|m: nat|
                        (#[trigger] start_of(d.arch, data, ip, pos + i.len, m) matches Some(p)
                            && own_entry(d, res, o, data, ip, p) == Some(x));
                    assert(start_of(d.arch, data, ip, pos, m + 1) == start_of(
                        d.arch,
                        data,
                        ip,
                        pos + i.len,
                        m,
                    ));
                }
            }
        }
    }
}

/// The code of section `k` inside the window from `start` up to `end`, and its
/// address.
pub open spec fn code_of(d: DocModel, start: int, end: int, k: int) -> (Seq<u8>, int) {
    let s = d.sections[k];
    let va = s.header.virtual_address.0 as int;
    let lo = if va < start {
        start
    } else {
        va
    };
    let last = if va + s.data.len() < u32::MAX {
        va + s.data.len()
    } else {
        u32::MAX as int
    };
    let hi = if last < end {
        last
    } else {
        end
    };
    if marked_code(s) && lo < hi {
        (s.data.subrange(lo - va, hi - va), lo)
    } else {
        (Seq::empty(), lo)
    }
}

/// Whether instruction `n` of section `k`'s code in the window refers to `r`.
pub open spec fn code_refers(d: DocModel, start: int, end: int, k: int, n: nat, r: u32) -> bool {
    let (data, ip) = code_of(d, start, end, k);
    &&& 0 <= k < d.sections.len()
    &&& start_of(d.arch, data, ip as u32, 0, n) matches Some(p) && refers_to(
        insn_at(d.arch, data, ip as u32, p),
        header_image_base(d.optional),
        r,
    )
}

/// Whether the slot at `r` counts under the options.
pub open spec fn counts<R: ImportResolver>(d: DocModel, res: &R, o: ScanOptions, r: u32) -> bool {
    may_be_slot(d, r) && (o.validate_slots ==> res.target(entry_of(d, r).value) is Some)
}

proof fn lemma_code<R: ImportResolver>(
    d: DocModel,
    res: &R,
    o: ScanOptions,
    start: u32,
    end: u32,
    n: nat,
)
    requires
        n <= d.sections.len(),
        forall|j: int| 0 <= j < d.sections.len() ==> (#[trigger] d.sections[j]).data.len()
            <= u32::MAX,
    ensures
        ({
            let all = code_entries(d, res, o, start, end, n);
            &&& all_stand(d.sections, pointer_size(d.arch), all)
            &&& forall|k: int, m: nat, r: u32|
                k < n && #[trigger] code_refers(d, start as int, end as int, k, m, r) && counts(
                    d,
                    res,
                    o,
                    r,
                ) ==> all.contains(entry_of(d, r))
            &&& forall|x: IatEntry| #[trigger]
                all.contains(x) ==> x == entry_of(d, x.rva.0) && counts(d, res, o, x.rva.0)
                    && exists|k: int, m: nat| #[trigger]
                    code_refers(d, start as int, end as int, k, m, x.rva.0)
        }),
    decreases n,
{
    if n > 0 {
        let k = n - 1;
        let before = code_entries(d, res, o, start, end, k as nat);
        lemma_code(d, res, o, start, end, k as nat);
        let all = code_entries(d, res, o, start, end, n);
        let s = d.sections[k];
        lemma_marked(s);
        lemma_len32(s);
        let (data, ip) = code_of(d, start as int, end as int, k);
        let (lo, hi) = clipped(s, start, end);
        if is_code(s) && hi > lo {
            let off = lo - s.header.virtual_address.0;
            assert(data == s.data.subrange(off, off + (hi - lo)));
            assert(ip == lo);
            lemma_walk(d, res, o, data, lo, 0, before);
            assert(all == referenced(d, res, o, data, lo, 0, before));
        } else {
            assert(all == before);
            assert(data.len() == 0);
        }
        assert forall|j: int, m: nat, r: u32|
            j < n && #[trigger] code_refers(d, start as int, end as int, j, m, r) && counts(
                d,
                res,
                o,
                r,
            ) implies all.contains(entry_of(d, r)) by {
            if j < k {
                assert(before.contains(entry_of(d, r)));
            } else {
                let p = start_of(d.arch, data, ip as u32, 0, m)->0;
                instructions_refer_to_their_operand(
                    insn_at(d.arch, data, ip as u32, p),
                    header_image_base(d.optional),
                    r,
                );
                slots_lie_in_data(d, res, o, r);
                assert(own_entry(d, res, o, data, lo, p) == Some(entry_of(d, r)));
            }
        }
        assert forall|x: IatEntry| #[trigger] all.contains(x) implies x == entry_of(d, x.rva.0)
            && counts(d, res, o, x.rva.0) && exists|k: int, m: nat| #[trigger]
            code_refers(d, start as int, end as int, k, m, x.rva.0) by {
            if !before.contains(x) {
                let m = choose|m: nat|
                    (#[trigger] start_of(d.arch, data, lo, 0, m) matches Some(p) && own_entry(
                        d,
                        res,
                        o,
                        data,
                        lo,
                        p,
                    ) == Some(x));
                let p = start_of(d.arch, data, lo, 0, m)->0;
                let r = slot_target(
                    insn_at(d.arch, data, lo, p),
                    header_image_base(d.optional),
                )->0;
                instructions_refer_to_their_operand(
                    insn_at(d.arch, data, lo, p),
                    header_image_base(d.optional),
                    r,
                );
                slots_lie_in_data(d, res, o, r);
                assert(x.rva.0 == r);
                assert(code_refers(d, start as int, end as int, k, m, r));
            }
        }
    }
}

/// Where a window ends, at the latest at the top of the address space.
pub open spec fn end_of(start: u32, len: nat) -> int {
    if start + len < u32::MAX {
        start + len
    } else {
        u32::MAX as int
    }
}

/// The code-reference scan finds a slot if and only if it counts and an
/// instruction refers to it, in the code of a section inside the window; and it
/// gives the value that the slot holds.
pub proof fn code_scan_finds_what_code_refers_to<R: ImportResolver>(
    d: DocModel,
    res: &R,
    o: ScanOptions,
    start: u32,
    len: nat,
    e: IatEntry,
)
    requires
        window(d, o) == Ok::<(u32, nat), crate::error::PeErrorModel>((start, len)),
        len <= u32::MAX,
        forall|j: int| 0 <= j < d.sections.len() ==> (#[trigger] d.sections[j]).data.len()
            <= u32::MAX,
        code_scan(d, res, o) is Ok,
    ensures
        ({
            let end = end_of(start, len);
            code_scan(d, res, o)->Ok_0.entries.contains(e) <==> counts(d, res, o, e.rva.0) && e
                == entry_of(d, e.rva.0) && exists|k: int, m: nat| #[trigger]
                code_refers(d, start as int, end, k, m, e.rva.0)
        }),
{
    lemma_low(len);
    let end = window_end(start, len);
    assert(end as int == end_of(start, len));
    lemma_code(d, res, o, start, end, d.sections.len());
    let all = code_entries(d, res, o, start, end, d.sections.len());
    assert(code_scan(d, res, o)->Ok_0.entries == all);
    if counts(d, res, o, e.rva.0) && e == entry_of(d, e.rva.0) && exists|k: int, m: nat| #[trigger]
        code_refers(d, start as int, end as int, k, m, e.rva.0) {
        let (k, m) = choose|k: int, m: nat| #[trigger]
            code_refers(d, start as int, end as int, k, m, e.rva.0);
        assert(all.contains(entry_of(d, e.rva.0)));
    }
}

/// A slot moves to where the last pair that names it says; one that no pair names
/// stays.
pub proof fn last_pair_moves_the_slot(mapping: Seq<(Rva, Rva)>, r: u32, i: int)
    ensures
        (forall|j: int| 0 <= j < mapping.len() ==> (#[trigger] mapping[j]).0 != Rva(r))
            ==> new_slot(mapping, r) is None,
        0 <= i < mapping.len() && mapping[i].0 == Rva(r) && (forall|j: int|
            i < j < mapping.len() ==> (#[trigger] mapping[j]).0 != Rva(r)) ==> new_slot(mapping, r)
            == Some(mapping[i].1.0),
    decreases mapping.len(),
{
    if mapping.len() > 0 {
        let d = mapping.drop_last();
        last_pair_moves_the_slot(d, r, i);
        assert forall|j: int| 0 <= j < d.len() implies d[j] == mapping[j] by {}
        if forall|j: int| 0 <= j < mapping.len() ==> (#[trigger] mapping[j]).0 != Rva(r) {
            assert(mapping[mapping.len() - 1].0 != Rva(r));
            assert forall|j: int| 0 <= j < d.len() implies (#[trigger] d[j]).0 != Rva(r) by {
                assert(mapping[j].0 != Rva(r));
            }
        }
        if 0 <= i < mapping.len() - 1 && mapping[i].0 == Rva(r) && (forall|j: int|
            i < j < mapping.len() ==> (#[trigger] mapping[j]).0 != Rva(r)) {
            assert(mapping[mapping.len() - 1].0 != Rva(r));
            assert(d[i].0 == Rva(r));
            assert forall|j: int| i < j < d.len() implies (#[trigger] d[j]).0 != Rva(r) by {
                assert(mapping[j].0 != Rva(r));
            }
        }
    }
}

/// Instruction `n` of remapped code is its encoding with the new slot's address
/// where it referred to a slot that moves and that encoding is as long as it
/// was; every other instruction stays as it is.
pub proof fn moved_references_follow_their_slot(
    d: DocModel,
    mapping: Seq<(Rva, Rva)>,
    data: Seq<u8>,
    va: u32,
    pos: nat,
    n: nat,
)
    requires
        data.len() <= u32::MAX,
        start_of(d.arch, data, va, pos, n) is Some,
    ensures
        ({
            let base = header_image_base(d.optional);
            let p = start_of(d.arch, data, va, pos, n)->0;
            let i = insn_at(d.arch, data, va, p);
            let bitness = match d.arch {
                Arch::Bit64 => 64u32,
                Arch::Bit32 => 32u32,
            };
            let all = remapped_code(d, mapping, data, va, pos).0;
            let now = all.subrange(p - pos, p - pos + i.len);
            let was = data.subrange(p as int, (p + i.len) as int);
            &&& pos <= p
            &&& i.len > 0 && p + i.len <= data.len() ==> {
                &&& (forall|r: u32|
                    #![trigger new_slot(mapping, r)]
                    refers_to(i, base, r) ==> new_slot(mapping, r) is None) ==> now == was
                &&& forall|r: u32|
                    #![trigger new_slot(mapping, r)]
                    refers_to(i, base, r) ==> (new_slot(mapping, r) matches Some(to) ==> ({
                        let target = if i.ip_relative {
                            to as u64
                        } else {
                            ((base + to) % 0x1_0000_0000_0000_0000) as u64
                        };
                        let enc = reencoded(bitness, data.skip(p as int), (va + p) as u64, target);
                        now == if enc is Some && enc->0.len() == i.len {
                            enc->0
                        } else {
                            was
                        }
                    }))
            }
        }),
    decreases n,
{
    let i = insn_at(d.arch, data, va, pos);
    assert(wrapped(va as int, pos as int) == (va + pos) as u64);
    let all = remapped_code(d, mapping, data, va, pos).0;
    remap_keeps_lengths(d, mapping, data, va, pos);
    if n == 0 {
        if i.len > 0 && pos + i.len <= data.len() {
            let base = header_image_base(d.optional);
            let rest = remapped_code(d, mapping, data, va, pos + i.len).0;
            let own = rewritten(d, mapping, data, va, pos);
            let was = data.subrange(pos as int, (pos + i.len) as int);
            let first = match own {
                Some(b) => b,
                None => was,
            };
            assert(all == first + rest);
            assert(first.len() == i.len);
            assert(all.subrange(0, i.len as int) =~= first);
            match slot_target(i, base) {
                Some(r) => {
                    instructions_refer_to_their_operand(i, base, r);
                    if new_slot(mapping, r) is None {
                        assert(moved_displacement(i, base, mapping) is None);
                    }
                },
                None => {
                    assert(moved_displacement(i, base, mapping) is None);
                },
            }
            assert forall|r: u32| #[trigger] refers_to(i, base, r) implies slot_target(i, base)
                == Some(r) by {
                instructions_refer_to_their_operand(i, base, r);
            }
        }
    } else {
        let m = (n - 1) as nat;
        moved_references_follow_their_slot(d, mapping, data, va, pos + i.len, m);
        let p = start_of(d.arch, data, va, pos, n)->0;
        let rest = remapped_code(d, mapping, data, va, pos + i.len).0;
        remap_keeps_lengths(d, mapping, data, va, pos + i.len);
        let j = insn_at(d.arch, data, va, p);
        if j.len > 0 && p + j.len <= data.len() {
            let first = all.take(i.len as int);
            assert(all =~= first + rest);
            assert(all.subrange(p - pos, p - pos + j.len) =~= rest.subrange(
                p - (pos + i.len),
                p - (pos + i.len) + j.len,
            ));
        }
    }
}

/// Only the bytes of code sections are remapped.
pub proof fn remapping_touches_code_only(d: DocModel, mapping: Seq<(Rva, Rva)>, k: int)
    requires
        0 <= k < d.sections.len(),
    ensures
        ({
            let s = remapped_sections(d, mapping);
            &&& s.len() == d.sections.len()
            &&& s[k].header == d.sections[k].header
            &&& s[k].data.len() == d.sections[k].data.len()
            &&& !marked_code(d.sections[k]) ==> s[k] == d.sections[k]
            &&& marked_code(d.sections[k]) ==> s[k].data == remapped_code(
                d,
                mapping,
                d.sections[k].data,
                d.sections[k].header.virtual_address.0,
                0,
            ).0
        }),
{
    let s = d.sections[k];
    lemma_marked(s);
    remap_keeps_lengths(d, mapping, s.data, s.header.virtual_address.0, 0);
}

} // verus!
