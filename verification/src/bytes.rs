//! Little-endian numbers, fixed record layouts and byte-sequence building
//! blocks shared by the parser, the writer and the renderers.

use vstd::prelude::*;

verus! {

/// The number a byte sequence stands for, least significant byte first.
pub open spec fn le_value(b: Seq<u8>) -> nat
    decreases b.len(),
{
    if b.len() == 0 {
        0
    } else {
        b[0] as nat + 256 * le_value(b.drop_first())
    }
}

/// The low `w` bytes of `v`, least significant byte first.
pub open spec fn le_bytes(w: nat, v: nat) -> Seq<u8>
    decreases w,
{
    if w == 0 {
        Seq::empty()
    } else {
        seq![(v % 256) as u8] + le_bytes((w - 1) as nat, v / 256)
    }
}

/// `256` to the power `w`: how many values fit in `w` bytes.
pub open spec fn pow256(w: nat) -> nat
    decreases w,
{
    if w == 0 {
        1
    } else {
        256 * pow256((w - 1) as nat)
    }
}

pub proof fn lemma_le_bytes_len(w: nat, v: nat)
    ensures
        le_bytes(w, v).len() == w,
    decreases w,
{
    if w > 0 {
        lemma_le_bytes_len((w - 1) as nat, v / 256);
    }
}

/// Reading back a number that fits in `w` bytes gives the number.
pub proof fn lemma_le_roundtrip(w: nat, v: nat)
    requires
        v < pow256(w),
    ensures
        le_value(le_bytes(w, v)) == v,
        le_bytes(w, v).len() == w,
    decreases w,
{
    lemma_le_bytes_len(w, v);
    if w > 0 {
        let p = pow256((w - 1) as nat);
        assert(v / 256 < p) by (nonlinear_arith)
            requires
                v < 256 * p,
        ;
        lemma_le_roundtrip((w - 1) as nat, v / 256);
        assert(le_bytes(w, v).drop_first() =~= le_bytes((w - 1) as nat, v / 256));
    }
}

/// A `w`-byte sequence stands for a number that fits in `w` bytes.
pub proof fn lemma_le_value_bound(b: Seq<u8>)
    ensures
        le_value(b) < pow256(b.len()),
    decreases b.len(),
{
    if b.len() > 0 {
        lemma_le_value_bound(b.drop_first());
    }
}

pub proof fn lemma_pow256_values()
    ensures
        pow256(0) == 1,
        pow256(1) == 0x100,
        pow256(2) == 0x1_0000,
        pow256(4) == 0x1_0000_0000,
        pow256(8) == 0x1_0000_0000_0000_0000,
{
    reveal_with_fuel(pow256, 9);
}

pub proof fn lemma_pow256_mono(a: nat, b: nat)
    requires
        a <= b,
    ensures
        pow256(a) <= pow256(b),
    decreases b,
{
    if a < b {
        lemma_pow256_mono(a, (b - 1) as nat);
    }
}

/// Total size in bytes of a record whose fields have the widths `ws`.
pub open spec fn layout_size(ws: Seq<u8>) -> nat
    decreases ws.len(),
{
    if ws.len() == 0 {
        0
    } else {
        layout_size(ws.drop_last()) + ws.last() as nat
    }
}

/// The fields of a record, one little-endian number per width, from the start of `b`.
pub open spec fn decode_fields(ws: Seq<u8>, b: Seq<u8>) -> Seq<u64>
    decreases ws.len(),
{
    if ws.len() == 0 {
        Seq::empty()
    } else {
        decode_fields(ws.drop_last(), b).push(
            le_value(b.subrange(layout_size(ws.drop_last()) as int, layout_size(ws) as int)) as u64,
        )
    }
}

/// A record as bytes: each field in turn, little-endian in its width.
pub open spec fn encode_fields(ws: Seq<u8>, vs: Seq<u64>) -> Seq<u8>
    decreases ws.len(),
{
    if ws.len() == 0 {
        Seq::empty()
    } else {
        encode_fields(ws.drop_last(), vs.drop_last()) + le_bytes(ws.last() as nat, vs.last() as nat)
    }
}

/// Every field has a width of at most eight bytes.
pub open spec fn layout_ok(ws: Seq<u8>) -> bool {
    &&& ws.len() <= 0x1000
    &&& forall|i: int| 0 <= i < ws.len() ==> #[trigger] ws[i] <= 8
}

/// Every value fits in its field.
pub open spec fn fields_fit(ws: Seq<u8>, vs: Seq<u64>) -> bool {
    &&& ws.len() == vs.len()
    &&& forall|i: int| 0 <= i < ws.len() ==> #[trigger] vs[i] < pow256(ws[i] as nat)
}

pub proof fn lemma_encode_len(ws: Seq<u8>, vs: Seq<u64>)
    requires
        ws.len() == vs.len(),
    ensures
        encode_fields(ws, vs).len() == layout_size(ws),
    decreases ws.len(),
{
    if ws.len() > 0 {
        lemma_encode_len(ws.drop_last(), vs.drop_last());
        lemma_le_bytes_len(ws.last() as nat, vs.last() as nat);
    }
}

pub proof fn lemma_decode_len(ws: Seq<u8>, b: Seq<u8>)
    ensures
        decode_fields(ws, b).len() == ws.len(),
    decreases ws.len(),
{
    if ws.len() > 0 {
        lemma_decode_len(ws.drop_last(), b);
    }
}

/// Only the first `layout_size` bytes matter to `decode_fields`.
pub proof fn lemma_decode_prefix(ws: Seq<u8>, a: Seq<u8>, b: Seq<u8>)
    requires
        layout_size(ws) <= a.len(),
        layout_size(ws) <= b.len(),
        forall|i: int| 0 <= i < layout_size(ws) ==> a[i] == b[i],
    ensures
        decode_fields(ws, a) == decode_fields(ws, b),
    decreases ws.len(),
{
    if ws.len() > 0 {
        lemma_decode_prefix(ws.drop_last(), a, b);
        let lo = layout_size(ws.drop_last()) as int;
        let hi = layout_size(ws) as int;
        assert(a.subrange(lo, hi) =~= b.subrange(lo, hi));
    }
}

/// Decoding the bytes of a record gives back its values.
pub proof fn lemma_fields_roundtrip(ws: Seq<u8>, vs: Seq<u64>)
    requires
        layout_ok(ws),
        fields_fit(ws, vs),
    ensures
        encode_fields(ws, vs).len() == layout_size(ws),
        decode_fields(ws, encode_fields(ws, vs)) == vs,
    decreases ws.len(),
{
    lemma_encode_len(ws, vs);
    if ws.len() > 0 {
        let ws1 = ws.drop_last();
        let vs1 = vs.drop_last();
        assert forall|i: int| 0 <= i < ws1.len() implies #[trigger] vs1[i] < pow256(ws1[i] as nat) by {
            assert(vs[i] < pow256(ws[i] as nat));
        }
        lemma_fields_roundtrip(ws1, vs1);
        let e = encode_fields(ws, vs);
        let e1 = encode_fields(ws1, vs1);
        lemma_decode_prefix(ws1, e, e1);
        assert(vs[ws.len() - 1] < pow256(ws[ws.len() - 1] as nat));
        lemma_le_roundtrip(ws.last() as nat, vs.last() as nat);
        assert(e.subrange(layout_size(ws1) as int, layout_size(ws) as int) =~= le_bytes(
            ws.last() as nat,
            vs.last() as nat,
        ));
        assert(decode_fields(ws, e) =~= vs);
    } else {
        assert(decode_fields(ws, encode_fields(ws, vs)) =~= vs);
    }
}

pub proof fn lemma_layout_bound(ws: Seq<u8>)
    requires
        layout_ok(ws),
    ensures
        layout_size(ws) <= 8 * ws.len(),
    decreases ws.len(),
{
    if ws.len() > 0 {
        assert(ws[ws.len() - 1] <= 8);
        assert forall|i: int| 0 <= i < ws.drop_last().len() implies #[trigger] ws.drop_last()[i]
            <= 8 by {
            assert(ws[i] <= 8);
        }
        lemma_layout_bound(ws.drop_last());
    }
}

/// Read a little-endian number of `w` bytes at `off`.
pub fn read_le(b: &[u8], off: usize, w: usize) -> (v: u64)
    requires
        w <= 8,
        off + w <= b.len(),
    ensures
        v == le_value(b@.subrange(off as int, off + w)),
{
    let mut v: u64 = 0;
    let mut i: usize = w;
    assert(b@.subrange(off + w, off + w) =~= Seq::empty());
    while i > 0
        invariant
            i <= w,
            w <= 8,
            off + w <= b.len(),
            v == le_value(b@.subrange(off + i, off + w)),
        decreases i,
    {
        let ghost tail = b@.subrange(off + i, off + w);
        let ghost next = b@.subrange(off + i - 1, off + w);
        proof {
            lemma_le_value_bound(tail);
            lemma_pow256_mono(tail.len(), 7);
            lemma_le_value_bound(next);
            lemma_pow256_values();
            reveal_with_fuel(pow256, 9);
            assert(next.drop_first() =~= tail);
        }
        i = i - 1;
        v = v * 256 + b[off + i] as u64;
    }
    v
}

/// Append the low `w` bytes of `v`, least significant first.
pub fn push_le(out: &mut Vec<u8>, w: usize, v: u64)
    requires
        w <= 8,
    ensures
        final(out)@ == old(out)@ + le_bytes(w as nat, v as nat),
{
    let mut rest: u64 = v;
    let mut i: usize = 0;
    let ghost whole = le_bytes(w as nat, v as nat);
    while i < w
        invariant
            i <= w,
            w <= 8,
            out@ + le_bytes((w - i) as nat, rest as nat) =~= old(out)@ + le_bytes(w as nat, v as nat),
        decreases w - i,
    {
        let ghost before = out@;
        let ghost r = rest;
        out.push((rest % 256) as u8);
        rest = rest / 256;
        i = i + 1;
        proof {
            assert(le_bytes((w - i + 1) as nat, r as nat) =~= seq![(r % 256) as u8] + le_bytes(
                (w - i) as nat,
                rest as nat,
            ));
            assert(before + le_bytes((w - i + 1) as nat, r as nat) =~= out@ + le_bytes(
                (w - i) as nat,
                rest as nat,
            ));
        }
    }
}

/// Size in bytes of the record with the field widths `ws`.
pub fn layout_len(ws: &[u8]) -> (n: usize)
    requires
        layout_ok(ws@),
    ensures
        n == layout_size(ws@),
{
    let mut n: usize = 0;
    let mut i: usize = 0;
    while i < ws.len()
        invariant
            i <= ws.len(),
            layout_ok(ws@),
            n == layout_size(ws@.take(i as int)),
            n <= 8 * i,
        decreases ws.len() - i,
    {
        assert(ws@.take(i + 1).drop_last() =~= ws@.take(i as int));
        assert(ws@[i as int] <= 8);
        n = n + ws[i] as usize;
        i = i + 1;
    }
    assert(ws@.take(ws.len() as int) =~= ws@);
    n
}

pub proof fn lemma_layout_take(ws: Seq<u8>, i: int)
    requires
        0 <= i <= ws.len(),
    ensures
        layout_size(ws.take(i)) <= layout_size(ws),
    decreases ws.len(),
{
    if i == ws.len() {
        assert(ws.take(i) =~= ws);
    } else {
        lemma_layout_take(ws.drop_last(), i);
        assert(ws.drop_last().take(i) =~= ws.take(i));
    }
}

/// Read the fields of a record at `off`.
pub fn read_fields(b: &[u8], off: usize, ws: &[u8]) -> (vs: Vec<u64>)
    requires
        layout_ok(ws@),
        off + layout_size(ws@) <= b.len(),
    ensures
        vs@ == decode_fields(ws@, b@.subrange(off as int, off + layout_size(ws@))),
        vs@.len() == ws@.len(),
{
    let mut vs: Vec<u64> = Vec::new();
    let mut i: usize = 0;
    let mut pos: usize = off;
    let ghost rec = b@.subrange(off as int, off + layout_size(ws@));
    assert(vs@ =~= decode_fields(ws@.take(0), rec));
    while i < ws.len()
        invariant
            i <= ws.len(),
            layout_ok(ws@),
            off + layout_size(ws@) <= b.len(),
            rec == b@.subrange(off as int, off + layout_size(ws@)),
            pos == off + layout_size(ws@.take(i as int)),
            vs@ == decode_fields(ws@.take(i as int), rec),
        decreases ws.len() - i,
    {
        let ghost t0 = ws@.take(i as int);
        let ghost t1 = ws@.take(i + 1);
        proof {
            assert(t1.drop_last() =~= t0);
            assert(ws@[i as int] <= 8);
            lemma_layout_take(ws@, i + 1);
            assert(b@.subrange(pos as int, pos + ws@[i as int]) =~= rec.subrange(
                layout_size(t0) as int,
                layout_size(t1) as int,
            ));
        }
        let w: usize = ws[i] as usize;
        let v: u64 = read_le(b, pos, w);
        vs.push(v);
        pos = pos + w;
        i = i + 1;
    }
    proof {
        assert(ws@.take(ws.len() as int) =~= ws@);
        lemma_decode_len(ws@, rec);
    }
    vs
}

/// Append a record.
pub fn push_fields(out: &mut Vec<u8>, ws: &[u8], vs: &[u64])
    requires
        layout_ok(ws@),
        ws@.len() == vs@.len(),
    ensures
        final(out)@ == old(out)@ + encode_fields(ws@, vs@),
{
    let mut i: usize = 0;
    assert(out@ =~= old(out)@ + encode_fields(ws@.take(0), vs@.take(0)));
    while i < ws.len()
        invariant
            i <= ws.len(),
            layout_ok(ws@),
            ws@.len() == vs@.len(),
            out@ == old(out)@ + encode_fields(ws@.take(i as int), vs@.take(i as int)),
        decreases ws.len() - i,
    {
        proof {
            assert(ws@.take(i + 1).drop_last() =~= ws@.take(i as int));
            assert(vs@.take(i + 1).drop_last() =~= vs@.take(i as int));
            assert(ws@[i as int] <= 8);
        }
        let ghost before = out@;
        push_le(out, ws[i] as usize, vs[i]);
        proof {
            assert(out@ =~= old(out)@ + encode_fields(ws@.take(i + 1), vs@.take(i + 1)));
        }
        i = i + 1;
    }
    assert(ws@.take(ws.len() as int) =~= ws@);
    assert(vs@.take(vs.len() as int) =~= vs@);
}

/// `d` with the bytes from `off` on overwritten by `b`.
pub open spec fn splice(d: Seq<u8>, off: int, b: Seq<u8>) -> Seq<u8> {
    d.take(off) + b + d.skip(off + b.len())
}

/// A run of `n` zero bytes.
pub open spec fn zeros(n: nat) -> Seq<u8> {
    Seq::new(n, |i: int| 0u8)
}

/// Overwrite `d` from `off` on with `b`.
pub fn patch(d: &mut Vec<u8>, off: usize, b: &[u8])
    requires
        off + b.len() <= old(d).len(),
    ensures
        final(d)@ == splice(old(d)@, off as int, b@),
        final(d)@.len() == old(d)@.len(),
{
    let mut i: usize = 0;
    assert(d@ =~= splice(old(d)@, off as int, b@.take(0)));
    while i < b.len()
        invariant
            i <= b.len(),
            off + b.len() <= old(d).len(),
            d@.len() == old(d)@.len(),
            d@ == splice(old(d)@, off as int, b@.take(i as int)),
        decreases b.len() - i,
    {
        d[off + i] = b[i];
        i = i + 1;
        assert(d@ =~= splice(old(d)@, off as int, b@.take(i as int)));
    }
    assert(b@.take(b.len() as int) =~= b@);
}

/// A vector of `n` zero bytes.
pub fn zero_bytes(n: usize) -> (r: Vec<u8>)
    ensures
        r@ == zeros(n as nat),
{
    let r: Vec<u8> = vec![0u8; n];
    assert(r@ =~= zeros(n as nat));
    r
}

/// Append `b` to `out`.
pub fn push_bytes(out: &mut Vec<u8>, b: &[u8])
    ensures
        final(out)@ == old(out)@ + b@,
{
    out.extend_from_slice(b);
    assert(out@ =~= old(out)@ + b@);
}

/// Pad `out` with zeros, or cut it, to `n` bytes.
pub fn resize_zero(out: &mut Vec<u8>, n: usize)
    ensures
        final(out)@ == if n <= old(out)@.len() {
            old(out)@.take(n as int)
        } else {
            old(out)@ + zeros((n - old(out)@.len()) as nat)
        },
{
    let ghost before = out@;
    out.resize(n, 0);
    proof {
        if n <= before.len() {
            assert(out@ =~= before.take(n as int));
        } else {
            assert forall|i: int| 0 <= i < n implies out@[i] == (before + zeros(
                (n - before.len()) as nat,
            ))[i] by {
                if i < before.len() {
                    assert(out@.subrange(0, before.len() as int)[i] == before[i]);
                }
            }
            assert(out@ =~= before + zeros((n - before.len()) as nat));
        }
    }
}

/// The low 32 bits of a size or an offset.
#[verifier::opaque]
pub open spec fn low(n: nat) -> u32 {
    (n % 0x1_0000_0000) as u32
}

pub fn low32(n: u128) -> (r: u32)
    ensures
        r == low(n as nat),
{
    reveal(low);
    (n % 0x1_0000_0000) as u32
}

/// The parts of `parts` one after the other.
pub open spec fn join(parts: Seq<Seq<u8>>) -> Seq<u8>
    decreases parts.len(),
{
    if parts.len() == 0 {
        Seq::empty()
    } else {
        join(parts.drop_last()) + parts.last()
    }
}

pub proof fn lemma_join_push(parts: Seq<Seq<u8>>, p: Seq<u8>)
    ensures
        join(parts.push(p)) == join(parts) + p,
{
    assert(parts.push(p).drop_last() =~= parts);
}

/// Part `i` stands in the whole at the combined length of the parts before it.
pub proof fn lemma_join_part(parts: Seq<Seq<u8>>, i: int)
    requires
        0 <= i < parts.len(),
    ensures
        join(parts.take(i)).len() + parts[i].len() == join(parts.take(i + 1)).len(),
        join(parts.take(i + 1)).len() <= join(parts).len(),
        join(parts).subrange(
            join(parts.take(i)).len() as int,
            (join(parts.take(i)).len() + parts[i].len()) as int,
        ) == parts[i],
    decreases parts.len(),
{
    assert(parts.take(i + 1).drop_last() =~= parts.take(i));
    if i == parts.len() - 1 {
        assert(parts.take(i + 1) =~= parts);
        assert(parts.drop_last() =~= parts.take(i));
        assert(join(parts).subrange(
            join(parts.take(i)).len() as int,
            (join(parts.take(i)).len() + parts[i].len()) as int,
        ) =~= parts[i]);
    } else {
        let d = parts.drop_last();
        lemma_join_part(d, i);
        assert(d.take(i) =~= parts.take(i));
        assert(d.take(i + 1) =~= parts.take(i + 1));
        assert(join(parts).subrange(
            join(parts.take(i)).len() as int,
            (join(parts.take(i)).len() + parts[i].len()) as int,
        ) =~= join(d).subrange(
            join(parts.take(i)).len() as int,
            (join(parts.take(i)).len() + parts[i].len()) as int,
        ));
    }
}

} // verus!
