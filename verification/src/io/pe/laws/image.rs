//! Reading bytes that stand at a known address of an image.

use crate::bytes::{
    encode_fields, fields_fit, layout_ok, layout_size, le_bytes, le_value, lemma_fields_roundtrip,
    lemma_le_roundtrip, pow256,
};
use crate::domain::document::{covers, image_read, lemma_len32, lemma_locate_is, section_end};
use crate::domain::section::SectionModel;
use crate::io::pe::decode::{cstring, cstring_from, image_record, MAX_STRING};
use crate::io::pe::import_render::nul_terminated;
use crate::text::lemma_utf8_text_roundtrip;
use vstd::prelude::*;
use vstd::utf8::encode_utf8;

verus! {

/// Whether `blob` stands in the image at `base`: every part of it is what a
/// read at its address gives.
pub open spec fn image_holds(sections: Seq<SectionModel>, base: u32, blob: Seq<u8>) -> bool {
    &&& base + blob.len() <= u32::MAX
    &&& forall|off: int, n: nat|
        #![trigger image_read(sections, (base + off) as u32, n)]
        0 <= off < blob.len() && off + n <= blob.len() ==> image_read(
            sections,
            (base + off) as u32,
            n,
        ) == Some(blob.subrange(off, off + n))
}

/// A section whose address range begins above every section before it holds
/// its own bytes.
pub proof fn lemma_own_section_holds(sections: Seq<SectionModel>, i: int)
    requires
        0 <= i < sections.len(),
        sections[i].header.virtual_address.0 + sections[i].data.len() <= u32::MAX,
        forall|j: int|
            0 <= j < i ==> section_end(#[trigger] sections[j])
                <= sections[i].header.virtual_address.0,
    ensures
        image_holds(sections, sections[i].header.virtual_address.0, sections[i].data),
{
    let base = sections[i].header.virtual_address.0;
    let blob = sections[i].data;
    lemma_len32(sections[i]);
    assert forall|off: int, n: nat|
        #![trigger image_read(sections, (base + off) as u32, n)]
        0 <= off < blob.len() && off + n <= blob.len() implies image_read(
        sections,
        (base + off) as u32,
        n,
    ) == Some(blob.subrange(off, off + n)) by {
        let r = (base + off) as u32;
        assert forall|j: int| 0 <= j < i implies !covers(sections[j], r) by {
            assert(section_end(sections[j]) <= base);
        }
        lemma_locate_is(sections, r, i);
    }
}

/// A record that stands at `off` of the blob is read back with its values.
pub proof fn lemma_held_record(
    sections: Seq<SectionModel>,
    base: u32,
    blob: Seq<u8>,
    off: int,
    ws: Seq<u8>,
    vs: Seq<u64>,
)
    requires
        image_holds(sections, base, blob),
        layout_ok(ws),
        fields_fit(ws, vs),
        layout_size(ws) > 0,
        0 <= off,
        off + layout_size(ws) <= blob.len(),
        blob.subrange(off, off + layout_size(ws)) == encode_fields(ws, vs),
    ensures
        image_record(sections, (base + off) as u32, ws) == Some(vs),
{
    lemma_fields_roundtrip(ws, vs);
    assert(image_read(sections, (base + off) as u32, layout_size(ws)) == Some(
        blob.subrange(off, off + layout_size(ws)),
    ));
}

/// A number that stands at `off` of the blob is read back.
pub proof fn lemma_held_number(
    sections: Seq<SectionModel>,
    base: u32,
    blob: Seq<u8>,
    off: int,
    w: nat,
    v: nat,
)
    requires
        image_holds(sections, base, blob),
        w > 0,
        v < pow256(w),
        0 <= off,
        off + w <= blob.len(),
        blob.subrange(off, off + w) == le_bytes(w, v),
    ensures
        image_read(sections, (base + off) as u32, w) == Some(le_bytes(w, v)),
        le_value(le_bytes(w, v)) == v,
{
    lemma_le_roundtrip(w, v);
    assert(image_read(sections, (base + off) as u32, w) == Some(blob.subrange(off, off + w)));
}

/// A text whose bytes hold no NUL and that is short enough to be read.
pub open spec fn plain_text(s: Seq<char>) -> bool {
    &&& encode_utf8(s).len() < MAX_STRING
    &&& forall|i: int| 0 <= i < encode_utf8(s).len() ==> #[trigger] encode_utf8(s)[i] != 0
}

proof fn lemma_cstring_from(
    sections: Seq<SectionModel>,
    base: u32,
    blob: Seq<u8>,
    off: int,
    b: Seq<u8>,
    i: nat,
)
    requires
        image_holds(sections, base, blob),
        0 <= off,
        off + b.len() + 1 <= blob.len(),
        b.len() < MAX_STRING,
        blob.subrange(off, (off + b.len() + 1)) == b.push(0),
        forall|j: int| 0 <= j < b.len() ==> b[j] != 0,
        i <= b.len(),
    ensures
        cstring_from(sections, (base + off) as u32, i) == Some(b.skip(i as int)),
    decreases b.len() - i,
{
    let r = (base + off) as u32;
    let at = off + i;
    assert(image_read(sections, (base + at) as u32, 1) == Some(blob.subrange(at, at + 1)));
    assert(blob.subrange(at, at + 1)[0] == blob.subrange(off, off + b.len() + 1)[i as int]);
    if i < b.len() {
        lemma_cstring_from(sections, base, blob, off, b, i + 1);
        assert(b.skip(i as int) =~= seq![b[i as int]] + b.skip((i + 1) as int));
    } else {
        assert(b.skip(i as int) =~= Seq::empty());
    }
}

/// A NUL-terminated text that stands at `off` of the blob is read back.
pub proof fn lemma_held_text(
    sections: Seq<SectionModel>,
    base: u32,
    blob: Seq<u8>,
    off: int,
    s: Seq<char>,
)
    requires
        image_holds(sections, base, blob),
        plain_text(s),
        0 <= off,
        off + nul_terminated(s).len() <= blob.len(),
        blob.subrange(off, off + nul_terminated(s).len()) == nul_terminated(s),
    ensures
        cstring(sections, (base + off) as u32) == Some(s),
{
    reveal(nul_terminated);
    let b = encode_utf8(s);
    lemma_cstring_from(sections, base, blob, off, b, 0);
    assert(b.skip(0) =~= b);
    lemma_utf8_text_roundtrip(s);
}

} // verus!
