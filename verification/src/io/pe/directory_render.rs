//! Renderers for the resource, relocation, TLS and load configuration
//! directories (the inverse of the parser's directory parsers), used by the
//! writer to persist edits made to the rich forms.

use crate::bytes::{
    encode_fields, join, le_bytes, lemma_encode_len, lemma_join_push, low, low32, patch, push_bytes,
    push_fields, push_le, splice, zero_bytes, zeros,
};
use crate::domain::import::views;
use crate::domain::load_config::LoadConfigDirectory;
use crate::domain::relocation::{
    RelocationBlock, RelocationBlockModel, RelocationEntry, RelocationTable,
};
use crate::domain::resource::{
    ResourceDataEntry, ResourceDataModel, ResourceDirectory, ResourceEntry, ResourceEntryData,
    ResourceEntryModel, ResourceName, ResourceNameModel,
};
use crate::domain::tls::TlsDirectory;
use crate::domain::types::Arch;
use crate::error::{invalid_argument, PeErrorModel, PeResult};
use crate::io::pe::decode::{load_config_fields, tls_fields};
use crate::io::pe::layout::{
    lemma_resource_dir_size, lemma_resource_entry_size, load_config32_layout, load_config64_layout,
    reloc_fields, reloc_layout, resource_data_fields, resource_data_layout, resource_dir_fields,
    resource_dir_layout, resource_entry_fields, resource_entry_layout, tls32_layout, tls64_layout,
};
use crate::text::{to_utf16, utf16_encode};
use vstd::prelude::*;

verus! {

/// The fields of a TLS directory.
pub open spec fn tls_values(tls: TlsDirectory) -> Seq<u64> {
    seq![
        tls.start_address_of_raw_data,
        tls.end_address_of_raw_data,
        tls.address_of_index,
        tls.address_of_callbacks,
        tls.size_of_zero_fill as u64,
        tls.characteristics as u64,
    ]
}

/// A TLS directory as bytes: its fields, and for PE32+ eight zero bytes up to
/// the directory's 48. The addresses of a PE32 image keep their low 32 bits.
pub open spec fn tls_bytes(tls: TlsDirectory, arch: Arch) -> Seq<u8> {
    encode_fields(tls_fields(arch), tls_values(tls)) + match arch {
        Arch::Bit64 => zeros(8),
        Arch::Bit32 => Seq::empty(),
    }
}

/// Render a TLS directory into its on-disk bytes (48 for PE32+, 24 for PE32).
pub fn render_tls(tls: &TlsDirectory, arch: Arch) -> (r: Vec<u8>)
    ensures
        r@ == tls_bytes(*tls, arch),
        r@.len() == match arch {
            Arch::Bit64 => 48nat,
            Arch::Bit32 => 24nat,
        },
{
    let mut out: Vec<u8> = Vec::new();
    let vals: [u64; 6] = [
        tls.start_address_of_raw_data,
        tls.end_address_of_raw_data,
        tls.address_of_index,
        tls.address_of_callbacks,
        tls.size_of_zero_fill as u64,
        tls.characteristics as u64,
    ];
    proof {
        assert(vals@ =~= tls_values(*tls));
    }
    match arch {
        Arch::Bit64 => {
            let l = tls64_layout();
            push_fields(&mut out, &l, &vals);
            push_bytes(&mut out, &zero_bytes(8));
            proof {
                lemma_encode_len(l@, vals@);
            }
        },
        Arch::Bit32 => {
            let l = tls32_layout();
            push_fields(&mut out, &l, &vals);
            proof {
                lemma_encode_len(l@, vals@);
            }
        },
    }
    assert(out@ =~= tls_bytes(*tls, arch));
    out
}

/// A relocation entry as a 16-bit value.
pub open spec fn reloc_value(e: RelocationEntry) -> nat {
    ((e.reloc_type % 16) * 0x1000 + e.offset % 0x1000) as nat
}

/// The entries of a block as bytes.
pub open spec fn reloc_entry_parts(e: Seq<RelocationEntry>) -> Seq<Seq<u8>> {
    Seq::new(e.len(), |i: int| le_bytes(2, reloc_value(e[i])))
}

/// A block as bytes: page, size in bytes, entries.
pub open spec fn reloc_block_bytes(b: RelocationBlockModel) -> Seq<u8> {
    encode_fields(
        reloc_fields(),
        seq![b.page_rva.0 as u64, low(8 + 2 * b.entries.len()) as u64],
    ) + join(reloc_entry_parts(b.entries))
}

/// The blocks as bytes.
pub open spec fn reloc_parts(t: Seq<RelocationBlockModel>) -> Seq<Seq<u8>> {
    Seq::new(t.len(), |i: int| reloc_block_bytes(t[i]))
}

/// A relocation table as bytes: its blocks and the zero terminator block.
pub open spec fn reloc_bytes(t: Seq<RelocationBlockModel>) -> Seq<u8> {
    join(reloc_parts(t)) + zeros(8)
}

fn push_reloc_block(out: &mut Vec<u8>, block: &RelocationBlock)
    ensures
        final(out)@ == old(out)@ + reloc_block_bytes(block@),
{
    let size: u32 = low32(8 + 2 * (block.entries.len() as u128));
    let vals: [u64; 2] = [block.page_rva.get() as u64, size as u64];
    let ghost head = seq![
        block.page_rva.0 as u64,
        low((8 + 2 * block.entries@.len()) as nat) as u64,
    ];
    assert(vals@ =~= head);
    push_fields(out, &reloc_layout(), &vals);
    let ghost before = out@;
    let ghost parts = reloc_entry_parts(block.entries@);
    let mut i: usize = 0;
    assert(parts.take(0) =~= Seq::empty());
    assert(before + join(parts.take(0)) =~= before);
    while i < block.entries.len()
        invariant
            i <= block.entries.len(),
            parts == reloc_entry_parts(block.entries@),
            out@ == before + join(parts.take(i as int)),
        decreases block.entries.len() - i,
    {
        let e: RelocationEntry = block.entries[i];
        let v: u16 = (e.reloc_type as u16 % 16) * 0x1000 + e.offset % 0x1000;
        proof {
            lemma_join_push(parts.take(i as int), parts[i as int]);
            assert(parts.take(i + 1) =~= parts.take(i as int).push(parts[i as int]));
        }
        let ghost b1 = out@;
        push_le(out, 2, v as u64);
        assert(out@ =~= before + join(parts.take(i + 1)));
        i = i + 1;
    }
    assert(parts.take(block.entries.len() as int) =~= parts);
    assert(out@ =~= old(out)@ + reloc_block_bytes(block@));
}

/// Render a relocation table: blocks of `(page, size, entries…)` plus the
/// zero terminator block.
pub fn render_relocations(table: &RelocationTable) -> (r: Vec<u8>)
    ensures
        r@ == reloc_bytes(table@),
{
    let mut out: Vec<u8> = Vec::new();
    let ghost parts = reloc_parts(table@);
    let mut i: usize = 0;
    assert(parts.take(0) =~= Seq::empty());
    while i < table.blocks.len()
        invariant
            i <= table.blocks.len(),
            parts == reloc_parts(table@),
            out@ == join(parts.take(i as int)),
        decreases table.blocks.len() - i,
    {
        proof {
            lemma_join_push(parts.take(i as int), parts[i as int]);
            assert(parts.take(i + 1) =~= parts.take(i as int).push(parts[i as int]));
            assert(table@[i as int] == table.blocks@[i as int]@);
        }
        push_reloc_block(&mut out, &table.blocks[i]);
        i = i + 1;
    }
    assert(parts.take(table.blocks.len() as int) =~= parts);
    push_bytes(&mut out, &zero_bytes(8));
    out
}

/// The fields of a load configuration; those that the rich form does not hold
/// are zero.
pub open spec fn load_config_values(lc: LoadConfigDirectory) -> Seq<u64> {
    seq![
        lc.size as u64,
        lc.time_date_stamp as u64,
        lc.major_version as u64,
        lc.minor_version as u64,
        lc.global_flags_clear as u64,
        lc.global_flags_set as u64,
        0u64,
        0u64,
        0u64,
        0u64,
        0u64,
        0u64,
        0u64,
        0u64,
        0u64,
        0u64,
        0u64,
        lc.security_cookie as u64,
        lc.se_handler_table as u64,
        lc.se_handler_count as u64,
        lc.guard_cf_check_function_pointer as u64,
        lc.guard_cf_dispatch_function_pointer as u64,
        lc.guard_cf_function_table as u64,
        lc.guard_cf_function_count as u64,
        lc.guard_flags as u64,
        0u64,
        0u64,
        0u64,
        0u64,
        lc.guard_address_taken_iat_entry_table as u64,
        lc.guard_address_taken_iat_entry_count as u64,
        lc.guard_long_jump_target_table as u64,
        lc.guard_long_jump_target_count as u64,
        0u64,
        lc.chpe_metadata_pointer as u64,
        0u64,
        0u64,
        0u64,
        0u64,
        0u64,
        0u64,
        lc.hot_patch_table_offset as u64,
        0u64,
        0u64,
        0u64,
        lc.guard_eh_continuation_table as u64,
        lc.guard_eh_continuation_count as u64,
        lc.guard_xfg_check_function_pointer as u64,
        lc.guard_xfg_dispatch_function_pointer as u64,
        0u64,
        0u64,
        0u64,
    ]
}

/// A load configuration as bytes; the addresses of a PE32 image keep their low
/// 32 bits.
pub open spec fn load_config_bytes(lc: LoadConfigDirectory, arch: Arch) -> Seq<u8> {
    encode_fields(load_config_fields(arch), load_config_values(lc))
}

/// Render a load configuration directory. The `size` field is kept as-is; the
/// remainder of the structure is zeroed.
pub fn render_load_config(lc: &LoadConfigDirectory, arch: Arch) -> (r: Vec<u8>)
    ensures
        r@ == load_config_bytes(*lc, arch),
        r@.len() == match arch {
            Arch::Bit64 => 0x140nat,
            Arch::Bit32 => 0xc0nat,
        },
{
    let mut out: Vec<u8> = Vec::new();
    let vals: [u64; 52] = [
        lc.size as u64,
        lc.time_date_stamp as u64,
        lc.major_version as u64,
        lc.minor_version as u64,
        lc.global_flags_clear as u64,
        lc.global_flags_set as u64,
        0,
        0,
        0,
        0,
        0,
        0,
        0,
        0,
        0,
        0,
        0,
        lc.security_cookie as u64,
        lc.se_handler_table as u64,
        lc.se_handler_count as u64,
        lc.guard_cf_check_function_pointer as u64,
        lc.guard_cf_dispatch_function_pointer as u64,
        lc.guard_cf_function_table as u64,
        lc.guard_cf_function_count as u64,
        lc.guard_flags as u64,
        0,
        0,
        0,
        0,
        lc.guard_address_taken_iat_entry_table as u64,
        lc.guard_address_taken_iat_entry_count as u64,
        lc.guard_long_jump_target_table as u64,
        lc.guard_long_jump_target_count as u64,
        0,
        lc.chpe_metadata_pointer as u64,
        0,
        0,
        0,
        0,
        0,
        0,
        lc.hot_patch_table_offset as u64,
        0,
        0,
        0,
        lc.guard_eh_continuation_table as u64,
        lc.guard_eh_continuation_count as u64,
        lc.guard_xfg_check_function_pointer as u64,
        lc.guard_xfg_dispatch_function_pointer as u64,
        0,
        0,
        0,
    ];
    proof {
        assert(vals@ =~= load_config_values(*lc));
    }
    match arch {
        Arch::Bit64 => {
            let l = load_config64_layout();
            push_fields(&mut out, &l, &vals);
            proof {
                lemma_encode_len(l@, vals@);
            }
        },
        Arch::Bit32 => {
            let l = load_config32_layout();
            push_fields(&mut out, &l, &vals);
            proof {
                lemma_encode_len(l@, vals@);
            }
        },
    }
    assert(out@ =~= load_config_bytes(*lc, arch));
    out
}

pub const MAX_RENDER_RESOURCE_DEPTH: usize = 8;

/// How many of the first `n` entries have a string name.
pub open spec fn named_count(e: Seq<ResourceEntryModel>) -> nat
    decreases e.len(),
{
    if e.len() == 0 {
        0
    } else {
        named_count(e.drop_last()) + if e.last().name is Named {
            1nat
        } else {
            0nat
        }
    }
}

/// UTF-16 code units as bytes.
pub open spec fn unit_parts(u: Seq<u16>) -> Seq<Seq<u8>> {
    Seq::new(u.len(), |i: int| le_bytes(2, u[i] as nat))
}

/// A name string: its length in code units, and the units.
pub open spec fn name_string(u: Seq<u16>) -> Seq<u8> {
    le_bytes(2, u.len()) + join(unit_parts(u))
}

/// A leaf record.
pub open spec fn leaf_bytes(l: ResourceDataEntry) -> Seq<u8> {
    encode_fields(
        resource_data_fields(),
        seq![l.rva.0 as u64, l.size as u64, l.code_page as u64, 0u64],
    )
}

/// The head of a directory with its entry slots still empty.
pub open spec fn directory_head(e: Seq<ResourceEntryModel>) -> Seq<u8> {
    encode_fields(
        resource_dir_fields(),
        seq![
            0u64,
            0u64,
            0u64,
            0u64,
            named_count(e) as u64,
            (e.len() - named_count(e)) as u64,
        ],
    ) + zeros(8 * e.len())
}

/// The error for an offset that does not fit in 31 bits.
pub open spec fn resource_too_large() -> PeErrorModel {
    PeErrorModel::InvalidArgument("resource table too large"@)
}

/// The bytes and the name field after an entry's name was written.
pub open spec fn with_name(out: Seq<u8>, name: ResourceNameModel) -> Result<
    (Seq<u8>, u32),
    PeErrorModel,
> {
    match name {
        ResourceNameModel::Id(id) => Ok((out, id)),
        ResourceNameModel::Named(s) => if out.len() > 0x7fff_ffff {
            Err(resource_too_large())
        } else if utf16_encode(s).len() > u16::MAX {
            Err(PeErrorModel::InvalidArgument("resource name too long"@))
        } else {
            Ok((out + name_string(utf16_encode(s)), (0x8000_0000 + out.len()) as u32))
        },
    }
}

/// The bytes and the data field after what an entry points at was written.
pub open spec fn with_data(out: Seq<u8>, data: ResourceDataModel, depth: nat) -> Result<
    (Seq<u8>, u32),
    PeErrorModel,
>
    decreases MAX_RENDER_RESOURCE_DEPTH - depth, 2nat, 0nat,
    when depth <= MAX_RENDER_RESOURCE_DEPTH
{
    match data {
        ResourceDataModel::Directory(sub) => match with_directory(out, sub, depth + 1) {
            Err(e) => Err(e),
            Ok(after) => if out.len() > 0x7fff_ffff {
                Err(resource_too_large())
            } else {
                Ok((after, (0x8000_0000 + out.len()) as u32))
            },
        },
        ResourceDataModel::Leaf(l) => if out.len() > 0x7fff_ffff {
            Err(resource_too_large())
        } else {
            Ok((out + leaf_bytes(l), out.len() as u32))
        },
    }
}

/// `out` with the directory `e` written behind it.
pub open spec fn with_directory(out: Seq<u8>, e: Seq<ResourceEntryModel>, depth: nat) -> Result<
    Seq<u8>,
    PeErrorModel,
>
    decreases MAX_RENDER_RESOURCE_DEPTH + 1 - depth, 0nat, 0nat,
{
    if depth > MAX_RENDER_RESOURCE_DEPTH {
        Err(PeErrorModel::InvalidArgument("resource tree too deep"@))
    } else {
        with_entries(out + directory_head(e), out.len(), e, depth, e.len())
    }
}

/// `out` after the first `n` entries of the directory at `dir` were filled in.
pub open spec fn with_entries(
    out: Seq<u8>,
    dir: nat,
    e: Seq<ResourceEntryModel>,
    depth: nat,
    n: nat,
) -> Result<Seq<u8>, PeErrorModel>
    decreases MAX_RENDER_RESOURCE_DEPTH - depth, 3nat, n,
    when depth <= MAX_RENDER_RESOURCE_DEPTH
{
    if n == 0 {
        Ok(out)
    } else {
        match with_entries(out, dir, e, depth, (n - 1) as nat) {
            Err(x) => Err(x),
            Ok(b) => match with_name(b, e[n - 1].name) {
                Err(x) => Err(x),
                Ok((b1, name)) => match with_data(b1, e[n - 1].data, depth) {
                    Err(x) => Err(x),
                    Ok((b2, data)) => Ok(
                        splice(
                            b2,
                            dir + 16 + 8 * (n - 1),
                            encode_fields(
                                resource_entry_fields(),
                                seq![name as u64, data as u64],
                            ),
                        ),
                    ),
                },
            },
        }
    }
}

/// Writing only ever adds bytes.
pub proof fn lemma_with_name_len(out: Seq<u8>, name: ResourceNameModel)
    ensures
        with_name(out, name) matches Ok(x) ==> x.0.len() >= out.len(),
{
}

pub proof fn lemma_with_data_len(out: Seq<u8>, data: ResourceDataModel, depth: nat)
    requires
        depth <= MAX_RENDER_RESOURCE_DEPTH,
    ensures
        with_data(out, data, depth) matches Ok(x) ==> x.0.len() >= out.len(),
    decreases MAX_RENDER_RESOURCE_DEPTH - depth, 2nat, 0nat,
{
    if let ResourceDataModel::Directory(sub) = data {
        lemma_with_directory_len(out, sub, depth + 1);
    }
}

pub proof fn lemma_directory_head_len(e: Seq<ResourceEntryModel>)
    ensures
        directory_head(e).len() == 16 + 8 * e.len(),
{
    lemma_resource_dir_size();
    lemma_encode_len(
        resource_dir_fields(),
        seq![
            0u64,
            0u64,
            0u64,
            0u64,
            named_count(e) as u64,
            (e.len() - named_count(e)) as u64,
        ],
    );
}

pub proof fn lemma_with_directory_len(out: Seq<u8>, e: Seq<ResourceEntryModel>, depth: nat)
    ensures
        with_directory(out, e, depth) matches Ok(b) ==> b.len() >= out.len() + 16 + 8 * e.len(),
    decreases MAX_RENDER_RESOURCE_DEPTH + 1 - depth, 0nat, 0nat,
{
    if depth <= MAX_RENDER_RESOURCE_DEPTH {
        lemma_directory_head_len(e);
        lemma_with_entries_len(out + directory_head(e), out.len(), e, depth, e.len());
    }
}

pub proof fn lemma_with_entries_len(
    out: Seq<u8>,
    dir: nat,
    e: Seq<ResourceEntryModel>,
    depth: nat,
    n: nat,
)
    requires
        depth <= MAX_RENDER_RESOURCE_DEPTH,
        n <= e.len(),
        dir + 16 + 8 * e.len() <= out.len(),
    ensures
        with_entries(out, dir, e, depth, n) matches Ok(b) ==> b.len() >= out.len(),
    decreases MAX_RENDER_RESOURCE_DEPTH - depth, 3nat, n,
{
    if n > 0 {
        lemma_with_entries_len(out, dir, e, depth, (n - 1) as nat);
        if let Ok(b) = with_entries(out, dir, e, depth, (n - 1) as nat) {
            lemma_with_name_len(b, e[n - 1].name);
            if let Ok((b1, name)) = with_name(b, e[n - 1].name) {
                lemma_with_data_len(b1, e[n - 1].data, depth);
                lemma_resource_entry_size();
                if let Ok((b2, data)) = with_data(b1, e[n - 1].data, depth) {
                    lemma_encode_len(resource_entry_fields(), seq![name as u64, data as u64]);
                }
            }
        }
    }
}

pub proof fn lemma_with_entries_err(
    out: Seq<u8>,
    dir: nat,
    e: Seq<ResourceEntryModel>,
    depth: nat,
    i: nat,
    n: nat,
)
    requires
        depth <= MAX_RENDER_RESOURCE_DEPTH,
        i <= n,
        with_entries(out, dir, e, depth, i) is Err,
    ensures
        with_entries(out, dir, e, depth, n) == with_entries(out, dir, e, depth, i),
    decreases n,
{
    if i < n {
        lemma_with_entries_err(out, dir, e, depth, i, (n - 1) as nat);
    }
}

/// How many entries have a string name.
fn count_named(e: &[ResourceEntry]) -> (r: usize)
    ensures
        r == named_count(views(e@)),
        r <= e@.len(),
{
    let mut i: usize = 0;
    let mut c: usize = 0;
    let ghost all = views(e@);
    assert(all.take(0) =~= Seq::empty());
    while i < e.len()
        invariant
            i <= e.len(),
            all == views(e@),
            c <= i,
            c == named_count(all.take(i as int)),
        decreases e.len() - i,
    {
        proof {
            assert(all.take(i + 1).drop_last() =~= all.take(i as int));
            assert(all.take(i + 1).last() == e@[i as int]@);
        }
        match &e[i].name {
            ResourceName::Named(_) => {
                c = c + 1;
            },
            ResourceName::Id(_) => {},
        }
        i = i + 1;
    }
    assert(all.take(e.len() as int) =~= all);
    c
}

/// Write an entry's name; gives the name field.
fn write_name(out: &mut Vec<u8>, name: &ResourceName) -> (r: PeResult<u32>)
    ensures
        match r {
            Ok(f) => with_name(old(out)@, name@) is Ok && with_name(old(out)@, name@)->Ok_0 == (
                final(out)@,
                f,
            ),
            Err(e) => with_name(old(out)@, name@) is Err && with_name(old(out)@, name@)->Err_0
                == e@,
        },
{
    match name {
        ResourceName::Id(id) => Ok(*id),
        ResourceName::Named(s) => {
            let off: usize = out.len();
            if off as u64 > 0x7fff_ffff {
                return Err(invalid_argument("resource table too large"));
            }
            let units = to_utf16(s.as_str());
            if units.len() > 0xffff {
                return Err(invalid_argument("resource name too long"));
            }
            push_le(out, 2, units.len() as u64);
            let ghost before = out@;
            let ghost parts = unit_parts(units@);
            let mut i: usize = 0;
            assert(parts.take(0) =~= Seq::empty());
            assert(before + join(parts.take(0)) =~= before);
            while i < units.len()
                invariant
                    i <= units.len(),
                    parts == unit_parts(units@),
                    out@ == before + join(parts.take(i as int)),
                decreases units.len() - i,
            {
                proof {
                    lemma_join_push(parts.take(i as int), parts[i as int]);
                    assert(parts.take(i + 1) =~= parts.take(i as int).push(parts[i as int]));
                }
                push_le(out, 2, units[i] as u64);
                assert(out@ =~= before + join(parts.take(i + 1)));
                i = i + 1;
            }
            assert(parts.take(units.len() as int) =~= parts);
            assert(out@ =~= old(out)@ + name_string(utf16_encode(s@)));
            Ok(0x8000_0000 + off as u32)
        },
    }
}

/// Write what an entry points at; gives the data field.
fn write_data(out: &mut Vec<u8>, data: &ResourceEntryData, depth: usize) -> (r: PeResult<u32>)
    requires
        depth <= MAX_RENDER_RESOURCE_DEPTH,
    ensures
        match r {
            Ok(f) => with_data(old(out)@, data@, depth as nat) is Ok && with_data(
                old(out)@,
                data@,
                depth as nat,
            )->Ok_0 == (final(out)@, f),
            Err(e) => with_data(old(out)@, data@, depth as nat) is Err && with_data(
                old(out)@,
                data@,
                depth as nat,
            )->Err_0 == e@,
        },
    decreases MAX_RENDER_RESOURCE_DEPTH - depth, 2nat,
{
    let off: usize = out.len();
    match data {
        ResourceEntryData::Directory(sub) => {
            match write_resource_dir(sub, depth + 1, out) {
                Err(e) => {
                    return Err(e);
                },
                Ok(_) => {},
            }
            if off as u64 > 0x7fff_ffff {
                return Err(invalid_argument("resource table too large"));
            }
            Ok(0x8000_0000 + off as u32)
        },
        ResourceEntryData::Leaf(leaf) => {
            if off as u64 > 0x7fff_ffff {
                return Err(invalid_argument("resource table too large"));
            }
            let vals: [u64; 4] = [
                leaf.rva.get() as u64,
                leaf.size as u64,
                leaf.code_page as u64,
                0,
            ];
            assert(vals@ =~= seq![
                leaf.rva.0 as u64,
                leaf.size as u64,
                leaf.code_page as u64,
                0u64,
            ]);
            push_fields(out, &resource_data_layout(), &vals);
            Ok(off as u32)
        },
    }
}

/// Append the directory `dir` and everything under it; gives its offset.
fn write_resource_dir(dir: &ResourceDirectory, depth: usize, out: &mut Vec<u8>) -> (r: PeResult<
    usize,
>)
    ensures
        match r {
            Ok(at) => with_directory(old(out)@, dir@, depth as nat) is Ok && with_directory(
                old(out)@,
                dir@,
                depth as nat,
            )->Ok_0 == final(out)@ && at == old(out)@.len(),
            Err(e) => with_directory(old(out)@, dir@, depth as nat) is Err && with_directory(
                old(out)@,
                dir@,
                depth as nat,
            )->Err_0 == e@,
        },
    decreases MAX_RENDER_RESOURCE_DEPTH + 1 - depth, 0nat,
{
    if depth > MAX_RENDER_RESOURCE_DEPTH {
        return Err(invalid_argument("resource tree too deep"));
    }
    let dir_off: usize = out.len();
    let ghost start = out@;
    let ghost ents = dir@;
    let named: usize = count_named(&dir.entries);
    let ids: usize = dir.entries.len() - named;
    let vals: [u64; 6] = [0, 0, 0, 0, named as u64, ids as u64];
    proof {
        assert(ents =~= views(dir.entries@));
        assert(vals@ =~= seq![
            0u64,
            0u64,
            0u64,
            0u64,
            named_count(ents) as u64,
            (ents.len() - named_count(ents)) as u64,
        ]);
    }
    push_fields(out, &resource_dir_layout(), &vals);
    let ghost head = out@;
    let mut k: usize = 0;
    assert(out@ =~= head + zeros(0));
    while k < dir.entries.len()
        invariant
            k <= dir.entries.len(),
            out@ == head + zeros((8 * k) as nat),
        decreases dir.entries.len() - k,
    {
        push_bytes(out, &zero_bytes(8));
        k = k + 1;
        assert(out@ =~= head + zeros((8 * k) as nat));
    }
    let ghost full = start + directory_head(ents);
    proof {
        assert(out@ =~= full);
        lemma_directory_head_len(ents);
    }
    let mut i: usize = 0;
    while i < dir.entries.len()
        invariant
            i <= dir.entries.len(),
            depth <= MAX_RENDER_RESOURCE_DEPTH,
            ents == dir@,
            ents == views(dir.entries@),
            dir_off == start.len(),
            start == old(out)@,
            full == start + directory_head(ents),
            full.len() == start.len() + 16 + 8 * ents.len(),
            with_entries(full, dir_off as nat, ents, depth as nat, i as nat) is Ok,
            with_entries(full, dir_off as nat, ents, depth as nat, i as nat)->Ok_0 == out@,
        decreases dir.entries.len() - i,
    {
        let ghost b = out@;
        let ghost next = with_entries(full, dir_off as nat, ents, depth as nat, (i + 1) as nat);
        proof {
            assert(ents[i as int] == dir.entries@[i as int]@);
            lemma_with_entries_len(full, dir_off as nat, ents, depth as nat, i as nat);
            if next is Err {
                lemma_with_entries_err(
                    full,
                    dir_off as nat,
                    ents,
                    depth as nat,
                    (i + 1) as nat,
                    ents.len(),
                );
            }
        }
        let name: u32 = match write_name(out, &dir.entries[i].name) {
            Ok(f) => f,
            Err(e) => {
                return Err(e);
            },
        };
        let ghost b1 = out@;
        let data: u32 = match write_data(out, &dir.entries[i].data, depth) {
            Ok(f) => f,
            Err(e) => {
                return Err(e);
            },
        };
        let vals: [u64; 2] = [name as u64, data as u64];
        proof {
            assert(vals@ =~= seq![name as u64, data as u64]);
            lemma_with_name_len(b, ents[i as int].name);
            lemma_with_data_len(b1, ents[i as int].data, depth as nat);
            lemma_resource_entry_size();
            lemma_encode_len(resource_entry_fields(), vals@);
        }
        let mut slot: Vec<u8> = Vec::new();
        push_fields(&mut slot, &resource_entry_layout(), &vals);
        patch(out, dir_off + 16 + 8 * i, &slot);
        i = i + 1;
    }
    Ok(dir_off)
}

/// Render a resource directory tree. Offsets inside the tree are relative to
/// the rendered blob's base; each leaf's data entry keeps the absolute RVA of
/// its content, which lives elsewhere in the image.
pub fn render_resources(root: &ResourceDirectory) -> (r: PeResult<Vec<u8>>)
    ensures
        crate::error::result_view(r) == with_directory(Seq::empty(), root@, 0),
{
    let mut out: Vec<u8> = Vec::new();
    match write_resource_dir(root, 0, &mut out) {
        Ok(_) => Ok(out),
        Err(e) => Err(e),
    }
}

} // verus!
