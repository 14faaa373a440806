//! Optional header, 32- and 64-bit variants.

use crate::domain::types::{Arch, Rva};
use vstd::prelude::*;

verus! {

pub const PE32_MAGIC: u16 = 0x10b;

pub const PE32_PLUS_MAGIC: u16 = 0x20b;

pub const IMAGE_SUBSYSTEM_WINDOWS_GUI: u16 = 2;

pub const IMAGE_SUBSYSTEM_WINDOWS_CUI: u16 = 3;

pub const IMAGE_DLLCHARACTERISTICS_DYNAMIC_BASE: u16 = 0x0040;

pub const IMAGE_DLLCHARACTERISTICS_NX_COMPAT: u16 = 0x0100;

/// `IMAGE_OPTIONAL_HEADER32`.
#[derive(Debug, Clone, Copy, PartialEq, Eq, Structural)]
pub struct OptionalHeader32 {
    pub magic: u16,
    pub major_linker_version: u8,
    pub minor_linker_version: u8,
    pub size_of_code: u32,
    pub size_of_initialized_data: u32,
    pub size_of_uninitialized_data: u32,
    pub address_of_entry_point: Rva,
    pub base_of_code: Rva,
    pub base_of_data: Rva,
    pub image_base: u32,
    pub section_alignment: u32,
    pub file_alignment: u32,
    pub major_operating_system_version: u16,
    pub minor_operating_system_version: u16,
    pub major_image_version: u16,
    pub minor_image_version: u16,
    pub major_subsystem_version: u16,
    pub minor_subsystem_version: u16,
    pub win32_version_value: u32,
    pub size_of_image: u32,
    pub size_of_headers: u32,
    pub checksum: u32,
    pub subsystem: u16,
    pub dll_characteristics: u16,
    pub size_of_stack_reserve: u32,
    pub size_of_stack_commit: u32,
    pub size_of_heap_reserve: u32,
    pub size_of_heap_commit: u32,
    pub loader_flags: u32,
    pub number_of_rva_and_sizes: u32,
}

/// `IMAGE_OPTIONAL_HEADER64` (a.k.a. PE32+).
#[derive(Debug, Clone, Copy, PartialEq, Eq, Structural)]
pub struct OptionalHeader64 {
    pub magic: u16,
    pub major_linker_version: u8,
    pub minor_linker_version: u8,
    pub size_of_code: u32,
    pub size_of_initialized_data: u32,
    pub size_of_uninitialized_data: u32,
    pub address_of_entry_point: Rva,
    pub base_of_code: Rva,
    pub image_base: u64,
    pub section_alignment: u32,
    pub file_alignment: u32,
    pub major_operating_system_version: u16,
    pub minor_operating_system_version: u16,
    pub major_image_version: u16,
    pub minor_image_version: u16,
    pub major_subsystem_version: u16,
    pub minor_subsystem_version: u16,
    pub win32_version_value: u32,
    pub size_of_image: u32,
    pub size_of_headers: u32,
    pub checksum: u32,
    pub subsystem: u16,
    pub dll_characteristics: u16,
    pub size_of_stack_reserve: u64,
    pub size_of_stack_commit: u64,
    pub size_of_heap_reserve: u64,
    pub size_of_heap_commit: u64,
    pub loader_flags: u32,
    pub number_of_rva_and_sizes: u32,
}

#[derive(Debug, Clone, Copy, PartialEq, Eq, Structural)]
pub enum OptionalHeader {
    Bit32(OptionalHeader32),
    Bit64(OptionalHeader64),
}

/// The architecture an optional header belongs to.
pub open spec fn header_arch(h: OptionalHeader) -> Arch {
    match h {
        OptionalHeader::Bit32(_) => Arch::Bit32,
        OptionalHeader::Bit64(_) => Arch::Bit64,
    }
}

/// The `magic` field of either variant.
pub open spec fn header_magic(h: OptionalHeader) -> u16 {
    match h {
        OptionalHeader::Bit32(h) => h.magic,
        OptionalHeader::Bit64(h) => h.magic,
    }
}

/// The `address_of_entry_point` field of either variant.
pub open spec fn header_address_of_entry_point(h: OptionalHeader) -> Rva {
    match h {
        OptionalHeader::Bit32(h) => h.address_of_entry_point,
        OptionalHeader::Bit64(h) => h.address_of_entry_point,
    }
}

/// The `base_of_code` field of either variant.
pub open spec fn header_base_of_code(h: OptionalHeader) -> Rva {
    match h {
        OptionalHeader::Bit32(h) => h.base_of_code,
        OptionalHeader::Bit64(h) => h.base_of_code,
    }
}

/// The `section_alignment` field of either variant.
pub open spec fn header_section_alignment(h: OptionalHeader) -> u32 {
    match h {
        OptionalHeader::Bit32(h) => h.section_alignment,
        OptionalHeader::Bit64(h) => h.section_alignment,
    }
}

/// The `file_alignment` field of either variant.
pub open spec fn header_file_alignment(h: OptionalHeader) -> u32 {
    match h {
        OptionalHeader::Bit32(h) => h.file_alignment,
        OptionalHeader::Bit64(h) => h.file_alignment,
    }
}

/// The `size_of_image` field of either variant.
pub open spec fn header_size_of_image(h: OptionalHeader) -> u32 {
    match h {
        OptionalHeader::Bit32(h) => h.size_of_image,
        OptionalHeader::Bit64(h) => h.size_of_image,
    }
}

/// The `size_of_headers` field of either variant.
pub open spec fn header_size_of_headers(h: OptionalHeader) -> u32 {
    match h {
        OptionalHeader::Bit32(h) => h.size_of_headers,
        OptionalHeader::Bit64(h) => h.size_of_headers,
    }
}

/// The `checksum` field of either variant.
pub open spec fn header_checksum(h: OptionalHeader) -> u32 {
    match h {
        OptionalHeader::Bit32(h) => h.checksum,
        OptionalHeader::Bit64(h) => h.checksum,
    }
}

/// The `subsystem` field of either variant.
pub open spec fn header_subsystem(h: OptionalHeader) -> u16 {
    match h {
        OptionalHeader::Bit32(h) => h.subsystem,
        OptionalHeader::Bit64(h) => h.subsystem,
    }
}

/// The `dll_characteristics` field of either variant.
pub open spec fn header_dll_characteristics(h: OptionalHeader) -> u16 {
    match h {
        OptionalHeader::Bit32(h) => h.dll_characteristics,
        OptionalHeader::Bit64(h) => h.dll_characteristics,
    }
}

/// The `number_of_rva_and_sizes` field of either variant.
pub open spec fn header_number_of_rva_and_sizes(h: OptionalHeader) -> u32 {
    match h {
        OptionalHeader::Bit32(h) => h.number_of_rva_and_sizes,
        OptionalHeader::Bit64(h) => h.number_of_rva_and_sizes,
    }
}

/// The `image_base` field of either variant, widened to 64 bits.
pub open spec fn header_image_base(h: OptionalHeader) -> u64 {
    match h {
        OptionalHeader::Bit32(h) => h.image_base as u64,
        OptionalHeader::Bit64(h) => h.image_base,
    }
}

/// The `size_of_stack_reserve` field of either variant, widened to 64 bits.
pub open spec fn header_size_of_stack_reserve(h: OptionalHeader) -> u64 {
    match h {
        OptionalHeader::Bit32(h) => h.size_of_stack_reserve as u64,
        OptionalHeader::Bit64(h) => h.size_of_stack_reserve,
    }
}

/// The `size_of_heap_reserve` field of either variant, widened to 64 bits.
pub open spec fn header_size_of_heap_reserve(h: OptionalHeader) -> u64 {
    match h {
        OptionalHeader::Bit32(h) => h.size_of_heap_reserve as u64,
        OptionalHeader::Bit64(h) => h.size_of_heap_reserve,
    }
}

/// The header with `address_of_entry_point` replaced.
pub open spec fn with_address_of_entry_point(h: OptionalHeader, rva: Rva) -> OptionalHeader {
    match h {
        OptionalHeader::Bit32(h) => OptionalHeader::Bit32(OptionalHeader32 { address_of_entry_point: rva, ..h }),
        OptionalHeader::Bit64(h) => OptionalHeader::Bit64(OptionalHeader64 { address_of_entry_point: rva, ..h }),
    }
}

/// The header with `section_alignment` replaced.
pub open spec fn with_section_alignment(h: OptionalHeader, v: u32) -> OptionalHeader {
    match h {
        OptionalHeader::Bit32(h) => OptionalHeader::Bit32(OptionalHeader32 { section_alignment: v, ..h }),
        OptionalHeader::Bit64(h) => OptionalHeader::Bit64(OptionalHeader64 { section_alignment: v, ..h }),
    }
}

/// The header with `file_alignment` replaced.
pub open spec fn with_file_alignment(h: OptionalHeader, v: u32) -> OptionalHeader {
    match h {
        OptionalHeader::Bit32(h) => OptionalHeader::Bit32(OptionalHeader32 { file_alignment: v, ..h }),
        OptionalHeader::Bit64(h) => OptionalHeader::Bit64(OptionalHeader64 { file_alignment: v, ..h }),
    }
}

/// The header with `size_of_image` replaced.
pub open spec fn with_size_of_image(h: OptionalHeader, v: u32) -> OptionalHeader {
    match h {
        OptionalHeader::Bit32(h) => OptionalHeader::Bit32(OptionalHeader32 { size_of_image: v, ..h }),
        OptionalHeader::Bit64(h) => OptionalHeader::Bit64(OptionalHeader64 { size_of_image: v, ..h }),
    }
}

/// The header with `size_of_headers` replaced.
pub open spec fn with_size_of_headers(h: OptionalHeader, v: u32) -> OptionalHeader {
    match h {
        OptionalHeader::Bit32(h) => OptionalHeader::Bit32(OptionalHeader32 { size_of_headers: v, ..h }),
        OptionalHeader::Bit64(h) => OptionalHeader::Bit64(OptionalHeader64 { size_of_headers: v, ..h }),
    }
}

/// The header with `checksum` replaced.
pub open spec fn with_checksum(h: OptionalHeader, v: u32) -> OptionalHeader {
    match h {
        OptionalHeader::Bit32(h) => OptionalHeader::Bit32(OptionalHeader32 { checksum: v, ..h }),
        OptionalHeader::Bit64(h) => OptionalHeader::Bit64(OptionalHeader64 { checksum: v, ..h }),
    }
}

/// The header with `subsystem` replaced.
pub open spec fn with_subsystem(h: OptionalHeader, v: u16) -> OptionalHeader {
    match h {
        OptionalHeader::Bit32(h) => OptionalHeader::Bit32(OptionalHeader32 { subsystem: v, ..h }),
        OptionalHeader::Bit64(h) => OptionalHeader::Bit64(OptionalHeader64 { subsystem: v, ..h }),
    }
}

/// The header with `image_base` replaced; the 32-bit variant keeps its low 32
/// bits.
pub open spec fn with_image_base(h: OptionalHeader, v: u64) -> OptionalHeader {
    match h {
        OptionalHeader::Bit32(h) => OptionalHeader::Bit32(
            OptionalHeader32 { image_base: v as u32, ..h },
        ),
        OptionalHeader::Bit64(h) => OptionalHeader::Bit64(
            OptionalHeader64 { image_base: v, ..h },
        ),
    }
}

impl OptionalHeader {
    pub fn arch(&self) -> (r: Arch)
        ensures
            r == header_arch(*self),
    {
        match self {
            OptionalHeader::Bit32(_) => Arch::Bit32,
            OptionalHeader::Bit64(_) => Arch::Bit64,
        }
    }

    pub fn magic(&self) -> (r: u16)
        ensures
            r == header_magic(*self),
    {
        match self {
            OptionalHeader::Bit32(h) => h.magic,
            OptionalHeader::Bit64(h) => h.magic,
        }
    }

    pub fn address_of_entry_point(&self) -> (r: Rva)
        ensures
            r == header_address_of_entry_point(*self),
    {
        match self {
            OptionalHeader::Bit32(h) => h.address_of_entry_point,
            OptionalHeader::Bit64(h) => h.address_of_entry_point,
        }
    }

    pub fn base_of_code(&self) -> (r: Rva)
        ensures
            r == header_base_of_code(*self),
    {
        match self {
            OptionalHeader::Bit32(h) => h.base_of_code,
            OptionalHeader::Bit64(h) => h.base_of_code,
        }
    }

    pub fn section_alignment(&self) -> (r: u32)
        ensures
            r == header_section_alignment(*self),
    {
        match self {
            OptionalHeader::Bit32(h) => h.section_alignment,
            OptionalHeader::Bit64(h) => h.section_alignment,
        }
    }

    pub fn file_alignment(&self) -> (r: u32)
        ensures
            r == header_file_alignment(*self),
    {
        match self {
            OptionalHeader::Bit32(h) => h.file_alignment,
            OptionalHeader::Bit64(h) => h.file_alignment,
        }
    }

    pub fn size_of_image(&self) -> (r: u32)
        ensures
            r == header_size_of_image(*self),
    {
        match self {
            OptionalHeader::Bit32(h) => h.size_of_image,
            OptionalHeader::Bit64(h) => h.size_of_image,
        }
    }

    pub fn size_of_headers(&self) -> (r: u32)
        ensures
            r == header_size_of_headers(*self),
    {
        match self {
            OptionalHeader::Bit32(h) => h.size_of_headers,
            OptionalHeader::Bit64(h) => h.size_of_headers,
        }
    }

    pub fn checksum(&self) -> (r: u32)
        ensures
            r == header_checksum(*self),
    {
        match self {
            OptionalHeader::Bit32(h) => h.checksum,
            OptionalHeader::Bit64(h) => h.checksum,
        }
    }

    pub fn subsystem(&self) -> (r: u16)
        ensures
            r == header_subsystem(*self),
    {
        match self {
            OptionalHeader::Bit32(h) => h.subsystem,
            OptionalHeader::Bit64(h) => h.subsystem,
        }
    }

    pub fn dll_characteristics(&self) -> (r: u16)
        ensures
            r == header_dll_characteristics(*self),
    {
        match self {
            OptionalHeader::Bit32(h) => h.dll_characteristics,
            OptionalHeader::Bit64(h) => h.dll_characteristics,
        }
    }

    pub fn number_of_rva_and_sizes(&self) -> (r: u32)
        ensures
            r == header_number_of_rva_and_sizes(*self),
    {
        match self {
            OptionalHeader::Bit32(h) => h.number_of_rva_and_sizes,
            OptionalHeader::Bit64(h) => h.number_of_rva_and_sizes,
        }
    }

    pub fn image_base(&self) -> (r: u64)
        ensures
            r == header_image_base(*self),
    {
        match self {
            OptionalHeader::Bit32(h) => h.image_base as u64,
            OptionalHeader::Bit64(h) => h.image_base,
        }
    }

    pub fn size_of_stack_reserve(&self) -> (r: u64)
        ensures
            r == header_size_of_stack_reserve(*self),
    {
        match self {
            OptionalHeader::Bit32(h) => h.size_of_stack_reserve as u64,
            OptionalHeader::Bit64(h) => h.size_of_stack_reserve,
        }
    }

    pub fn size_of_heap_reserve(&self) -> (r: u64)
        ensures
            r == header_size_of_heap_reserve(*self),
    {
        match self {
            OptionalHeader::Bit32(h) => h.size_of_heap_reserve as u64,
            OptionalHeader::Bit64(h) => h.size_of_heap_reserve,
        }
    }

    pub fn set_address_of_entry_point(&mut self, rva: Rva)
        ensures
            *final(self) == with_address_of_entry_point(*old(self), rva),
    {
        match self {
            OptionalHeader::Bit32(h) => {
                h.address_of_entry_point = rva;
            },
            OptionalHeader::Bit64(h) => {
                h.address_of_entry_point = rva;
            },
        }
    }

    pub fn set_section_alignment(&mut self, v: u32)
        ensures
            *final(self) == with_section_alignment(*old(self), v),
    {
        match self {
            OptionalHeader::Bit32(h) => {
                h.section_alignment = v;
            },
            OptionalHeader::Bit64(h) => {
                h.section_alignment = v;
            },
        }
    }

    pub fn set_file_alignment(&mut self, v: u32)
        ensures
            *final(self) == with_file_alignment(*old(self), v),
    {
        match self {
            OptionalHeader::Bit32(h) => {
                h.file_alignment = v;
            },
            OptionalHeader::Bit64(h) => {
                h.file_alignment = v;
            },
        }
    }

    pub fn set_size_of_image(&mut self, v: u32)
        ensures
            *final(self) == with_size_of_image(*old(self), v),
    {
        match self {
            OptionalHeader::Bit32(h) => {
                h.size_of_image = v;
            },
            OptionalHeader::Bit64(h) => {
                h.size_of_image = v;
            },
        }
    }

    pub fn set_size_of_headers(&mut self, v: u32)
        ensures
            *final(self) == with_size_of_headers(*old(self), v),
    {
        match self {
            OptionalHeader::Bit32(h) => {
                h.size_of_headers = v;
            },
            OptionalHeader::Bit64(h) => {
                h.size_of_headers = v;
            },
        }
    }

    pub fn set_checksum(&mut self, v: u32)
        ensures
            *final(self) == with_checksum(*old(self), v),
    {
        match self {
            OptionalHeader::Bit32(h) => {
                h.checksum = v;
            },
            OptionalHeader::Bit64(h) => {
                h.checksum = v;
            },
        }
    }

    pub fn set_subsystem(&mut self, v: u16)
        ensures
            *final(self) == with_subsystem(*old(self), v),
    {
        match self {
            OptionalHeader::Bit32(h) => {
                h.subsystem = v;
            },
            OptionalHeader::Bit64(h) => {
                h.subsystem = v;
            },
        }
    }

    pub fn set_image_base(&mut self, v: u64)
        ensures
            *final(self) == with_image_base(*old(self), v),
    {
        match self {
            OptionalHeader::Bit32(h) => {
                h.image_base = v as u32;
            },
            OptionalHeader::Bit64(h) => {
                h.image_base = v;
            },
        }
    }
}

/// What is asked of an optional header is the field of that name, in either
/// variant.
pub proof fn header_values_are_their_fields(h: OptionalHeader)
    ensures
        match h {
            OptionalHeader::Bit32(x) => {
                &&& header_arch(h) == Arch::Bit32
                &&& header_magic(h) == x.magic
                &&& header_address_of_entry_point(h) == x.address_of_entry_point
                &&& header_base_of_code(h) == x.base_of_code
                &&& header_section_alignment(h) == x.section_alignment
                &&& header_file_alignment(h) == x.file_alignment
                &&& header_size_of_image(h) == x.size_of_image
                &&& header_size_of_headers(h) == x.size_of_headers
                &&& header_checksum(h) == x.checksum
                &&& header_subsystem(h) == x.subsystem
                &&& header_dll_characteristics(h) == x.dll_characteristics
                &&& header_number_of_rva_and_sizes(h) == x.number_of_rva_and_sizes
                &&& header_image_base(h) == x.image_base
                &&& header_size_of_stack_reserve(h) == x.size_of_stack_reserve
                &&& header_size_of_heap_reserve(h) == x.size_of_heap_reserve
            },
            OptionalHeader::Bit64(x) => {
                &&& header_arch(h) == Arch::Bit64
                &&& header_magic(h) == x.magic
                &&& header_address_of_entry_point(h) == x.address_of_entry_point
                &&& header_base_of_code(h) == x.base_of_code
                &&& header_section_alignment(h) == x.section_alignment
                &&& header_file_alignment(h) == x.file_alignment
                &&& header_size_of_image(h) == x.size_of_image
                &&& header_size_of_headers(h) == x.size_of_headers
                &&& header_checksum(h) == x.checksum
                &&& header_subsystem(h) == x.subsystem
                &&& header_dll_characteristics(h) == x.dll_characteristics
                &&& header_number_of_rva_and_sizes(h) == x.number_of_rva_and_sizes
                &&& header_image_base(h) == x.image_base
                &&& header_size_of_stack_reserve(h) == x.size_of_stack_reserve
                &&& header_size_of_heap_reserve(h) == x.size_of_heap_reserve
            },
        },
{
}

/// Setting a value of an optional header sets the field of that name and no
/// other; a 32-bit header keeps the low half of an image base.
pub proof fn set_values_are_their_fields(h: OptionalHeader, rva: Rva, v: u32, w: u16, base: u64)
    ensures
        match h {
            OptionalHeader::Bit32(x) => {
                &&& with_address_of_entry_point(h, rva) == OptionalHeader::Bit32(
                    OptionalHeader32 { address_of_entry_point: rva, ..x },
                )
                &&& with_section_alignment(h, v) == OptionalHeader::Bit32(
                    OptionalHeader32 { section_alignment: v, ..x },
                )
                &&& with_file_alignment(h, v) == OptionalHeader::Bit32(
                    OptionalHeader32 { file_alignment: v, ..x },
                )
                &&& with_size_of_image(h, v) == OptionalHeader::Bit32(
                    OptionalHeader32 { size_of_image: v, ..x },
                )
                &&& with_size_of_headers(h, v) == OptionalHeader::Bit32(
                    OptionalHeader32 { size_of_headers: v, ..x },
                )
                &&& with_checksum(h, v) == OptionalHeader::Bit32(
                    OptionalHeader32 { checksum: v, ..x },
                )
                &&& with_subsystem(h, w) == OptionalHeader::Bit32(
                    OptionalHeader32 { subsystem: w, ..x },
                )
                &&& with_image_base(h, base) == OptionalHeader::Bit32(
                    OptionalHeader32 { image_base: (base % 0x1_0000_0000) as u32, ..x },
                )
            },
            OptionalHeader::Bit64(x) => {
                &&& with_address_of_entry_point(h, rva) == OptionalHeader::Bit64(
                    OptionalHeader64 { address_of_entry_point: rva, ..x },
                )
                &&& with_section_alignment(h, v) == OptionalHeader::Bit64(
                    OptionalHeader64 { section_alignment: v, ..x },
                )
                &&& with_file_alignment(h, v) == OptionalHeader::Bit64(
                    OptionalHeader64 { file_alignment: v, ..x },
                )
                &&& with_size_of_image(h, v) == OptionalHeader::Bit64(
                    OptionalHeader64 { size_of_image: v, ..x },
                )
                &&& with_size_of_headers(h, v) == OptionalHeader::Bit64(
                    OptionalHeader64 { size_of_headers: v, ..x },
                )
                &&& with_checksum(h, v) == OptionalHeader::Bit64(
                    OptionalHeader64 { checksum: v, ..x },
                )
                &&& with_subsystem(h, w) == OptionalHeader::Bit64(
                    OptionalHeader64 { subsystem: w, ..x },
                )
                &&& with_image_base(h, base) == OptionalHeader::Bit64(
                    OptionalHeader64 { image_base: base, ..x },
                )
            },
        },
{
    assert(base as u32 == (base % 0x1_0000_0000) as u32) by (bit_vector);
}

} // verus!
