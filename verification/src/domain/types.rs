//! Basic scalar types shared across the domain model.

use vstd::prelude::*;

verus! {

/// A virtual address relative to the image base (RVA).
#[derive(Debug, Clone, Copy, PartialEq, Eq, PartialOrd, Ord, Hash, Structural)]
pub struct Rva(pub u32);

impl Default for Rva {
    fn default() -> (r: Rva)
        ensures
            r == Rva(0),
    {
        Rva(0)
    }
}

impl Rva {
    #[inline]
    pub fn get(self) -> (r: u32)
        ensures
            r == self.0,
    {
        self.0
    }

    /// `self + delta`, or `None` when the sum does not fit in 32 bits.
    #[inline]
    pub fn checked_add(self, delta: u32) -> (r: Option<Rva>)
        ensures
            r == if self.0 + delta <= u32::MAX {
                Some(Rva((self.0 + delta) as u32))
            } else {
                None
            },
    {
        match self.0.checked_add(delta) {
            Some(v) => Some(Rva(v)),
            None => None,
        }
    }

    /// `self - delta`, or `None` when `delta` is the larger.
    #[inline]
    pub fn checked_sub(self, delta: u32) -> (r: Option<Rva>)
        ensures
            r == if delta <= self.0 {
                Some(Rva((self.0 - delta) as u32))
            } else {
                None
            },
    {
        match self.0.checked_sub(delta) {
            Some(v) => Some(Rva(v)),
            None => None,
        }
    }
}

/// An offset into the raw file on disk.
#[derive(Debug, Clone, Copy, PartialEq, Eq, PartialOrd, Ord, Hash, Structural)]
pub struct RawOffset(pub u32);

impl Default for RawOffset {
    fn default() -> (r: RawOffset)
        ensures
            r == RawOffset(0),
    {
        RawOffset(0)
    }
}

impl RawOffset {
    #[inline]
    pub fn get(self) -> (r: u32)
        ensures
            r == self.0,
    {
        self.0
    }
}

/// Image base used to compute an absolute VA from an RVA.
pub type ImageBase = u64;

/// Target architecture of the PE image.
#[derive(Debug, Clone, Copy, PartialEq, Eq, Hash, Structural)]
pub enum Arch {
    Bit32,
    Bit64,
}

/// `IMAGE_FILE_MACHINE_*` values.
pub const IMAGE_FILE_MACHINE_I386: u16 = 0x014c;

pub const IMAGE_FILE_MACHINE_AMD64: u16 = 0x8664;

pub const IMAGE_FILE_MACHINE_ARM64: u16 = 0xaa64;

/// The COFF machine type from the file header.
#[derive(Debug, Clone, Copy, PartialEq, Eq, Hash, Structural)]
pub enum Machine {
    I386,
    Amd64,
    Arm64,
    Unknown(u16),
}

impl Default for Machine {
    fn default() -> (r: Machine)
        ensures
            r == Machine::Unknown(0),
    {
        Machine::Unknown(0)
    }
}

/// The machine a file-header value stands for.
pub open spec fn machine_of(v: u16) -> Machine {
    if v == IMAGE_FILE_MACHINE_I386 {
        Machine::I386
    } else if v == IMAGE_FILE_MACHINE_AMD64 {
        Machine::Amd64
    } else if v == IMAGE_FILE_MACHINE_ARM64 {
        Machine::Arm64
    } else {
        Machine::Unknown(v)
    }
}

/// The file-header value of a machine.
pub open spec fn machine_code(m: Machine) -> u16 {
    match m {
        Machine::I386 => IMAGE_FILE_MACHINE_I386,
        Machine::Amd64 => IMAGE_FILE_MACHINE_AMD64,
        Machine::Arm64 => IMAGE_FILE_MACHINE_ARM64,
        Machine::Unknown(v) => v,
    }
}

impl Machine {
    pub fn from_u16(v: u16) -> (r: Machine)
        ensures
            r == machine_of(v),
    {
        if v == IMAGE_FILE_MACHINE_I386 {
            Machine::I386
        } else if v == IMAGE_FILE_MACHINE_AMD64 {
            Machine::Amd64
        } else if v == IMAGE_FILE_MACHINE_ARM64 {
            Machine::Arm64
        } else {
            Machine::Unknown(v)
        }
    }

    pub fn to_u16(self) -> (r: u16)
        ensures
            r == machine_code(self),
    {
        match self {
            Machine::I386 => IMAGE_FILE_MACHINE_I386,
            Machine::Amd64 => IMAGE_FILE_MACHINE_AMD64,
            Machine::Arm64 => IMAGE_FILE_MACHINE_ARM64,
            Machine::Unknown(v) => v,
        }
    }
}

/// A machine value read from a file is written back unchanged.
pub proof fn machine_code_roundtrip(v: u16)
    ensures
        machine_code(machine_of(v)) == v,
{
}

/// A named machine, or an unknown one whose value names no machine, survives
/// being written and read again.
pub proof fn machine_roundtrip(m: Machine)
    requires
        m matches Machine::Unknown(v) ==> v != IMAGE_FILE_MACHINE_I386 && v
            != IMAGE_FILE_MACHINE_AMD64 && v != IMAGE_FILE_MACHINE_ARM64,
    ensures
        machine_of(machine_code(m)) == m,
{
}

/// `n` rounded up to a multiple of `align` in 32-bit wrapping arithmetic; an
/// alignment of 0 or 1 changes nothing.
pub open spec fn aligned(n: u32, align: u32) -> u32 {
    if align <= 1 {
        n
    } else {
        (((n + align - 1) % 0x1_0000_0000) / (align as int) * (align as int)) as u32
    }
}

/// Round `n` up to the next multiple of `align`. `align` of 0 or 1 is a no-op.
#[inline]
pub fn align_up(n: u32, align: u32) -> (r: u32)
    ensures
        r == aligned(n, align),
{
    if align <= 1 {
        return n;
    }
    let q: u32 = n.wrapping_add(align - 1);
    proof {
        assert(q == (n + align - 1) % 0x1_0000_0000);
        assert(q / align * align <= q) by (nonlinear_arith)
            requires
                align > 0,
        ;
        assert(q / align * align >= 0) by (nonlinear_arith)
            requires
                align > 0,
        ;
    }
    q / align * align
}

/// Where rounding up stays below 2^32 it gives the least multiple of `align`
/// that is not below `n`.
pub proof fn align_up_is_least_multiple(n: u32, align: u32)
    requires
        align > 0,
        n + align - 1 <= u32::MAX,
    ensures
        aligned(n, align) % align == 0,
        n <= aligned(n, align) < n + align,
{
    if align > 1 {
        let q: int = n + align - 1;
        let a: int = align as int;
        assert(q % 0x1_0000_0000 == q);
        assert(q / a * a <= q && q < q / a * a + a && (q / a * a) % a == 0 && q / a * a >= 0)
            by (nonlinear_arith)
            requires
                a > 0,
                q >= 0,
        ;
    }
}

/// Rounding up a value that is already rounded up changes nothing.
pub proof fn align_up_idempotent(n: u32, align: u32)
    requires
        align > 0,
        n + align - 1 <= u32::MAX,
        aligned(n, align) + align - 1 <= u32::MAX,
    ensures
        aligned(aligned(n, align), align) == aligned(n, align),
{
    align_up_is_least_multiple(n, align);
    let m = aligned(n, align);
    align_up_is_least_multiple(m, align);
    if align > 1 {
        let a: int = align as int;
        let k: int = aligned(m, align) as int;
        let mi: int = m as int;
        assert(k == mi) by (nonlinear_arith)
            requires
                k % a == 0,
                mi % a == 0,
                mi <= k < mi + a,
                a > 0,
        ;
    }
}

/// Size in bytes of a pointer for the given architecture.
pub open spec fn pointer_size(arch: Arch) -> nat {
    match arch {
        Arch::Bit32 => 4,
        Arch::Bit64 => 8,
    }
}

/// Size in bytes of a pointer for the given architecture.
#[inline]
pub fn ptr_size(arch: Arch) -> (r: usize)
    ensures
        r == pointer_size(arch),
{
    match arch {
        Arch::Bit32 => 4,
        Arch::Bit64 => 8,
    }
}

/// A pointer takes eight bytes in a 64-bit image and four in a 32-bit one.
pub proof fn pointers_fit_the_architecture(arch: Arch)
    ensures
        arch == Arch::Bit64 ==> pointer_size(arch) == 8,
        arch == Arch::Bit32 ==> pointer_size(arch) == 4,
{
}

} // verus!
