//! Data directory table (`IMAGE_DATA_DIRECTORY`).

use crate::domain::types::Rva;
use vstd::prelude::*;

verus! {

/// Index into the data directory array.
#[derive(Debug, Clone, Copy, PartialEq, Eq, Hash, Structural)]
pub enum DataDirectoryIndex {
    Export,
    Import,
    Resource,
    Exception,
    Security,
    BaseReloc,
    Debug,
    Architecture,
    GlobalPtr,
    Tls,
    LoadConfig,
    BoundImport,
    Iat,
    DelayImport,
    ComDescriptor,
}

/// The size of a full data directory array.
pub const DIRECTORY_COUNT: usize = 16;

/// The position of each directory in the array.
pub open spec fn directory_slot(d: DataDirectoryIndex) -> int {
    match d {
        DataDirectoryIndex::Export => 0,
        DataDirectoryIndex::Import => 1,
        DataDirectoryIndex::Resource => 2,
        DataDirectoryIndex::Exception => 3,
        DataDirectoryIndex::Security => 4,
        DataDirectoryIndex::BaseReloc => 5,
        DataDirectoryIndex::Debug => 6,
        DataDirectoryIndex::Architecture => 7,
        DataDirectoryIndex::GlobalPtr => 8,
        DataDirectoryIndex::Tls => 9,
        DataDirectoryIndex::LoadConfig => 10,
        DataDirectoryIndex::BoundImport => 11,
        DataDirectoryIndex::Iat => 12,
        DataDirectoryIndex::DelayImport => 13,
        DataDirectoryIndex::ComDescriptor => 14,
    }
}

/// The variant's identifier, as it is written in messages.
pub open spec fn directory_debug_name(d: DataDirectoryIndex) -> Seq<char> {
    match d {
        DataDirectoryIndex::Export => "Export"@,
        DataDirectoryIndex::Import => "Import"@,
        DataDirectoryIndex::Resource => "Resource"@,
        DataDirectoryIndex::Exception => "Exception"@,
        DataDirectoryIndex::Security => "Security"@,
        DataDirectoryIndex::BaseReloc => "BaseReloc"@,
        DataDirectoryIndex::Debug => "Debug"@,
        DataDirectoryIndex::Architecture => "Architecture"@,
        DataDirectoryIndex::GlobalPtr => "GlobalPtr"@,
        DataDirectoryIndex::Tls => "Tls"@,
        DataDirectoryIndex::LoadConfig => "LoadConfig"@,
        DataDirectoryIndex::BoundImport => "BoundImport"@,
        DataDirectoryIndex::Iat => "Iat"@,
        DataDirectoryIndex::DelayImport => "DelayImport"@,
        DataDirectoryIndex::ComDescriptor => "ComDescriptor"@,
    }
}

/// The directory's display name.
pub open spec fn directory_name(d: DataDirectoryIndex) -> Seq<char> {
    match d {
        DataDirectoryIndex::Tls => "TLS"@,
        DataDirectoryIndex::Iat => "IAT"@,
        DataDirectoryIndex::ComDescriptor => "COM descriptor"@,
        _ => directory_debug_name(d),
    }
}

impl DataDirectoryIndex {
    pub fn to_usize(self) -> (r: usize)
        ensures
            r == directory_slot(self),
    {
        match self {
            DataDirectoryIndex::Export => 0,
            DataDirectoryIndex::Import => 1,
            DataDirectoryIndex::Resource => 2,
            DataDirectoryIndex::Exception => 3,
            DataDirectoryIndex::Security => 4,
            DataDirectoryIndex::BaseReloc => 5,
            DataDirectoryIndex::Debug => 6,
            DataDirectoryIndex::Architecture => 7,
            DataDirectoryIndex::GlobalPtr => 8,
            DataDirectoryIndex::Tls => 9,
            DataDirectoryIndex::LoadConfig => 10,
            DataDirectoryIndex::BoundImport => 11,
            DataDirectoryIndex::Iat => 12,
            DataDirectoryIndex::DelayImport => 13,
            DataDirectoryIndex::ComDescriptor => 14,
        }
    }

    /// The directory at position `i`: `Some` exactly for the fifteen named
    /// positions.
    pub fn from_usize(i: usize) -> (r: Option<Self>)
        ensures
            i < 15 ==> r is Some && directory_slot(r->0) == i,
            i >= 15 ==> r is None,
    {
        match i {
            0 => Some(DataDirectoryIndex::Export),
            1 => Some(DataDirectoryIndex::Import),
            2 => Some(DataDirectoryIndex::Resource),
            3 => Some(DataDirectoryIndex::Exception),
            4 => Some(DataDirectoryIndex::Security),
            5 => Some(DataDirectoryIndex::BaseReloc),
            6 => Some(DataDirectoryIndex::Debug),
            7 => Some(DataDirectoryIndex::Architecture),
            8 => Some(DataDirectoryIndex::GlobalPtr),
            9 => Some(DataDirectoryIndex::Tls),
            10 => Some(DataDirectoryIndex::LoadConfig),
            11 => Some(DataDirectoryIndex::BoundImport),
            12 => Some(DataDirectoryIndex::Iat),
            13 => Some(DataDirectoryIndex::DelayImport),
            14 => Some(DataDirectoryIndex::ComDescriptor),
            _ => None,
        }
    }

    pub fn name(self) -> (r: &'static str)
        ensures
            r@ == directory_name(self),
    {
        match self {
            DataDirectoryIndex::Tls => "TLS",
            DataDirectoryIndex::Iat => "IAT",
            DataDirectoryIndex::ComDescriptor => "COM descriptor",
            _ => self.debug_name(),
        }
    }

    pub(crate) fn debug_name(self) -> (r: &'static str)
        ensures
            r@ == directory_debug_name(self),
    {
        match self {
            DataDirectoryIndex::Export => "Export",
            DataDirectoryIndex::Import => "Import",
            DataDirectoryIndex::Resource => "Resource",
            DataDirectoryIndex::Exception => "Exception",
            DataDirectoryIndex::Security => "Security",
            DataDirectoryIndex::BaseReloc => "BaseReloc",
            DataDirectoryIndex::Debug => "Debug",
            DataDirectoryIndex::Architecture => "Architecture",
            DataDirectoryIndex::GlobalPtr => "GlobalPtr",
            DataDirectoryIndex::Tls => "Tls",
            DataDirectoryIndex::LoadConfig => "LoadConfig",
            DataDirectoryIndex::BoundImport => "BoundImport",
            DataDirectoryIndex::Iat => "Iat",
            DataDirectoryIndex::DelayImport => "DelayImport",
            DataDirectoryIndex::ComDescriptor => "ComDescriptor",
        }
    }
}

/// Two directories at the same position are the same directory.
pub proof fn directory_slot_injective(a: DataDirectoryIndex, b: DataDirectoryIndex)
    requires
        directory_slot(a) == directory_slot(b),
    ensures
        a == b,
{
}

/// One entry of the data directory array.
#[derive(Debug, Clone, Copy, PartialEq, Eq, Structural)]
pub struct DataDirectory {
    pub rva: Rva,
    pub size: u32,
}

/// The entry of an absent directory.
pub open spec fn empty_directory() -> DataDirectory {
    DataDirectory { rva: Rva(0), size: 0 }
}

impl Default for DataDirectory {
    fn default() -> (r: DataDirectory)
        ensures
            r == empty_directory(),
    {
        DataDirectory { rva: Rva(0), size: 0 }
    }
}

} // verus!
