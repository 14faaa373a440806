//! Thread-local storage directory (`IMAGE_TLS_DIRECTORY`).

use vstd::prelude::*;

verus! {

/// The TLS directory, with address fields widened to `u64` for both PE32 and
/// PE32+.
#[derive(Debug, Clone, Copy, PartialEq, Eq, Structural)]
pub struct TlsDirectory {
    pub start_address_of_raw_data: u64,
    pub end_address_of_raw_data: u64,
    pub address_of_index: u64,
    pub address_of_callbacks: u64,
    pub size_of_zero_fill: u32,
    pub characteristics: u32,
}

impl Default for TlsDirectory {
    fn default() -> (r: TlsDirectory)
        ensures
            r == (TlsDirectory {
                start_address_of_raw_data: 0,
                end_address_of_raw_data: 0,
                address_of_index: 0,
                address_of_callbacks: 0,
                size_of_zero_fill: 0,
                characteristics: 0,
            }),
    {
        TlsDirectory {
            start_address_of_raw_data: 0,
            end_address_of_raw_data: 0,
            address_of_index: 0,
            address_of_callbacks: 0,
            size_of_zero_fill: 0,
            characteristics: 0,
        }
    }
}

} // verus!
