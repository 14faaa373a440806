//! Load configuration directory (`IMAGE_LOAD_CONFIG_DIRECTORY`).
//!
//! The structure is variable-length: the `size` field says how many bytes are
//! actually present, so fields beyond it are not meaningful.

use vstd::prelude::*;

verus! {

/// `IMAGE_GUARD_*` flag bits (Control Flow Guard).
pub const IMAGE_GUARD_CF_INSTRUMENTED: u32 = 0x0000_0100;

pub const IMAGE_GUARD_CFW_INSTRUMENTED: u32 = 0x0000_0200;

pub const IMAGE_GUARD_CF_FUNCTION_TABLE_PRESENT: u32 = 0x0000_0400;

pub const IMAGE_GUARD_CF_ENABLE_EXPORT_SUPPRESSION: u32 = 0x0000_4000;

/// The load configuration directory, with address fields widened to `u64` for
/// both PE32 and PE32+.
#[derive(Debug, Clone, Copy, PartialEq, Eq, Structural)]
pub struct LoadConfigDirectory {
    pub size: u32,
    pub time_date_stamp: u32,
    pub major_version: u16,
    pub minor_version: u16,
    pub global_flags_clear: u32,
    pub global_flags_set: u32,
    pub security_cookie: u64,
    pub se_handler_table: u64,
    pub se_handler_count: u64,
    pub guard_cf_check_function_pointer: u64,
    pub guard_cf_dispatch_function_pointer: u64,
    pub guard_cf_function_table: u64,
    pub guard_cf_function_count: u64,
    pub guard_flags: u32,
    pub guard_address_taken_iat_entry_table: u64,
    pub guard_address_taken_iat_entry_count: u64,
    pub guard_long_jump_target_table: u64,
    pub guard_long_jump_target_count: u64,
    pub guard_eh_continuation_table: u64,
    pub guard_eh_continuation_count: u64,
    pub guard_xfg_check_function_pointer: u64,
    pub guard_xfg_dispatch_function_pointer: u64,
    pub chpe_metadata_pointer: u64,
    pub hot_patch_table_offset: u32,
}

/// The load configuration with every field zero.
pub open spec fn zero_load_config() -> LoadConfigDirectory {
    LoadConfigDirectory {
        size: 0,
        time_date_stamp: 0,
        major_version: 0,
        minor_version: 0,
        global_flags_clear: 0,
        global_flags_set: 0,
        security_cookie: 0,
        se_handler_table: 0,
        se_handler_count: 0,
        guard_cf_check_function_pointer: 0,
        guard_cf_dispatch_function_pointer: 0,
        guard_cf_function_table: 0,
        guard_cf_function_count: 0,
        guard_flags: 0,
        guard_address_taken_iat_entry_table: 0,
        guard_address_taken_iat_entry_count: 0,
        guard_long_jump_target_table: 0,
        guard_long_jump_target_count: 0,
        guard_eh_continuation_table: 0,
        guard_eh_continuation_count: 0,
        guard_xfg_check_function_pointer: 0,
        guard_xfg_dispatch_function_pointer: 0,
        chpe_metadata_pointer: 0,
        hot_patch_table_offset: 0,
    }
}

impl Default for LoadConfigDirectory {
    fn default() -> (r: LoadConfigDirectory)
        ensures
            r == zero_load_config(),
    {
        LoadConfigDirectory {
            size: 0,
            time_date_stamp: 0,
            major_version: 0,
            minor_version: 0,
            global_flags_clear: 0,
            global_flags_set: 0,
            security_cookie: 0,
            se_handler_table: 0,
            se_handler_count: 0,
            guard_cf_check_function_pointer: 0,
            guard_cf_dispatch_function_pointer: 0,
            guard_cf_function_table: 0,
            guard_cf_function_count: 0,
            guard_flags: 0,
            guard_address_taken_iat_entry_table: 0,
            guard_address_taken_iat_entry_count: 0,
            guard_long_jump_target_table: 0,
            guard_long_jump_target_count: 0,
            guard_eh_continuation_table: 0,
            guard_eh_continuation_count: 0,
            guard_xfg_check_function_pointer: 0,
            guard_xfg_dispatch_function_pointer: 0,
            chpe_metadata_pointer: 0,
            hot_patch_table_offset: 0,
        }
    }
}

} // verus!
