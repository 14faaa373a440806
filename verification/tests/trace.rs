//! The code and the log of traced functions.

use pe_edit::process::tracer::{
    build_hook_stub, build_patch, build_trampoline, log_entries, HookTable,
};

#[test]
fn stub_logs_and_forwards() {
    let b = build_hook_stub(0x1122_3344_5566_7788, 5, 0x0102_0304_0506_0708);
    assert_eq!(b.len(), 105);
    assert_eq!(&b[..9], &[0x51, 0x52, 0x41, 0x50, 0x41, 0x51, 0x50, 0x48, 0xb8]);
    assert_eq!(&b[9..17], &0x1122_3344_5566_7788u64.to_le_bytes());
    assert_eq!(&b[31..39], &5u64.to_le_bytes());
    assert_eq!(&b[91..97], &[0xff, 0x25, 0, 0, 0, 0]);
    assert_eq!(&b[97..], &0x0102_0304_0506_0708u64.to_le_bytes());
}

#[test]
fn trampoline_keeps_the_prologue() {
    let original = [1, 2, 3, 4, 5, 6, 7, 8, 9, 10, 11, 12, 13, 14];
    let b = build_trampoline(&original, 0x7ff0_0000_1000);
    assert_eq!(&b[..14], &original);
    assert_eq!(&b[14..20], &[0xff, 0x25, 0, 0, 0, 0]);
    assert_eq!(&b[20..], &0x7ff0_0000_100eu64.to_le_bytes());
    assert_eq!(build_patch(0x10).len(), original.len());
    assert_eq!(build_patch(0x10)[6..], 0x10u64.to_le_bytes());
}

#[test]
fn log_is_decoded_by_hook() {
    let mut hooks = HookTable::new();
    assert_eq!(hooks.next_id(), 1);
    hooks.record(1, "CreateFileW", 0x1000, [0; 14]);
    assert_eq!(hooks.next_id(), 2);
    hooks.record(2, "ReadFile", 0x2000, [0; 14]);
    assert_eq!(hooks.hooked(), vec!["CreateFileW", "ReadFile"]);
    let mut log = Vec::new();
    for v in [2u64, 10, 11, 12, 13, 9, 20, 21, 22, 23] {
        log.extend_from_slice(&v.to_le_bytes());
    }
    let calls = hooks.decode_log(&log, 2);
    assert_eq!(calls.len(), 2);
    assert_eq!(calls[0].name, "ReadFile");
    assert_eq!(
        (calls[0].arg1, calls[0].arg2, calls[0].arg3, calls[0].arg4),
        (10, 11, 12, 13)
    );
    assert_eq!(calls[1].hook_id, 9);
    assert_eq!(calls[1].name, "");
    assert!(hooks.decode_log(&log, 0).is_empty());
}

#[test]
fn log_length_is_capped() {
    assert_eq!(log_entries(0), 0);
    assert_eq!(log_entries(7), 7);
    assert_eq!(log_entries(u64::MAX), 4096);
}

#[test]
fn hook_is_written_and_restored() {
    let mut hooks = HookTable::new();
    let original = [7; 14];
    let writes = hooks.plan_hook(0x5000, 0x1000, 0x9000, &original);
    assert_eq!(writes.len(), 3);
    assert_eq!(writes[0].at, 0x9000);
    assert_eq!(writes[0].bytes, build_hook_stub(0x5000, 1, 0x9100));
    assert_eq!(writes[1].at, 0x9100);
    assert_eq!(writes[1].bytes, build_trampoline(&original, 0x1000));
    assert_eq!(writes[2].at, 0x1000);
    assert_eq!(writes[2].bytes, build_patch(0x9000));
    hooks.record(1, "Sleep", 0x1000, original);
    let restore = hooks.plan_restore();
    assert_eq!(restore.len(), 1);
    assert_eq!(restore[0].at, 0x1000);
    assert_eq!(restore[0].bytes, original);
    hooks.clear();
    assert!(hooks.plan_restore().is_empty());
}
