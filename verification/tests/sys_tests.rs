//! Decoding of the raw system-call return convention and the flag words.

use libtinyos::sys::{
    as_res, stderr, stdin, stdout, OpenOptions, SysCallDispatch, SysResultCode, UnlinkOptions,
    OPEN_APPEND, OPEN_READ, OPEN_TRUNCATE, OPEN_WRITE, STDERR_FILENO, STDIN_FILENO, STDOUT_FILENO,
    UNLINK_FORCE, UNLINK_RECURSIVE,
};

#[test]
fn success_status_yields_the_payload() {
    assert_eq!(as_res(5, 0), Ok(5));
    assert_eq!(as_res(0, 0), Ok(0));
    assert_eq!(as_res(u64::MAX, 0), Ok(u64::MAX));
}

#[test]
fn failure_status_yields_the_error() {
    assert_eq!(as_res(5, -1), Err(SysResultCode::Fail));
    // unknown status words still mean failure
    assert_eq!(as_res(5, 7), Err(SysResultCode::Fail));
}

#[test]
fn status_codes_decode_exactly() {
    assert_eq!(SysResultCode::try_from(0), Ok(SysResultCode::Success));
    assert_eq!(SysResultCode::try_from(-1), Ok(SysResultCode::Fail));
    assert_eq!(SysResultCode::try_from(3), Err(3));
}

#[test]
fn dispatch_numbers_match_the_kernel_table() {
    assert_eq!(SysCallDispatch::Open.number(), 0);
    assert_eq!(SysCallDispatch::Write.number(), 3);
    assert_eq!(SysCallDispatch::Mmap.number(), 7);
    assert_eq!(SysCallDispatch::PThreadCreate.number(), 18);
    assert_eq!(SysCallDispatch::PThreadJoin.number(), 21);
}

#[test]
fn open_options_accumulate_flags() {
    let flags = OpenOptions::default();
    assert_eq!(flags.bits(), OPEN_READ);
    let flags = flags.with_write().with_truncate();
    assert_eq!(flags.bits(), OPEN_READ | OPEN_WRITE | OPEN_TRUNCATE);
    let flags = OpenOptions::empty().with_append();
    assert_eq!(flags.bits(), OPEN_APPEND);
    // flags are idempotent
    assert_eq!(
        OpenOptions::empty().with_read().with_read().bits(),
        OPEN_READ
    );
}

#[test]
fn open_flag_values_match_the_kernel_abi() {
    assert_eq!(OPEN_READ, 1);
    assert_eq!(OPEN_WRITE, 2);
    assert_eq!(OPEN_APPEND, 4);
    assert_eq!(OPEN_TRUNCATE, 8);
    assert_eq!(
        OpenOptions::empty().with_no_follow_symlink().bits(),
        1 << 8
    );
}

#[test]
fn unlink_options_accumulate_flags() {
    assert_eq!(UnlinkOptions::default().bits(), 0);
    assert_eq!(UnlinkOptions::default().with_force().bits(), UNLINK_FORCE);
    assert_eq!(
        UnlinkOptions::default().with_force().with_rmdir().bits(),
        UNLINK_FORCE | UNLINK_RECURSIVE
    );
}

#[test]
fn standard_descriptors() {
    assert_eq!(stdin(), 0);
    assert_eq!(stdout(), 1);
    assert_eq!(stderr(), 2);
    assert_eq!(STDIN_FILENO, 0);
    assert_eq!(STDOUT_FILENO, 1);
    assert_eq!(STDERR_FILENO, 2);
}
