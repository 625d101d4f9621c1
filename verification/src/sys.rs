//! Decoding of the raw system-call return convention.
//!
//! Every privileged call hands back a primary result word and a status word;
//! `as_res` turns that pair into a success/failure result.

use vstd::prelude::*;

verus! {

pub type FileDescriptor = u32;

pub const STDIN_FILENO: FileDescriptor = 0;

pub const STDOUT_FILENO: FileDescriptor = 1;

pub const STDERR_FILENO: FileDescriptor = 2;

/// The operations the kernel dispatches on, in the order of their numbers.
#[derive(Debug, Clone, Copy, PartialEq, Eq, Structural)]
pub enum SysCallDispatch {
    Open,
    Close,
    Read,
    Write,
    Yield,
    Exit,
    Kill,
    Mmap,
    Munmap,
    Clone,
    Wait,
    Machine,
    GetPid,
    Seek,
    Dup,
    Spawn,
    Dbg,
    Execve,
    PThreadCreate,
    PThreadExit,
    PThreadCancel,
    PThreadJoin,
}

impl SysCallDispatch {
    /// The operation number the trap instruction carries.
    pub open spec fn spec_number(self) -> u64 {
        match self {
            SysCallDispatch::Open => 0,
            SysCallDispatch::Close => 1,
            SysCallDispatch::Read => 2,
            SysCallDispatch::Write => 3,
            SysCallDispatch::Yield => 4,
            SysCallDispatch::Exit => 5,
            SysCallDispatch::Kill => 6,
            SysCallDispatch::Mmap => 7,
            SysCallDispatch::Munmap => 8,
            SysCallDispatch::Clone => 9,
            SysCallDispatch::Wait => 10,
            SysCallDispatch::Machine => 11,
            SysCallDispatch::GetPid => 12,
            SysCallDispatch::Seek => 13,
            SysCallDispatch::Dup => 14,
            SysCallDispatch::Spawn => 15,
            SysCallDispatch::Dbg => 16,
            SysCallDispatch::Execve => 17,
            SysCallDispatch::PThreadCreate => 18,
            SysCallDispatch::PThreadExit => 19,
            SysCallDispatch::PThreadCancel => 20,
            SysCallDispatch::PThreadJoin => 21,
        }
    }

    pub fn number(&self) -> (r: u64)
        ensures
            r == self.spec_number(),
    {
        match self {
            SysCallDispatch::Open => 0,
            SysCallDispatch::Close => 1,
            SysCallDispatch::Read => 2,
            SysCallDispatch::Write => 3,
            SysCallDispatch::Yield => 4,
            SysCallDispatch::Exit => 5,
            SysCallDispatch::Kill => 6,
            SysCallDispatch::Mmap => 7,
            SysCallDispatch::Munmap => 8,
            SysCallDispatch::Clone => 9,
            SysCallDispatch::Wait => 10,
            SysCallDispatch::Machine => 11,
            SysCallDispatch::GetPid => 12,
            SysCallDispatch::Seek => 13,
            SysCallDispatch::Dup => 14,
            SysCallDispatch::Spawn => 15,
            SysCallDispatch::Dbg => 16,
            SysCallDispatch::Execve => 17,
            SysCallDispatch::PThreadCreate => 18,
            SysCallDispatch::PThreadExit => 19,
            SysCallDispatch::PThreadCancel => 20,
            SysCallDispatch::PThreadJoin => 21,
        }
    }
}

pub const OPEN_READ: u32 = 1u32 << 0;

pub const OPEN_WRITE: u32 = 1u32 << 1;

pub const OPEN_APPEND: u32 = 1u32 << 2;

pub const OPEN_TRUNCATE: u32 = 1u32 << 3;

pub const OPEN_CREATE: u32 = 1u32 << 4;

pub const OPEN_CREATE_DIR: u32 = 1u32 << 5;

pub const OPEN_CREATE_ALL: u32 = 1u32 << 6;

pub const OPEN_CREATE_LINK: u32 = 1u32 << 7;

pub const OPEN_NO_FOLLOW_LINK: u32 = 1u32 << 8;

/// Flag word handed to the kernel's open call.
#[derive(Debug, Clone, Copy, PartialEq, Eq, Structural)]
pub struct OpenOptions(pub u32);

impl OpenOptions {
    pub fn empty() -> (r: OpenOptions)
        ensures
            r.0 == 0,
    {
        OpenOptions(0)
    }

    pub fn bits(self) -> (r: u32)
        ensures
            r == self.0,
    {
        self.0
    }

    pub fn with_read(self) -> (r: OpenOptions)
        ensures
            r.0 == self.0 | OPEN_READ,
    {
        OpenOptions(self.0 | OPEN_READ)
    }

    pub fn with_write(self) -> (r: OpenOptions)
        ensures
            r.0 == self.0 | OPEN_WRITE,
    {
        OpenOptions(self.0 | OPEN_WRITE)
    }

    pub fn with_no_follow_symlink(self) -> (r: OpenOptions)
        ensures
            r.0 == self.0 | OPEN_NO_FOLLOW_LINK,
    {
        OpenOptions(self.0 | OPEN_NO_FOLLOW_LINK)
    }

    pub fn with_truncate(self) -> (r: OpenOptions)
        ensures
            r.0 == self.0 | OPEN_TRUNCATE,
    {
        OpenOptions(self.0 | OPEN_TRUNCATE)
    }

    pub fn with_append(self) -> (r: OpenOptions)
        ensures
            r.0 == self.0 | OPEN_APPEND,
    {
        OpenOptions(self.0 | OPEN_APPEND)
    }
}

impl Default for OpenOptions {
    /// Opening defaults to reading.
    fn default() -> (r: OpenOptions)
        ensures
            r.0 == OPEN_READ,
    {
        OpenOptions(OPEN_READ)
    }
}

pub const UNLINK_FORCE: u32 = 1u32 << 0;

pub const UNLINK_RECURSIVE: u32 = 1u32 << 1;

pub const UNLINK_NO_PRESERVE_ROOT: u32 = 1u32 << 2;

/// Flag word handed to the kernel's unlink call.
#[derive(Debug, Clone, Copy, PartialEq, Eq, Structural)]
pub struct UnlinkOptions(pub u32);

impl UnlinkOptions {
    pub fn bits(self) -> (r: u32)
        ensures
            r == self.0,
    {
        self.0
    }

    pub fn with_force(self) -> (r: UnlinkOptions)
        ensures
            r.0 == self.0 | UNLINK_FORCE,
    {
        UnlinkOptions(self.0 | UNLINK_FORCE)
    }

    pub fn with_rmdir(self) -> (r: UnlinkOptions)
        ensures
            r.0 == self.0 | UNLINK_RECURSIVE,
    {
        UnlinkOptions(self.0 | UNLINK_RECURSIVE)
    }
}

impl Default for UnlinkOptions {
    /// Unlinking defaults to no flags at all.
    fn default() -> (r: UnlinkOptions)
        ensures
            r.0 == 0,
    {
        UnlinkOptions(0)
    }
}

/// Failure word of the minimal syscall layer.
#[derive(Debug, Clone, Copy, PartialEq, Eq, Structural)]
pub enum SysRes {
    Fail,
}

pub fn stdout() -> (r: usize)
    ensures
        r == 1,
{
    1
}

pub fn stderr() -> (r: usize)
    ensures
        r == 2,
{
    2
}

pub fn stdin() -> (r: usize)
    ensures
        r == 0,
{
    0
}

/// Status word of a finished system call.
#[derive(Debug, Clone, Copy, PartialEq, Eq, Structural)]
pub enum SysResultCode {
    Fail,
    Success,
}

impl SysResultCode {
    /// The status value the kernel writes for this code.
    pub open spec fn spec_code(self) -> i64 {
        match self {
            SysResultCode::Success => 0i64,
            SysResultCode::Fail => -1i64,
        }
    }

    /// Decodes a raw status word; unknown values are handed back unchanged.
    pub fn try_from(value: i64) -> (r: Result<SysResultCode, i64>)
        ensures
            value == 0 ==> r == Ok::<SysResultCode, i64>(SysResultCode::Success),
            value == -1 ==> r == Ok::<SysResultCode, i64>(SysResultCode::Fail),
            value != 0 && value != -1 ==> r == Err::<SysResultCode, i64>(value),
    {
        if value == 0 {
            Ok(SysResultCode::Success)
        } else if value == -1 {
            Ok(SysResultCode::Fail)
        } else {
            Err(value)
        }
    }
}

/// Folds the two return words of a system call into one result: the status
/// word decides, and on success the primary word is the payload.
pub fn as_res(r1: u64, r2: i64) -> (r: Result<u64, SysResultCode>)
    ensures
        r2 == 0 ==> r == Ok::<u64, SysResultCode>(r1),
        r2 != 0 ==> r == Err::<u64, SysResultCode>(SysResultCode::Fail),
{
    if r2 != 0 {
        return Err(match SysResultCode::try_from(r2) {
            Ok(code) => code,
            Err(_) => SysResultCode::Fail,
        });
    }
    Ok(r1)
}

} // verus!
