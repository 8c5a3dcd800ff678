//! The system-call table of the user-mode entry surface and the results
//! of the current handler.

use vstd::prelude::*;

verus! {

/// The system calls, each with a number that is never reused.
#[derive(Debug, Clone, Copy, PartialEq, Eq, Structural)]
pub enum SyscallNo {
    AllocPages,
    FreePages,
    EmitSignal,
    ResolveCapability,
}

/// Returned for a number that names no system call.
pub const ENOSYS: u64 = 0xFFFF_FFFF_FFFF_FFFF;

pub open spec fn spec_syscall_code(s: SyscallNo) -> u64 {
    match s {
        SyscallNo::AllocPages => 1,
        SyscallNo::FreePages => 2,
        SyscallNo::EmitSignal => 3,
        SyscallNo::ResolveCapability => 4,
    }
}

impl SyscallNo {
    /// The number passed in `rax`.
    pub fn code(self) -> (r: u64)
        ensures
            r == spec_syscall_code(self),
    {
        match self {
            SyscallNo::AllocPages => 1,
            SyscallNo::FreePages => 2,
            SyscallNo::EmitSignal => 3,
            SyscallNo::ResolveCapability => 4,
        }
    }

    /// The system call with number `rax`.
    pub fn from_code(rax: u64) -> (r: Option<SyscallNo>)
        ensures
            r matches Some(s) ==> spec_syscall_code(s) == rax,
            r is None ==> !(1 <= rax <= 4),
    {
        if rax == 1 {
            Some(SyscallNo::AllocPages)
        } else if rax == 2 {
            Some(SyscallNo::FreePages)
        } else if rax == 3 {
            Some(SyscallNo::EmitSignal)
        } else if rax == 4 {
            Some(SyscallNo::ResolveCapability)
        } else {
            None
        }
    }
}

/// What the handler returns for `rax`: 0 (a null page, or success) for the
/// calls it knows, which have no backend yet, and `ENOSYS` otherwise.
pub fn syscall_result(rax: u64) -> (r: u64)
    ensures
        r == (if 1 <= rax <= 4 { 0 } else { ENOSYS }),
{
    match SyscallNo::from_code(rax) {
        Some(_) => 0,
        None => ENOSYS,
    }
}

} // verus!
