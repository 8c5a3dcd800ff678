//! Trap bookkeeping: which vectors are CPU faults routed to the
//! supervisor, the register block the entry stubs push, and the choice of
//! a slot in the nested trap-frame buffer.

use vstd::prelude::*;

verus! {

/// Page fault.
pub const FAULT_PAGE_FAULT: u64 = 14;
/// General protection fault.
pub const FAULT_GP: u64 = 13;
/// Double fault.
pub const FAULT_DOUBLE: u64 = 8;
/// Stack-segment fault.
pub const FAULT_STACK_SEGMENT: u64 = 12;
/// Slots of the nested trap-frame buffer.
pub const TRAP_BUF_SLOTS: usize = 4;

/// The faults that may fire inside a plugin's dispatch and are handed to
/// the supervisor's fault policy.
pub open spec fn spec_is_cpu_fault(vector: u64) -> bool {
    vector == FAULT_PAGE_FAULT || vector == FAULT_GP || vector == FAULT_DOUBLE || vector == FAULT_STACK_SEGMENT
}

pub fn is_cpu_fault(vector: u64) -> (r: bool)
    ensures
        r == spec_is_cpu_fault(vector),
{
    vector == FAULT_PAGE_FAULT || vector == FAULT_GP || vector == FAULT_DOUBLE || vector == FAULT_STACK_SEGMENT
}

/// The registers as the common entry stub leaves them on the stack, last
/// pushed first, followed by the vector, the error code and the CPU's
/// interrupt frame.
#[derive(Debug, Clone, Copy, PartialEq, Eq, Structural)]
pub struct RawStack {
    pub r15: u64,
    pub r14: u64,
    pub r13: u64,
    pub r12: u64,
    pub r11: u64,
    pub r10: u64,
    pub r9: u64,
    pub r8: u64,
    pub rdi: u64,
    pub rsi: u64,
    pub rbp: u64,
    pub rbx: u64,
    pub rdx: u64,
    pub rcx: u64,
    pub rax: u64,
    pub vector: u64,
    pub error_code: u64,
    pub rip: u64,
    pub cs: u64,
    pub rflags: u64,
    pub rsp: u64,
    pub ss: u64,
}

/// The slot a new trap frame takes: the first free one, or slot 0 when
/// every slot is taken.
pub fn pick_trap_slot(in_use: &[u8; 4]) -> (slot: usize)
    ensures
        slot < TRAP_BUF_SLOTS,
        in_use@[slot as int] == 0 ==> forall|j: int| 0 <= j < slot ==> in_use@[j] != 0,
        in_use@[slot as int] != 0 ==> slot == 0 && forall|j: int| 0 <= j < 4 ==> in_use@[j] != 0,
{
    let mut i: usize = 0;
    while i < TRAP_BUF_SLOTS
        invariant
            i <= TRAP_BUF_SLOTS,
            forall|j: int| 0 <= j < i ==> in_use@[j] != 0,
        decreases TRAP_BUF_SLOTS - i,
    {
        if in_use[i] == 0 {
            return i;
        }
        i = i + 1;
    }
    0
}

} // verus!
