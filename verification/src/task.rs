//! The callee-saved register context of a kernel thread and how a fresh
//! thread's first switch is set up.

use vstd::prelude::*;

verus! {

/// The registers a context switch saves and restores, with the address
/// space root.
#[derive(Debug, Clone, Copy, PartialEq, Eq, Structural)]
pub struct TaskContext {
    pub r15: u64,
    pub r14: u64,
    pub r13: u64,
    pub r12: u64,
    pub rbp: u64,
    pub rbx: u64,
    pub rsp: u64,
    pub cr3: u64,
}

/// The two words a fresh kernel thread's stack starts with, as
/// (address, value) pairs: the entry point just below the top, where the
/// switch's `ret` finds it, and below that the address the entry returns
/// to.
pub struct ThreadStackFrame {
    pub entry_slot: (u64, u64),
    pub return_slot: (u64, u64),
}

impl TaskContext {
    /// The context of a kernel thread about to run `entry` on the stack
    /// whose top is `stack_top`: every general register cleared, the stack
    /// and frame pointers on the return slot; with the two words to write
    /// on the stack first.
    pub fn new_kernel_thread(entry: u64, stack_top: u64, cr3: u64, exit_addr: u64) -> (r: (TaskContext, ThreadStackFrame))
        requires
            stack_top >= 16,
        ensures
            r.0 == (TaskContext { r15: 0, r14: 0, r13: 0, r12: 0, rbp: (stack_top - 16) as u64, rbx: 0,
                rsp: (stack_top - 16) as u64, cr3 }),
            r.1.entry_slot == ((stack_top - 8) as u64, entry),
            r.1.return_slot == ((stack_top - 16) as u64, exit_addr),
    {
        let mut rsp = stack_top;
        rsp = rsp - 8;
        let entry_slot = (rsp, entry);
        rsp = rsp - 8;
        let return_slot = (rsp, exit_addr);
        (TaskContext { r15: 0, r14: 0, r13: 0, r12: 0, rbp: rsp, rbx: 0, rsp, cr3 },
            ThreadStackFrame { entry_slot, return_slot })
    }
}

} // verus!
