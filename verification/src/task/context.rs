//! The registers saved when the kernel switches from one task to another.
use vstd::prelude::*;

verus! {

/// The callee-saved registers of a task suspended inside the kernel.
#[derive(Clone, Copy, Debug)]
pub struct TaskContext {
    /// the return address
    pub ra: u64,
    /// the kernel stack pointer
    pub sp: u64,
    /// the saved registers s0 .. s11
    pub s: [u64; 12],
}

impl TaskContext {
    /// A context with every register zero.
    pub fn zero_init() -> (r: TaskContext)
        ensures
            r.ra == 0,
            r.sp == 0,
            forall|i: int| 0 <= i < 12 ==> #[trigger] r.s@[i] == 0,
    {
        TaskContext { ra: 0, sp: 0, s: [0u64; 12] }
    }

    /// The context that resumes at the return-to-user routine `trap_return` on the kernel
    /// stack whose top is `kstack_ptr`.
    pub fn goto_trap_return(kstack_ptr: u64, trap_return: u64) -> (r: TaskContext)
        ensures
            r.ra == trap_return,
            r.sp == kstack_ptr,
            forall|i: int| 0 <= i < 12 ==> #[trigger] r.s@[i] == 0,
    {
        TaskContext { ra: trap_return, sp: kstack_ptr, s: [0u64; 12] }
    }
}

} // verus!
