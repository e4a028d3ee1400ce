//! Process identifiers, their allocator, and the kernel stacks that belong to them.
use vstd::prelude::*;
use crate::config::{KERNEL_STACK_SIZE, PAGE_SIZE};

verus! {

/// The highest page of the address space, where the trampoline lies.
pub const TRAMPOLINE: u64 = 0xffff_ffff_ffff_f000;

/// The largest process identifier: the last one whose kernel stack, below its guard page,
/// still lies at or above address 0 under the trampoline.
pub const MAX_PID: u64 = 0x5_5555_5555_5554;

/// A process identifier.
#[derive(Clone, Copy, Debug, PartialEq, Eq)]
pub struct PidHandle(pub usize);

/// The kernel stack of the process whose identifier it holds.
#[derive(Clone, Copy, Debug, PartialEq, Eq)]
pub struct KernelStack(pub usize);

/// The top of the kernel stack of process `pid`: the stacks lie below the trampoline,
/// each followed by an unmapped guard page.
pub open spec fn kernel_stack_top(pid: int) -> int {
    TRAMPOLINE - pid * (KERNEL_STACK_SIZE + PAGE_SIZE)
}

/// `MAX_PID` is the largest identifier whose kernel stack fits below the trampoline.
pub proof fn lemma_max_pid()
    ensures
        kernel_stack_top(MAX_PID as int) - KERNEL_STACK_SIZE >= 0,
        kernel_stack_top(MAX_PID + 1) - KERNEL_STACK_SIZE < 0,
{
}

impl KernelStack {
    /// The top of this kernel stack.
    pub fn get_top(&self) -> (r: u64)
        requires
            self.0 <= MAX_PID,
        ensures
            r == kernel_stack_top(self.0 as int),
    {
        let id = self.0 as u64;
        assert(id * 12288 <= 0x5_5555_5555_5554 * 12288) by (nonlinear_arith) requires id <= 0x5_5555_5555_5554u64;
        TRAMPOLINE - id * ((KERNEL_STACK_SIZE + PAGE_SIZE) as u64)
    }
}

/// Allocator `p1` is what handing out identifier `pid` leaves of allocator `p0`: `pid` is
/// the one that `p0` hands out next, it was not in use, and now it is.
pub open spec fn pid_taken(p0: PidAllocator, p1: PidAllocator, pid: usize) -> bool {
    &&& p1.wf()
    &&& pid == p0.next_pid()
    &&& pid <= MAX_PID
    &&& !p0.in_use().contains(pid)
    &&& p1.in_use() == p0.in_use().insert(pid)
    &&& p0.sequential() ==> p1.sequential() && p1.next_pid() == p0.next_pid() + 1
}

/// The allocator of process identifiers: it hands out the identifiers returned to it
/// first, most recent first, and otherwise the lowest identifier never handed out.
pub struct PidAllocator {
    current: usize,
    recycled: Vec<usize>,
}

impl PidAllocator {
    /// The bookkeeping is consistent: the returned identifiers are distinct and were
    /// handed out before, and no identifier past `MAX_PID` was handed out.
    pub closed spec fn wf(&self) -> bool {
        &&& self.recycled@.no_duplicates()
        &&& forall|i: int| 0 <= i < self.recycled@.len() ==> #[trigger] self.recycled@[i] < self.current
        &&& self.current <= MAX_PID + 1
    }

    /// The identifiers handed out and not returned.
    pub closed spec fn in_use(&self) -> Set<usize> {
        Set::new(|p: usize| p < self.current && !self.recycled@.contains(p))
    }

    /// The identifier that the next allocation hands out.
    pub closed spec fn next_pid(&self) -> usize {
        if self.recycled@.len() > 0 { self.recycled@.last() } else { self.current }
    }

    /// No identifier was returned: the identifiers in use are exactly those below
    /// `next_pid`.
    pub closed spec fn sequential(&self) -> bool {
        self.recycled@.len() == 0
    }

    /// An identifier is left to hand out.
    pub open spec fn can_alloc(&self) -> bool {
        !self.sequential() || (self.next_pid() <= MAX_PID && self.next_pid() < usize::MAX)
    }

    /// An allocator that has handed out nothing.
    pub fn new() -> (r: PidAllocator)
        ensures
            r.wf(),
            r.sequential(),
            r.next_pid() == 0,
            r.in_use() == Set::<usize>::empty(),
    {
        let r = PidAllocator { current: 0, recycled: Vec::new() };
        assert(r.in_use() =~= Set::<usize>::empty());
        r
    }

    /// Hands out an identifier that is not in use.
    pub fn allocate(&mut self) -> (r: usize)
        requires
            old(self).wf(),
            old(self).can_alloc(),
        ensures
            final(self).wf(),
            r == old(self).next_pid(),
            r <= MAX_PID,
            !old(self).in_use().contains(r),
            final(self).in_use() == old(self).in_use().insert(r),
            old(self).sequential() ==> final(self).sequential() && final(self).next_pid() == old(self).next_pid() + 1,
    {
        if self.recycled.len() > 0 {
            let p = self.recycled.pop().unwrap();
            proof {
                let o = old(self).recycled@;
                assert(o.last() == p);
                assert(self.recycled@ =~= o.drop_last());
                assert(o[o.len() - 1] == p);
                assert forall|q: usize| #[trigger] self.in_use().contains(q) <==> old(self).in_use().insert(p).contains(q) by {
                    if q != p && o.contains(q) {
                        let j = choose|j: int| 0 <= j < o.len() && o[j] == q;
                        assert(j != o.len() - 1);
                        assert(self.recycled@[j] == q);
                    }
                    if self.recycled@.contains(q) {
                        let j = choose|j: int| 0 <= j < self.recycled@.len() && self.recycled@[j] == q;
                        assert(o[j] == q);
                    }
                    if q == p && self.recycled@.contains(p) {
                        let j = choose|j: int| 0 <= j < self.recycled@.len() && self.recycled@[j] == p;
                        assert(o[j] == p && j != o.len() - 1);
                    }
                }
                assert(self.in_use() =~= old(self).in_use().insert(p));
            }
            p
        } else {
            let p = self.current;
            self.current = self.current + 1;
            assert(self.in_use() =~= old(self).in_use().insert(p));
            p
        }
    }

    /// Takes back identifier `pid`, which was in use.
    pub fn recycle(&mut self, pid: usize)
        requires
            old(self).wf(),
            old(self).in_use().contains(pid),
        ensures
            final(self).wf(),
            final(self).in_use() == old(self).in_use().remove(pid),
            final(self).next_pid() == pid,
            !final(self).sequential(),
    {
        self.recycled.push(pid);
        proof {
            let o = old(self).recycled@;
            assert forall|i: int, j: int| 0 <= i < j < self.recycled@.len() implies self.recycled@[i] != self.recycled@[j] by {
                if j == o.len() {
                    assert(self.recycled@[i] == o[i]);
                    assert(o.contains(o[i]));
                } else {
                    assert(self.recycled@[i] == o[i] && self.recycled@[j] == o[j]);
                }
            }
            assert(self.recycled@.last() == pid);
            assert forall|q: usize| #[trigger] self.in_use().contains(q) <==> old(self).in_use().remove(pid).contains(q) by {
                if o.contains(q) {
                    let j = choose|j: int| 0 <= j < o.len() && o[j] == q;
                    assert(self.recycled@[j] == q);
                }
                if self.recycled@.contains(q) && q != pid {
                    let j = choose|j: int| 0 <= j < self.recycled@.len() && self.recycled@[j] == q;
                    assert(j < o.len());
                    assert(o[j] == q);
                }
                if q == pid {
                    assert(self.recycled@[o.len() as int] == pid);
                }
            }
            assert(self.in_use() =~= old(self).in_use().remove(pid));
        }
    }
}

} // verus!
