//! Tasks: their control blocks, their scheduling state, and the task manager.
pub mod context;
pub mod manager;
pub mod pid;
pub mod stride;
pub mod task;

use vstd::prelude::*;
use crate::config::MAX_SYSCALL_ID;
use crate::mm::address::{VirtAddr, page_of, VPN_LIMIT};
use crate::mm::frame::PhysMemory;
use crate::mm::page_table::{MapPermission, PageTableEntry};
use crate::task::context::TaskContext;
use crate::task::manager::{TaskManager, next_ready, with_status, ready_at, other_ready, lemma_status_keeps_wf,
    lemma_next_ready_is_ready};
use crate::task::task::TaskControlBlock;
use crate::task::pid::MAX_PID;
use crate::task::task::{TaskStatus, counted, map_frame_result, unmap_frame_result, brk_result, brk_change_defined,
    mut_ref_target, ref_target};
use crate::trap::{TrapContext, holds_trap_cx};

verus! {

/// Marks the first task running and returns its context, to switch to.
pub fn run_first_task(tm: &mut TaskManager) -> (r: TaskContext)
    requires
        old(tm).num_app > 0,
        old(tm).inner.tasks@.len() == old(tm).num_app,
    ensures
        r == old(tm).tasks()[0].inner.task_cx,
        final(tm).tasks() == old(tm).tasks().update(0, with_status(old(tm).tasks()[0], TaskStatus::Running)),
        final(tm).num_app == old(tm).num_app,
        final(tm).inner.current_task == old(tm).inner.current_task,
        final(tm).inner.syscall_cnt == old(tm).inner.syscall_cnt,
{
    tm.run_first_task()
}

/// Switches to the task that round-robin scheduling picks, which must exist.
fn run_next_task(tm: &mut TaskManager) -> (r: (usize, usize))
    requires
        old(tm).num_app > 0,
        old(tm).num_app <= MAX_PID + 1,
        old(tm).inner.tasks@.len() == old(tm).num_app,
        old(tm).inner.current_task < old(tm).num_app,
        next_ready(old(tm).tasks(), old(tm).current()).is_some(),
    ensures
        ({
            let n = next_ready(old(tm).tasks(), old(tm).current()).unwrap();
            &&& r == (old(tm).inner.current_task, n as usize)
            &&& final(tm).inner.current_task == n
            &&& final(tm).tasks() == old(tm).tasks().update(n, with_status(old(tm).tasks()[n], TaskStatus::Running))
        }),
        final(tm).num_app == old(tm).num_app,
        final(tm).inner.syscall_cnt == old(tm).inner.syscall_cnt,
{
    tm.run_next_task()
}

/// Suspends the running task and switches to the task that round-robin scheduling
/// picks, which may be the suspended task itself. Returns the pair of tasks to switch
/// between.
pub fn suspend_current_and_run_next(tm: &mut TaskManager, phys: &PhysMemory) -> (r: (usize, usize))
    requires
        old(tm).wf_in(phys),
        old(tm).num_app > 0,
    ensures
        final(tm).wf_in(phys),
        ({
            let suspended = old(tm).tasks().update(old(tm).current(),
                with_status(old(tm).tasks()[old(tm).current()], TaskStatus::Ready));
            let n = next_ready(suspended, old(tm).current()).unwrap();
            &&& next_ready(suspended, old(tm).current()).is_some()
            &&& r == (old(tm).inner.current_task, n as usize)
            &&& final(tm).inner.current_task == n
            &&& final(tm).tasks() == suspended.update(n, with_status(suspended[n], TaskStatus::Running))
        }),
        final(tm).num_app == old(tm).num_app,
        final(tm).inner.syscall_cnt == old(tm).inner.syscall_cnt,
{
    let ghost m0 = *tm;
    tm.mark_current_suspended();
    let ghost m1 = *tm;
    proof {
        lemma_status_keeps_wf(m0, m1, m0.current(), TaskStatus::Ready, phys);
        let n = m1.num_app as int;
        let cur = m1.current();
        assert((cur + n) % n == cur) by (nonlinear_arith) requires 0 <= cur < n;
        assert(ready_at(m1.tasks(), cur, n));
        lemma_next_ready_is_ready(m1.tasks(), cur);
    }
    let r = run_next_task(tm);
    proof {
        lemma_next_ready_is_ready(m1.tasks(), m1.current());
        let n = next_ready(m1.tasks(), m1.current()).unwrap() as int;
        lemma_status_keeps_wf(m1, *tm, n, TaskStatus::Running, phys);
    }
    r
}

/// When a task other than `cur` is ready, round-robin scheduling after `cur` picks one.
proof fn lemma_other_ready_picked(tasks: Seq<TaskControlBlock>, cur: int)
    requires
        0 <= cur < tasks.len(),
        other_ready(tasks, cur),
    ensures
        next_ready(tasks, cur).is_some(),
{
    let n = tasks.len() as int;
    let i = choose|i: int| 0 <= i < tasks.len() && i != cur && (#[trigger] tasks[i]).inner.task_status == TaskStatus::Ready;
    let d = if i > cur { i - cur } else { i - cur + n };
    assert((cur + d) % n == i) by (nonlinear_arith)
        requires 0 <= cur < n, 0 <= i < n, d == (if i > cur { i - cur } else { i - cur + n });
    assert(ready_at(tasks, cur, d));
    lemma_next_ready_is_ready(tasks, cur);
}

/// Marks the running task exited and switches to the task that round-robin scheduling
/// picks, which must be another task: the machine has no task left to run otherwise.
pub fn exit_current_and_run_next(tm: &mut TaskManager, phys: &PhysMemory) -> (r: (usize, usize))
    requires
        old(tm).wf_in(phys),
        old(tm).num_app > 0,
        other_ready(old(tm).tasks(), old(tm).current()),
    ensures
        final(tm).wf_in(phys),
        ({
            let exited = old(tm).tasks().update(old(tm).current(),
                with_status(old(tm).tasks()[old(tm).current()], TaskStatus::Zombie));
            let n = next_ready(exited, old(tm).current()).unwrap();
            &&& next_ready(exited, old(tm).current()).is_some()
            &&& r == (old(tm).inner.current_task, n as usize)
            &&& n != old(tm).current()
            &&& final(tm).inner.current_task == n
            &&& final(tm).tasks() == exited.update(n, with_status(exited[n], TaskStatus::Running))
        }),
        final(tm).num_app == old(tm).num_app,
        final(tm).inner.syscall_cnt == old(tm).inner.syscall_cnt,
{
    let ghost m0 = *tm;
    tm.mark_current_exited();
    let ghost m1 = *tm;
    proof {
        lemma_status_keeps_wf(m0, m1, m0.current(), TaskStatus::Zombie, phys);
        let i = choose|i: int| 0 <= i < m0.tasks().len() && i != m0.current()
            && (#[trigger] m0.tasks()[i]).inner.task_status == TaskStatus::Ready;
        assert(m1.tasks()[i] == m0.tasks()[i]);
        assert(other_ready(m1.tasks(), m1.current()));
        lemma_other_ready_picked(m1.tasks(), m1.current());
        lemma_next_ready_is_ready(m1.tasks(), m1.current());
    }
    let r = run_next_task(tm);
    proof {
        let n = next_ready(m1.tasks(), m1.current()).unwrap();
        lemma_status_keeps_wf(m1, *tm, n, TaskStatus::Running, phys);
    }
    r
}

/// The token of the running task's address space.
pub fn current_user_token(tm: &TaskManager, phys: &PhysMemory) -> (r: u64)
    requires
        tm.wf_in(phys),
        tm.num_app > 0,
    ensures
        r == 0x8000_0000_0000_0000u64 + tm.current_inner().memory_set.root(),
{
    tm.get_current_token(phys)
}

/// The trap context of the running task.
pub fn current_trap_cx(tm: &TaskManager, phys: &PhysMemory) -> (r: TrapContext)
    requires
        tm.wf_in(phys),
        tm.num_app > 0,
    ensures
        holds_trap_cx(phys.mem(), tm.current_inner().trap_cx_ppn, r),
{
    tm.get_current_trap_cx(phys)
}

/// Moves the running task's program break by `size` bytes and returns the old break.
pub fn change_program_brk(tm: &mut TaskManager, phys: &mut PhysMemory, size: i32) -> (r: Option<u64>)
    requires
        old(tm).wf_in(old(phys)),
        old(tm).num_app > 0,
        brk_change_defined(old(tm).current_inner(), old(phys).free_count(), size),
    ensures
        final(tm).wf_in(final(phys)),
        final(tm).num_app == old(tm).num_app,
        final(tm).inner.current_task == old(tm).inner.current_task,
        final(tm).inner.syscall_cnt == old(tm).inner.syscall_cnt,
        final(tm).tasks() == old(tm).tasks().update(old(tm).current(), final(tm).tasks()[old(tm).current()]),
        brk_result(old(tm).tasks()[old(tm).current()], final(tm).tasks()[old(tm).current()],
            *old(phys), *final(phys), size, r),
{
    tm.change_current_program_brk(phys, size)
}

/// Where the kernel writes for user address `vaddr` of the running task.
pub fn get_mut_ref(tm: &TaskManager, phys: &PhysMemory, vaddr: VirtAddr) -> (r: Option<u64>)
    requires
        tm.wf_in(phys),
        tm.num_app > 0,
    ensures
        r == match mut_ref_target(tm.current_inner().memory_set.pt(), vaddr.0) {
            Some(pa) => Some(pa as u64),
            None => None::<u64>,
        },
        r matches Some(pa) ==> pa < phys.mem().len(),
        mut_ref_target(tm.current_inner().memory_set.pt(), vaddr.0) matches Some(pa) ==> 0 <= pa < phys.mem().len() && pa < 0x8000_0000,
{
    tm.get_mut_ref(phys, vaddr)
}

/// Where the kernel reads for user address `vaddr` of the running task.
pub fn get_ref(tm: &TaskManager, phys: &PhysMemory, vaddr: VirtAddr) -> (r: Option<u64>)
    requires
        tm.wf_in(phys),
        tm.num_app > 0,
    ensures
        r == match ref_target(tm.current_inner().memory_set.pt(), vaddr.0) {
            Some(pa) => Some(pa as u64),
            None => None::<u64>,
        },
        r matches Some(pa) ==> pa < phys.mem().len(),
        ref_target(tm.current_inner().memory_set.pt(), vaddr.0) matches Some(pa) ==> 0 <= pa < phys.mem().len() && pa < 0x8000_0000,
{
    tm.get_ref(phys, vaddr)
}

/// Counts one more call of system call `id`, wrapping around at `usize::MAX`.
pub fn inc_syscall(tm: &mut TaskManager, id: usize)
    requires
        old(tm).inner.syscall_cnt@.len() == MAX_SYSCALL_ID,
        id < MAX_SYSCALL_ID,
    ensures
        final(tm).inner.syscall_cnt@ == counted(old(tm).inner.syscall_cnt@, id as int),
        final(tm).inner.tasks == old(tm).inner.tasks,
        final(tm).inner.current_task == old(tm).inner.current_task,
        final(tm).num_app == old(tm).num_app,
{
    tm.inc_syscall(id);
}

/// How many times system call `id` was made.
pub fn get_syscall_cnt(tm: &TaskManager, id: usize) -> (r: usize)
    requires
        tm.inner.syscall_cnt@.len() == MAX_SYSCALL_ID,
        id < MAX_SYSCALL_ID,
    ensures
        r == tm.inner.syscall_cnt@[id as int],
{
    tm.get_syscall_cnt(id)
}

/// Resets every system call counter to zero.
pub fn clear_syscall(tm: &mut TaskManager)
    requires
        old(tm).inner.syscall_cnt@.len() == MAX_SYSCALL_ID,
    ensures
        final(tm).inner.syscall_cnt@ == Seq::new(MAX_SYSCALL_ID as nat, |i: int| 0usize),
        final(tm).inner.tasks == old(tm).inner.tasks,
        final(tm).inner.current_task == old(tm).inner.current_task,
        final(tm).num_app == old(tm).num_app,
{
    tm.clear_syscall();
}

/// Maps the framed area `va .. ve` with permission `perm` into the running task.
pub fn map_frame(tm: &mut TaskManager, phys: &mut PhysMemory, va: VirtAddr, ve: VirtAddr, perm: MapPermission) -> (r: bool)
    requires
        old(tm).wf_in(old(phys)),
        old(tm).num_app > 0,
    ensures
        final(tm).wf_in(final(phys)),
        final(tm).num_app == old(tm).num_app,
        final(tm).inner.current_task == old(tm).inner.current_task,
        final(tm).inner.syscall_cnt == old(tm).inner.syscall_cnt,
        final(tm).tasks() == old(tm).tasks().update(old(tm).current(), final(tm).tasks()[old(tm).current()]),
        map_frame_result(old(tm).tasks()[old(tm).current()], final(tm).tasks()[old(tm).current()],
            *old(phys), *final(phys), va, ve, perm, r),
{
    tm.map_frame(phys, va, ve, perm)
}

/// Unmaps the area `va .. ve` from the running task.
pub fn unmap_frame(tm: &mut TaskManager, phys: &mut PhysMemory, va: VirtAddr, ve: VirtAddr) -> (r: bool)
    requires
        old(tm).wf_in(old(phys)),
        old(tm).num_app > 0,
    ensures
        final(tm).wf_in(final(phys)),
        final(tm).num_app == old(tm).num_app,
        final(tm).inner.current_task == old(tm).inner.current_task,
        final(tm).inner.syscall_cnt == old(tm).inner.syscall_cnt,
        final(tm).tasks() == old(tm).tasks().update(old(tm).current(), final(tm).tasks()[old(tm).current()]),
        unmap_frame_result(old(tm).tasks()[old(tm).current()], final(tm).tasks()[old(tm).current()],
            *old(phys), *final(phys), va, ve, r),
{
    tm.unmap_frame(phys, va, ve)
}

/// The page-table entry that translates the page of `vaddr` in the running task.
pub fn debug_vaddr(tm: &TaskManager, vaddr: VirtAddr) -> (r: Option<PageTableEntry>)
    requires
        tm.num_app > 0,
        tm.inner.tasks@.len() == tm.num_app,
        tm.inner.current_task < tm.num_app,
    ensures
        match r {
            Some(e) => tm.current_inner().memory_set.pt().contains_key(page_of(vaddr.0 as int) as u64 % VPN_LIMIT)
                && tm.current_inner().memory_set.pt()[page_of(vaddr.0 as int) as u64 % VPN_LIMIT] == e,
            None => !tm.current_inner().memory_set.pt().contains_key(page_of(vaddr.0 as int) as u64 % VPN_LIMIT),
        },
{
    tm.debug_vaddr(vaddr)
}

} // verus!
