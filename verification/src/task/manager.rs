//! The task manager: the tasks of the system, which one runs, and the round-robin choice
//! of the next one.
use vstd::prelude::*;
use crate::config::{MAX_SYSCALL_ID, PAGE_SIZE};
use crate::mm::address::{VirtAddr, page_of, page_ceil};
use crate::mm::elf::{AppImage, image_wf, frames_needed, frames_for, loaded_image, lemma_loaded_image_kept,
    stack_top_vpn, TRAP_CONTEXT_VPN};
use crate::task::pid::kernel_stack_top;
use crate::mm::frame::PhysMemory;
use crate::mm::memory_set::{MemorySet, lemma_owned_after_map, lemma_owned_after_unmap, map_frame_ok, unmap_frame_ok,
    range_added, range_removed, frames_in, frames_zeroed};
use crate::mm::page_table::{MapPermission, PageTableEntry};
use crate::task::context::TaskContext;
use crate::fs::file::File;
use crate::task::pid::{MAX_PID, PidAllocator};
use crate::task::task::{TaskControlBlock, TaskControlBlockInner, TaskStatus, fresh_inner, counted, map_frame_result, unmap_frame_result,
    brk_result, brk_change_defined, mut_ref_target, ref_target};
use crate::trap::{KernelLayout, TrapContext, holds_trap_cx, lemma_cx_kept};
use crate::mm::memory_set::frames_of;

verus! {

/// The tasks and the bookkeeping of the manager.
pub struct TaskManagerInner {
    /// the tasks, by identifier
    pub tasks: Vec<TaskControlBlock>,
    /// the identifier of the running task
    pub current_task: usize,
    /// how many times each system call was made, by call number
    pub syscall_cnt: Vec<usize>,
}

/// The task manager.
pub struct TaskManager {
    /// the number of tasks
    pub num_app: usize,
    /// the tasks and the bookkeeping
    pub inner: TaskManagerInner,
}

/// No two tasks own a common frame.
pub open spec fn tasks_disjoint(tasks: Seq<TaskControlBlock>) -> bool {
    forall|i: int, j: int| 0 <= i < tasks.len() && 0 <= j < tasks.len() && i != j
        ==> (#[trigger] tasks[i]).inner.memory_set.owned().disjoint((#[trigger] tasks[j]).inner.memory_set.owned())
}

/// The first task after `cur`, in round-robin order over `n` tasks and ending with `cur`
/// itself, whose status is `Ready`: its distance from `cur`.
pub open spec fn ready_at(tasks: Seq<TaskControlBlock>, cur: int, k: int) -> bool {
    tasks[(cur + k) % (tasks.len() as int)].inner.task_status == TaskStatus::Ready
}

/// The distance from `cur` of the first ready task at distance `k` or more, up to the
/// number of tasks.
pub open spec fn first_ready_from(tasks: Seq<TaskControlBlock>, cur: int, k: int) -> Option<int>
    decreases tasks.len() + 1 - k,
{
    if k < 1 || k > tasks.len() {
        None
    } else if ready_at(tasks, cur, k) {
        Some(k)
    } else {
        first_ready_from(tasks, cur, k + 1)
    }
}

/// The task that round-robin scheduling picks after `cur`: the first `Ready` task among
/// `cur + 1, cur + 2, ...` modulo the number of tasks, ending with `cur` itself.
pub open spec fn next_ready(tasks: Seq<TaskControlBlock>, cur: int) -> Option<int> {
    match first_ready_from(tasks, cur, 1) {
        Some(k) => Some((cur + k) % (tasks.len() as int)),
        None => None,
    }
}

/// What `first_ready_from` finds is a ready task at distance at least `k`, with no ready
/// task between `k` and it; when it finds nothing, no task from distance `k` on is ready.
pub(crate) proof fn lemma_first_ready_from(tasks: Seq<TaskControlBlock>, cur: int, k: int)
    requires
        1 <= k,
    ensures
        match first_ready_from(tasks, cur, k) {
            Some(d) => k <= d <= tasks.len() && ready_at(tasks, cur, d)
                && forall|j: int| k <= j < d ==> !ready_at(tasks, cur, j),
            None => forall|j: int| k <= j <= tasks.len() ==> !ready_at(tasks, cur, j),
        },
    decreases tasks.len() + 1 - k,
{
    if k <= tasks.len() && !ready_at(tasks, cur, k) {
        lemma_first_ready_from(tasks, cur, k + 1);
    }
}

/// Some task other than task `cur` is ready.
pub open spec fn other_ready(tasks: Seq<TaskControlBlock>, cur: int) -> bool {
    exists|i: int| 0 <= i < tasks.len() && i != cur && (#[trigger] tasks[i]).inner.task_status == TaskStatus::Ready
}

/// The frames that loading every image of `apps` takes.
pub open spec fn total_frames_needed(apps: Seq<AppImage>) -> int
    decreases apps.len(),
{
    if apps.len() == 0 {
        0
    } else {
        total_frames_needed(apps.drop_last()) + frames_needed(apps.last())
    }
}

/// The number of frames that loading every image of `apps` takes: the executable form of
/// `total_frames_needed`; `None` when that number does not fit in 64 bits.
pub fn total_frames_for(apps: &Vec<AppImage>) -> (r: Option<u64>)
    requires
        forall|i: int| 0 <= i < apps@.len() ==> image_wf(#[trigger] apps@[i]),
    ensures
        match r {
            Some(t) => t == total_frames_needed(apps@),
            None => total_frames_needed(apps@) > u64::MAX,
        },
{
    let mut k: usize = 0;
    let mut total: u64 = 0;
    proof {
        assert(apps@.take(0) =~= Seq::<AppImage>::empty());
        assert forall|i: int| 0 <= i < apps@.len() implies frames_needed(#[trigger] apps@[i]) >= 0 by {
            crate::mm::elf::lemma_frames_needed_pos(apps@[i]);
        }
    }
    while k < apps.len()
        invariant
            k <= apps@.len(),
            forall|i: int| 0 <= i < apps@.len() ==> image_wf(#[trigger] apps@[i]),
            forall|i: int| 0 <= i < apps@.len() ==> frames_needed(#[trigger] apps@[i]) >= 0,
            total == total_frames_needed(apps@.take(k as int)),
        decreases apps@.len() - k,
    {
        let f = frames_for(&apps[k]);
        proof {
            lemma_total_frames_step(apps@, k as int);
        }
        match total.checked_add(f) {
            Some(t) => { total = t; },
            None => {
                proof {
                    lemma_total_frames_bound(apps@, k + 1);
                }
                return None;
            },
        }
        k = k + 1;
    }
    proof {
        assert(apps@.take(apps@.len() as int) =~= apps@);
    }
    Some(total)
}

/// Adding one image's frames to the first `k` images' gives the first `k + 1` images'.
proof fn lemma_total_frames_step(apps: Seq<AppImage>, k: int)
    requires
        0 <= k < apps.len(),
    ensures
        total_frames_needed(apps.take(k + 1)) == total_frames_needed(apps.take(k)) + frames_needed(apps[k]),
{
    assert(apps.take(k + 1).drop_last() =~= apps.take(k));
}

/// The frames of the first `k` images are no more than those of all of them.
proof fn lemma_total_frames_bound(apps: Seq<AppImage>, k: int)
    requires
        0 <= k <= apps.len(),
        forall|i: int| 0 <= i < apps.len() ==> frames_needed(#[trigger] apps[i]) >= 0,
    ensures
        total_frames_needed(apps.take(k)) <= total_frames_needed(apps),
    decreases apps.len() - k,
{
    if k < apps.len() {
        lemma_total_frames_step(apps, k);
        lemma_total_frames_bound(apps, k + 1);
    } else {
        assert(apps.take(k) =~= apps);
    }
}

/// Replacing one task of a consistent manager by a consistent task that owns, besides
/// frames of the task it replaces, only frames that were not in use, keeps the manager
/// consistent, provided every frame in use outside the replaced task stays in use.
pub proof fn lemma_replace_task(m0: TaskManager, m1: TaskManager, c: int, phys0: &PhysMemory, phys1: &PhysMemory)
    requires
        m0.wf_in(phys0),
        phys1.num_frames() == phys0.num_frames(),
        0 <= c < m0.num_app,
        m1.num_app == m0.num_app,
        m1.inner.current_task == m0.inner.current_task,
        m1.inner.syscall_cnt@.len() == MAX_SYSCALL_ID,
        m1.tasks().len() == m0.tasks().len(),
        forall|j: int| 0 <= j < m0.num_app && j != c ==> #[trigger] m1.tasks()[j] == m0.tasks()[j],
        m1.tasks()[c].wf_in(phys1),
        m1.tasks()[c].pid == m0.tasks()[c].pid,
        forall|q: u64| #[trigger] m1.tasks()[c].inner.memory_set.owned().contains(q) ==>
            m0.tasks()[c].inner.memory_set.owned().contains(q) || !phys0.used().contains(q),
        forall|q: u64| #[trigger] phys0.used().contains(q) && !m0.tasks()[c].inner.memory_set.owned().contains(q)
            ==> phys1.used().contains(q),
    ensures
        m1.wf_in(phys1),
{
    let t0 = m0.tasks();
    let t1 = m1.tasks();
    assert forall|j: int| 0 <= j < m1.num_app implies (#[trigger] t1[j]).wf_in(phys1) by {
        if j != c {
            assert(t1[j] == t0[j]);
            assert(t0[j].wf_in(phys0));
            assert(t0[j].inner.memory_set.owned().disjoint(t0[c].inner.memory_set.owned()));
            assert forall|q: u64| t0[j].inner.memory_set.owned().contains(q) implies phys1.used().contains(q) by {
                assert(phys0.used().contains(q));
                assert(!t0[c].inner.memory_set.owned().contains(q));
            }
        }
    }
    assert forall|j: int| 0 <= j < m1.num_app implies (#[trigger] t1[j]).pid.0 == j by {
        if j != c { assert(t1[j] == t0[j]); }
    }
    assert forall|a: int, b: int| 0 <= a < t1.len() && 0 <= b < t1.len() && a != b
        implies (#[trigger] t1[a]).inner.memory_set.owned().disjoint((#[trigger] t1[b]).inner.memory_set.owned()) by {
        if a != c && b != c {
            assert(t1[a] == t0[a] && t1[b] == t0[b]);
            assert(t0[a].inner.memory_set.owned().disjoint(t0[b].inner.memory_set.owned()));
        } else {
            let o = if a == c { b } else { a };
            assert(t1[o] == t0[o]);
            assert(t0[o].wf_in(phys0));
            assert(t0[o].inner.memory_set.owned().disjoint(t0[c].inner.memory_set.owned()));
            assert forall|q: u64| t1[c].inner.memory_set.owned().contains(q) implies !t0[o].inner.memory_set.owned().contains(q) by {
                if t0[o].inner.memory_set.owned().contains(q) {
                    assert(phys0.used().contains(q));
                }
            }
        }
    }
}

/// The task that round-robin scheduling picks is one of the tasks, and it is ready; it
/// picks one whenever some task is ready.
pub proof fn lemma_next_ready_is_ready(tasks: Seq<TaskControlBlock>, cur: int)
    requires
        tasks.len() > 0,
        0 <= cur < tasks.len(),
    ensures
        next_ready(tasks, cur) matches Some(i) ==> 0 <= i < tasks.len()
            && tasks[i].inner.task_status == TaskStatus::Ready,
        (exists|k: int| 1 <= k <= tasks.len() && ready_at(tasks, cur, k)) ==> next_ready(tasks, cur).is_some(),
{
    lemma_first_ready_from(tasks, cur, 1);
    let n = tasks.len() as int;
    if let Some(k) = first_ready_from(tasks, cur, 1) {
        assert(0 <= (cur + k) % n < n) by (nonlinear_arith) requires n > 0, cur + k >= 0;
    }
}

/// Changing the status of one task keeps a consistent manager consistent.
pub proof fn lemma_status_keeps_wf(m0: TaskManager, m1: TaskManager, c: int, st: TaskStatus, phys: &PhysMemory)
    requires
        m0.wf_in(phys),
        0 <= c < m0.num_app,
        m1.num_app == m0.num_app,
        m1.inner.current_task < m1.num_app,
        m1.inner.syscall_cnt@.len() == MAX_SYSCALL_ID,
        m1.tasks() == m0.tasks().update(c, with_status(m0.tasks()[c], st)),
    ensures
        m1.wf_in(phys),
{
    let t0 = m0.tasks();
    let t1 = m1.tasks();
    assert forall|j: int| 0 <= j < m1.num_app implies (#[trigger] t1[j]).wf_in(phys) && t1[j].pid.0 == j by {
        assert(t0[j].wf_in(phys));
    }
    assert forall|a: int, b: int| 0 <= a < t1.len() && 0 <= b < t1.len() && a != b
        implies (#[trigger] t1[a]).inner.memory_set.owned().disjoint((#[trigger] t1[b]).inner.memory_set.owned()) by {
        assert(t0[a].inner.memory_set.owned().disjoint(t0[b].inner.memory_set.owned()));
    }
}

/// A consistent manager stays consistent in a physical memory that uses the same frames.
pub proof fn lemma_wf_same_used(m: TaskManager, p0: &PhysMemory, p1: &PhysMemory)
    requires
        m.wf_in(p0),
        p1.wf(),
        p1.used() == p0.used(),
        p1.num_frames() == p0.num_frames(),
    ensures
        m.wf_in(p1),
{
    assert forall|i: int| 0 <= i < m.num_app implies (#[trigger] m.tasks()[i]).wf_in(p1) by {
        assert(m.tasks()[i].wf_in(p0));
    }
}

/// Task `t` with its status set to `st`.
pub open spec fn with_status(t: TaskControlBlock, st: TaskStatus) -> TaskControlBlock {
    TaskControlBlock { inner: TaskControlBlockInner { task_status: st, ..t.inner }, ..t }
}

impl TaskManager {
    /// The manager is consistent: one task per identifier, the running one among them,
    /// a counter per call number, every task consistent in `phys`, and no frame owned
    /// twice.
    pub open spec fn wf_in(&self, phys: &PhysMemory) -> bool {
        &&& self.inner.tasks@.len() == self.num_app
        &&& self.num_app <= MAX_PID + 1
        &&& self.num_app > 0 ==> self.inner.current_task < self.num_app
        &&& self.inner.syscall_cnt@.len() == MAX_SYSCALL_ID
        &&& forall|i: int| 0 <= i < self.num_app ==> (#[trigger] self.inner.tasks@[i]).wf_in(phys)
        &&& forall|i: int| 0 <= i < self.num_app ==> (#[trigger] self.inner.tasks@[i]).pid.0 == i
        &&& tasks_disjoint(self.inner.tasks@)
    }

    /// The tasks, by identifier.
    pub open spec fn tasks(&self) -> Seq<TaskControlBlock> {
        self.inner.tasks@
    }

    /// The identifier of the running task.
    pub open spec fn current(&self) -> int {
        self.inner.current_task as int
    }

    /// The running task's state.
    pub open spec fn current_inner(&self) -> TaskControlBlockInner {
        self.inner.tasks@[self.inner.current_task as int].inner
    }

    /// The task that round-robin scheduling picks next: the first `Ready` task after
    /// the running one, wrapping around to the running one itself.
    pub fn find_next_task(&self) -> (r: Option<usize>)
        requires
            self.inner.tasks@.len() == self.num_app,
            0 < self.num_app <= MAX_PID + 1,
            self.inner.current_task < self.num_app,
        ensures
            match next_ready(self.tasks(), self.current()) {
                Some(id) => r == Some(id as usize),
                None => r.is_none(),
            },
            r matches Some(id) ==> id < self.num_app && self.tasks()[id as int].inner.task_status == TaskStatus::Ready,
            r.is_none() ==> forall|i: int| 0 <= i < self.num_app ==> (#[trigger] self.tasks()[i]).inner.task_status != TaskStatus::Ready,
    {
        let n = self.num_app;
        let current = self.inner.current_task;
        let mut d: usize = 0;
        while d < n
            invariant
                n == self.num_app,
                n == self.tasks().len(),
                n <= MAX_PID + 1,
                current == self.current(),
                current < n,
                0 <= d <= n,
                first_ready_from(self.tasks(), current as int, 1) == first_ready_from(self.tasks(), current as int, d + 1),
                forall|j: int| 1 <= j < d + 1 ==> !ready_at(self.tasks(), current as int, j),
            decreases n - d,
        {
            let k = d + 1;
            let id = if k < n - current { current + k } else { k - (n - current) };
            proof {
                assert(id == (current + k) % (n as int)) by (nonlinear_arith)
                    requires 0 <= current < n, 1 <= k <= n,
                        id == (if k < n - current { current + k } else { k - (n - current) });
            }
            if self.inner.tasks[id].inner.task_status == TaskStatus::Ready {
                proof {
                    assert(ready_at(self.tasks(), current as int, k as int));
                    assert(0 <= id < n);
                }
                return Some(id);
            }
            d = d + 1;
        }
        proof {
            assert forall|i: int| 0 <= i < n implies (#[trigger] self.tasks()[i]).inner.task_status != TaskStatus::Ready by {
                let k = if i > current { i - current } else { i + n - current };
                assert(1 <= k <= n);
                assert((current + k) % (n as int) == i) by {
                    if i > current {
                        assert(current + k == i);
                        assert(i % (n as int) == i) by (nonlinear_arith) requires 0 <= i < n;
                    } else {
                        assert(current + k == i + n);
                        assert((i + n) % (n as int) == i) by (nonlinear_arith) requires 0 <= i < n;
                    }
                }
                assert(!ready_at(self.tasks(), current as int, k));
            }
        }
        None
    }

    /// A manager of one ready task per image of `apps`, task `i` running image `i`, with
    /// task 0 current and every counter zero.
    pub fn new(apps: &Vec<AppImage>, phys: &mut PhysMemory, layout: &KernelLayout) -> (r: TaskManager)
        requires
            old(phys).wf(),
            apps@.len() <= MAX_PID + 1,
            forall|i: int| 0 <= i < apps@.len() ==> image_wf(#[trigger] apps@[i]),
            old(phys).free_count() >= total_frames_needed(apps@),
        ensures
            r.wf_in(final(phys)),
            r.num_app == apps@.len(),
            r.inner.current_task == 0,
            r.inner.syscall_cnt@ == Seq::new(MAX_SYSCALL_ID as nat, |i: int| 0usize),
            forall|i: int| 0 <= i < apps@.len() ==> fresh_inner((#[trigger] r.tasks()[i]).inner, final(phys).mem(),
                (stack_top_vpn(apps@[i].segments@) * PAGE_SIZE) as u64, apps@[i].entry_point,
                kernel_stack_top(i) as u64, *layout),
            forall|i: int| 0 <= i < apps@.len() ==> loaded_image((#[trigger] r.tasks()[i]).inner.memory_set,
                final(phys).mem(), apps@[i]),
            final(phys).num_frames() == old(phys).num_frames(),
    {
        let n = apps.len();
        let mut tasks: Vec<TaskControlBlock> = Vec::new();
        let mut pids = PidAllocator::new();
        let mut i: usize = 0;
        let ghost p0 = *phys;
        proof {
            assert(apps@.take(0) =~= Seq::<AppImage>::empty());
            assert forall|k: int| 0 <= k < apps@.len() implies frames_needed(#[trigger] apps@[k]) >= 0 by {
                crate::mm::elf::lemma_frames_needed_pos(apps@[k]);
            }
        }
        while i < n
            invariant
                n == apps@.len(),
                n <= MAX_PID + 1,
                i <= n,
                phys.wf(),
                forall|k: int| 0 <= k < apps@.len() ==> image_wf(#[trigger] apps@[k]),
                forall|k: int| 0 <= k < apps@.len() ==> frames_needed(#[trigger] apps@[k]) >= 0,
                p0.free_count() >= total_frames_needed(apps@),
                phys.free_count() + total_frames_needed(apps@.take(i as int)) == p0.free_count(),
                phys.num_frames() == p0.num_frames(),
                tasks@.len() == i,
                pids.wf(),
                pids.sequential(),
                pids.next_pid() == i,
                forall|k: int| 0 <= k < i ==> (#[trigger] tasks@[k]).wf_in(phys),
                forall|k: int| 0 <= k < i ==> (#[trigger] tasks@[k]).pid.0 == k,
                forall|k: int| 0 <= k < i ==> fresh_inner((#[trigger] tasks@[k]).inner, phys.mem(),
                    (stack_top_vpn(apps@[k].segments@) * PAGE_SIZE) as u64, apps@[k].entry_point,
                    kernel_stack_top(k) as u64, *layout),
                forall|k: int| 0 <= k < i ==> loaded_image((#[trigger] tasks@[k]).inner.memory_set, phys.mem(), apps@[k]),
                tasks_disjoint(tasks@),
            decreases n - i,
        {
            proof {
                lemma_total_frames_step(apps@, i as int);
                lemma_total_frames_bound(apps@, i as int + 1);
            }
            let ghost p1 = *phys;
            let t = TaskControlBlock::new(&apps[i], &mut pids, phys, layout);
            let ghost tasks0 = tasks@;
            tasks.push(t);
            proof {
                assert forall|k: int| 0 <= k < i + 1 implies (#[trigger] tasks@[k]).wf_in(phys)
                    && loaded_image(tasks@[k].inner.memory_set, phys.mem(), apps@[k])
                    && fresh_inner(tasks@[k].inner, phys.mem(), (stack_top_vpn(apps@[k].segments@) * PAGE_SIZE) as u64,
                        apps@[k].entry_point, kernel_stack_top(k) as u64, *layout) by {
                    if k < i {
                        let ms = tasks0[k].inner.memory_set;
                        assert(tasks@[k] == tasks0[k]);
                        assert(ms.owned().subset_of(p1.used()));
                        lemma_loaded_image_kept(ms, &p1, phys.mem(), apps@[k]);
                        assert(frames_of(ms.pt()).contains(ms.pt()[TRAP_CONTEXT_VPN].ppn));
                        p1.lemma_mem_len();
                        assert((tasks0[k].inner.trap_cx_ppn + 1) * 4096 <= p1.num_frames() * 4096) by (nonlinear_arith)
                            requires tasks0[k].inner.trap_cx_ppn < p1.num_frames();
                        lemma_cx_kept(p1.mem(), phys.mem(), p1.used(), tasks0[k].inner.trap_cx_ppn);
                    }
                }
                assert forall|a: int, b: int| 0 <= a < tasks@.len() && 0 <= b < tasks@.len() && a != b
                    implies (#[trigger] tasks@[a]).inner.memory_set.owned().disjoint((#[trigger] tasks@[b]).inner.memory_set.owned()) by {
                    if a < i && b < i {
                        assert(tasks@[a] == tasks0[a] && tasks@[b] == tasks0[b]);
                    } else if a == i {
                        assert(tasks0[b].inner.memory_set.owned().subset_of(p1.used()));
                    } else {
                        assert(tasks0[a].inner.memory_set.owned().subset_of(p1.used()));
                    }
                }
            }
            i = i + 1;
        }
        let mut syscall_cnt: Vec<usize> = Vec::new();
        let mut j: usize = 0;
        while j < MAX_SYSCALL_ID
            invariant
                j <= MAX_SYSCALL_ID,
                syscall_cnt@ == Seq::new(j as nat, |k: int| 0usize),
            decreases MAX_SYSCALL_ID - j,
        {
            syscall_cnt.push(0);
            j = j + 1;
            assert(syscall_cnt@ =~= Seq::new(j as nat, |k: int| 0usize));
        }
        TaskManager { num_app: n, inner: TaskManagerInner { tasks, current_task: 0, syscall_cnt } }
    }

    /// Marks task 0 running and returns the context to switch to, that of task 0.
    pub fn run_first_task(&mut self) -> (r: TaskContext)
        requires
            old(self).num_app > 0,
            old(self).inner.tasks@.len() == old(self).num_app,
        ensures
            r == old(self).tasks()[0].inner.task_cx,
            final(self).tasks() == old(self).tasks().update(0, with_status(old(self).tasks()[0], TaskStatus::Running)),
            final(self).num_app == old(self).num_app,
            final(self).inner.current_task == old(self).inner.current_task,
            final(self).inner.syscall_cnt == old(self).inner.syscall_cnt,
    {
        self.inner.tasks[0].inner.task_status = TaskStatus::Running;
        self.inner.tasks[0].inner.task_cx
    }

    /// Marks the running task ready.
    pub(crate) fn mark_current_suspended(&mut self)
        requires
            old(self).num_app > 0,
            old(self).inner.tasks@.len() == old(self).num_app,
            old(self).inner.current_task < old(self).num_app,
        ensures
            final(self).tasks() == old(self).tasks().update(old(self).current(),
                with_status(old(self).tasks()[old(self).current()], TaskStatus::Ready)),
            final(self).num_app == old(self).num_app,
            final(self).inner.current_task == old(self).inner.current_task,
            final(self).inner.syscall_cnt == old(self).inner.syscall_cnt,
    {
        let cur = self.inner.current_task;
        self.inner.tasks[cur].inner.task_status = TaskStatus::Ready;
    }

    /// Marks the running task exited.
    pub(crate) fn mark_current_exited(&mut self)
        requires
            old(self).num_app > 0,
            old(self).inner.tasks@.len() == old(self).num_app,
            old(self).inner.current_task < old(self).num_app,
        ensures
            final(self).tasks() == old(self).tasks().update(old(self).current(),
                with_status(old(self).tasks()[old(self).current()], TaskStatus::Zombie)),
            final(self).num_app == old(self).num_app,
            final(self).inner.current_task == old(self).inner.current_task,
            final(self).inner.syscall_cnt == old(self).inner.syscall_cnt,
    {
        let cur = self.inner.current_task;
        self.inner.tasks[cur].inner.task_status = TaskStatus::Zombie;
    }

    /// Switches to the task that round-robin scheduling picks, which must exist: marks it
    /// running, makes it current and returns the pair of tasks to switch between, the old
    /// current one and the new.
    pub fn run_next_task(&mut self) -> (r: (usize, usize))
        requires
            old(self).num_app > 0,
            old(self).num_app <= MAX_PID + 1,
            old(self).inner.tasks@.len() == old(self).num_app,
            old(self).inner.current_task < old(self).num_app,
            next_ready(old(self).tasks(), old(self).current()).is_some(),
        ensures
            ({
                let n = next_ready(old(self).tasks(), old(self).current()).unwrap();
                &&& r == (old(self).inner.current_task, n as usize)
                &&& final(self).inner.current_task == n
                &&& final(self).tasks() == old(self).tasks().update(n, with_status(old(self).tasks()[n], TaskStatus::Running))
            }),
            final(self).num_app == old(self).num_app,
            final(self).inner.syscall_cnt == old(self).inner.syscall_cnt,
    {
        let next = match self.find_next_task() {
            Some(next) => next,
            None => { assert(false); 0 },
        };
        let current = self.inner.current_task;
        self.inner.tasks[next].inner.task_status = TaskStatus::Running;
        self.inner.current_task = next;
        (current, next)
    }

    /// Whether some task other than the running one is ready.
    pub fn other_task_ready(&self) -> (r: bool)
        requires
            self.inner.tasks@.len() == self.num_app,
            self.inner.current_task < self.num_app,
        ensures
            r == other_ready(self.tasks(), self.current()),
    {
        let n = self.num_app;
        let mut i: usize = 0;
        while i < n
            invariant
                n == self.tasks().len(),
                self.inner.current_task < n,
                i <= n,
                forall|j: int| 0 <= j < i && j != self.current() ==>
                    (#[trigger] self.tasks()[j]).inner.task_status != TaskStatus::Ready,
            decreases n - i,
        {
            if i != self.inner.current_task && self.inner.tasks[i].inner.task_status == TaskStatus::Ready {
                return true;
            }
            i = i + 1;
        }
        false
    }

    /// The token of the running task's address space.
    pub fn get_current_token(&self, phys: &PhysMemory) -> (r: u64)
        requires
            self.wf_in(phys),
            self.num_app > 0,
        ensures
            r == 0x8000_0000_0000_0000u64 + self.current_inner().memory_set.root(),
    {
        self.inner.tasks[self.inner.current_task].get_user_token(phys)
    }

    /// The trap context of the running task.
    pub fn get_current_trap_cx(&self, phys: &PhysMemory) -> (r: TrapContext)
        requires
            self.wf_in(phys),
            self.num_app > 0,
        ensures
            holds_trap_cx(phys.mem(), self.current_inner().trap_cx_ppn, r),
    {
        self.inner.tasks[self.inner.current_task].inner.get_trap_cx(phys)
    }

    /// Maps the framed area `va .. ve` with permission `perm` into the running task's
    /// address space; see `TaskControlBlock::map_frame`.
    pub fn map_frame(&mut self, phys: &mut PhysMemory, va: VirtAddr, ve: VirtAddr, perm: MapPermission) -> (r: bool)
        requires
            old(self).wf_in(old(phys)),
            old(self).num_app > 0,
        ensures
            final(self).wf_in(final(phys)),
            final(self).num_app == old(self).num_app,
            final(self).inner.current_task == old(self).inner.current_task,
            final(self).inner.syscall_cnt == old(self).inner.syscall_cnt,
            final(self).tasks() == old(self).tasks().update(old(self).current(), final(self).tasks()[old(self).current()]),
            map_frame_result(old(self).tasks()[old(self).current()], final(self).tasks()[old(self).current()],
                *old(phys), *final(phys), va, ve, perm, r),
    {
        let cur = self.inner.current_task;
        let ghost m0 = *self;
        let ghost p0 = *phys;
        let r = self.inner.tasks[cur].map_frame(phys, va, ve, perm);
        proof {
            let t0 = m0.tasks()[cur as int];
            let t1 = self.tasks()[cur as int];
            if r {
                lemma_owned_after_map(t0.inner.memory_set, t1.inner.memory_set, page_of(va.0 as int), page_ceil(ve.0 as int),
                    perm.spec_pte_flags(), p0.used());
                assert forall|q: u64| #[trigger] t1.inner.memory_set.owned().contains(q) implies
                    t0.inner.memory_set.owned().contains(q) || !p0.used().contains(q) by {
                    let f = frames_in(t1.inner.memory_set.pt(), page_of(va.0 as int), page_ceil(ve.0 as int));
                    if f.contains(q) {
                        let v = choose|v: u64| page_of(va.0 as int) <= v < page_ceil(ve.0 as int)
                            && t1.inner.memory_set.pt().contains_key(v) && #[trigger] t1.inner.memory_set.pt()[v].ppn == q;
                    }
                }
            }
            assert(self.tasks() =~= m0.tasks().update(cur as int, t1));
            lemma_replace_task(m0, *self, cur as int, &p0, phys);
        }
        r
    }

    /// Unmaps the area `va .. ve` from the running task's address space; see
    /// `TaskControlBlock::unmap_frame`.
    pub fn unmap_frame(&mut self, phys: &mut PhysMemory, va: VirtAddr, ve: VirtAddr) -> (r: bool)
        requires
            old(self).wf_in(old(phys)),
            old(self).num_app > 0,
        ensures
            final(self).wf_in(final(phys)),
            final(self).num_app == old(self).num_app,
            final(self).inner.current_task == old(self).inner.current_task,
            final(self).inner.syscall_cnt == old(self).inner.syscall_cnt,
            final(self).tasks() == old(self).tasks().update(old(self).current(), final(self).tasks()[old(self).current()]),
            unmap_frame_result(old(self).tasks()[old(self).current()], final(self).tasks()[old(self).current()],
                *old(phys), *final(phys), va, ve, r),
    {
        let cur = self.inner.current_task;
        let ghost m0 = *self;
        let ghost p0 = *phys;
        let r = self.inner.tasks[cur].unmap_frame(phys, va, ve);
        proof {
            let t0 = m0.tasks()[cur as int];
            let t1 = self.tasks()[cur as int];
            if r {
                lemma_owned_after_unmap(t0.inner.memory_set, t1.inner.memory_set, page_of(va.0 as int), page_ceil(ve.0 as int));
            }
            assert(self.tasks() =~= m0.tasks().update(cur as int, t1));
            lemma_replace_task(m0, *self, cur as int, &p0, phys);
        }
        r
    }

    /// Moves the running task's program break by `size` bytes; see
    /// `TaskControlBlock::change_program_brk`.
    pub fn change_current_program_brk(&mut self, phys: &mut PhysMemory, size: i32) -> (r: Option<u64>)
        requires
            old(self).wf_in(old(phys)),
            old(self).num_app > 0,
            brk_change_defined(old(self).current_inner(), old(phys).free_count(), size),
        ensures
            final(self).wf_in(final(phys)),
            final(self).num_app == old(self).num_app,
            final(self).inner.current_task == old(self).inner.current_task,
            final(self).inner.syscall_cnt == old(self).inner.syscall_cnt,
            final(self).tasks() == old(self).tasks().update(old(self).current(), final(self).tasks()[old(self).current()]),
            brk_result(old(self).tasks()[old(self).current()], final(self).tasks()[old(self).current()],
                *old(phys), *final(phys), size, r),
    {
        let cur = self.inner.current_task;
        let ghost m0 = *self;
        let ghost p0 = *phys;
        let r = self.inner.tasks[cur].change_program_brk(phys, size);
        proof {
            let t0 = m0.tasks()[cur as int];
            let t1 = self.tasks()[cur as int];
            if r.is_some() {
                let nb = t0.inner.program_brk + size;
                let he = t0.inner.memory_set.heap_end_vpn() as int;
                if size < 0 {
                    lemma_owned_after_unmap(t0.inner.memory_set, t1.inner.memory_set, page_ceil(nb), he);
                } else {
                    lemma_owned_after_map(t0.inner.memory_set, t1.inner.memory_set, he, page_ceil(nb),
                        crate::mm::memory_set::heap_flags(), p0.used());
                    assert forall|q: u64| #[trigger] t1.inner.memory_set.owned().contains(q) implies
                        t0.inner.memory_set.owned().contains(q) || !p0.used().contains(q) by {
                        let f = frames_in(t1.inner.memory_set.pt(), he, page_ceil(nb));
                        if f.contains(q) {
                            let v = choose|v: u64| he <= v < page_ceil(nb)
                                && t1.inner.memory_set.pt().contains_key(v) && #[trigger] t1.inner.memory_set.pt()[v].ppn == q;
                        }
                    }
                }
            }
            assert(self.tasks() =~= m0.tasks().update(cur as int, t1));
            lemma_replace_task(m0, *self, cur as int, &p0, phys);
        }
        r
    }

    /// Where the kernel writes for user address `vaddr` of the running task; see
    /// `TaskControlBlock::get_mut_ref`.
    pub fn get_mut_ref(&self, phys: &PhysMemory, vaddr: VirtAddr) -> (r: Option<u64>)
        requires
            self.wf_in(phys),
            self.num_app > 0,
        ensures
            r == match mut_ref_target(self.current_inner().memory_set.pt(), vaddr.0) {
                Some(pa) => Some(pa as u64),
                None => None::<u64>,
            },
            r matches Some(pa) ==> pa < phys.mem().len(),
            mut_ref_target(self.current_inner().memory_set.pt(), vaddr.0) matches Some(pa) ==> 0 <= pa < phys.mem().len() && pa < 0x8000_0000,
    {
        self.inner.tasks[self.inner.current_task].get_mut_ref(phys, vaddr)
    }

    /// Where the kernel reads for user address `vaddr` of the running task; see
    /// `TaskControlBlock::get_ref`.
    pub fn get_ref(&self, phys: &PhysMemory, vaddr: VirtAddr) -> (r: Option<u64>)
        requires
            self.wf_in(phys),
            self.num_app > 0,
        ensures
            r == match ref_target(self.current_inner().memory_set.pt(), vaddr.0) {
                Some(pa) => Some(pa as u64),
                None => None::<u64>,
            },
            r matches Some(pa) ==> pa < phys.mem().len(),
            ref_target(self.current_inner().memory_set.pt(), vaddr.0) matches Some(pa) ==> 0 <= pa < phys.mem().len() && pa < 0x8000_0000,
    {
        self.inner.tasks[self.inner.current_task].get_ref(phys, vaddr)
    }

    /// Counts one more call of system call `id`, wrapping around at `usize::MAX`.
    pub(crate) fn inc_syscall(&mut self, id: usize)
        requires
            old(self).inner.syscall_cnt@.len() == MAX_SYSCALL_ID,
            id < MAX_SYSCALL_ID,
        ensures
            final(self).inner.syscall_cnt@ == counted(old(self).inner.syscall_cnt@, id as int),
            final(self).inner.tasks == old(self).inner.tasks,
            final(self).inner.current_task == old(self).inner.current_task,
            final(self).num_app == old(self).num_app,
    {
        let c = self.inner.syscall_cnt[id];
        self.inner.syscall_cnt.set(id, c.wrapping_add(1));
    }

    /// How many times system call `id` was made.
    pub(crate) fn get_syscall_cnt(&self, id: usize) -> (r: usize)
        requires
            self.inner.syscall_cnt@.len() == MAX_SYSCALL_ID,
            id < MAX_SYSCALL_ID,
        ensures
            r == self.inner.syscall_cnt@[id as int],
    {
        self.inner.syscall_cnt[id]
    }

    /// Resets every system call counter to zero.
    pub(crate) fn clear_syscall(&mut self)
        requires
            old(self).inner.syscall_cnt@.len() == MAX_SYSCALL_ID,
        ensures
            final(self).inner.syscall_cnt@ == Seq::new(MAX_SYSCALL_ID as nat, |i: int| 0usize),
            final(self).inner.tasks == old(self).inner.tasks,
            final(self).inner.current_task == old(self).inner.current_task,
            final(self).num_app == old(self).num_app,
    {
        let mut i: usize = 0;
        while i < MAX_SYSCALL_ID
            invariant
                self.inner.syscall_cnt@.len() == MAX_SYSCALL_ID,
                i <= MAX_SYSCALL_ID,
                forall|j: int| 0 <= j < i ==> self.inner.syscall_cnt@[j] == 0,
                self.inner.tasks == old(self).inner.tasks,
                self.inner.current_task == old(self).inner.current_task,
                self.num_app == old(self).num_app,
            decreases MAX_SYSCALL_ID - i,
        {
            self.inner.syscall_cnt.set(i, 0);
            i = i + 1;
        }
        assert(self.inner.syscall_cnt@ =~= Seq::new(MAX_SYSCALL_ID as nat, |i: int| 0usize));
    }

    /// The page-table entry that translates the page of `va` in the running task.
    pub(crate) fn debug_vaddr(&self, va: VirtAddr) -> (r: Option<PageTableEntry>)
        requires
            self.num_app > 0,
            self.inner.tasks@.len() == self.num_app,
            self.inner.current_task < self.num_app,
        ensures
            match r {
                Some(e) => self.current_inner().memory_set.pt().contains_key(page_of(va.0 as int) as u64 % crate::mm::address::VPN_LIMIT)
                    && self.current_inner().memory_set.pt()[page_of(va.0 as int) as u64 % crate::mm::address::VPN_LIMIT] == e,
                None => !self.current_inner().memory_set.pt().contains_key(page_of(va.0 as int) as u64 % crate::mm::address::VPN_LIMIT),
            },
    {
        self.inner.tasks[self.inner.current_task].debug_vaddr(va)
    }
}

} // verus!
