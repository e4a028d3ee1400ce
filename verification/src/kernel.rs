//! The state of the whole machine that the system calls act on.
use vstd::prelude::*;
use crate::fs::file::{Console, File};
use crate::fs::inode::FileSystem;
use crate::config::{MAX_SYSCALL_ID, PAGE_SIZE};
use crate::mm::elf::{AppImage, loaded_image, stack_top_vpn};
use crate::task::pid::kernel_stack_top;
use crate::task::task::fresh_inner;
use crate::mm::frame::{PhysMemory, MAX_FRAMES};
use crate::task::manager::{TaskManager, total_frames_needed, lemma_replace_task};
use crate::task::task::TaskControlBlockInner;
use crate::task::pid::MAX_PID;
use crate::task::task::TaskControlBlock;
use crate::trap::KernelLayout;

verus! {

/// The machine: its tasks, its physical memory, its file system and its console, with the
/// kernel addresses that new tasks record.
pub struct Kernel {
    /// the task manager
    pub tm: TaskManager,
    /// physical memory and its frame allocator
    pub phys: PhysMemory,
    /// the file system
    pub fs: FileSystem,
    /// the console
    pub console: Console,
    /// the kernel's token and entry addresses
    pub layout: KernelLayout,
}

/// Every open regular file of task `t` refers to an inode of `fs`.
pub open spec fn fds_valid(t: TaskControlBlock, fs: FileSystem) -> bool {
    forall|i: int| 0 <= i < t.inner.fd_table@.len() ==> match #[trigger] t.inner.fd_table@[i] {
        Some(File::Inode(f)) => f.inode_id < fs.num_inodes(),
        _ => true,
    }
}

impl Kernel {
    /// The machine is consistent: the manager in its physical memory, at least one task,
    /// a consistent file system, and every open file of every task referring to an inode.
    pub open spec fn wf(&self) -> bool {
        &&& self.tm.wf_in(&self.phys)
        &&& self.tm.num_app > 0
        &&& self.fs.wf()
        &&& forall|i: int| 0 <= i < self.tm.num_app ==> fds_valid(#[trigger] self.tm.tasks()[i], self.fs)
    }

    /// The running task.
    pub open spec fn cur(&self) -> TaskControlBlock {
        self.tm.tasks()[self.tm.current()]
    }

    /// A machine of `num_frames` frames running one task per image of `apps`, with task 0
    /// current, an empty file system and a quiet console.
    pub fn new(apps: &Vec<AppImage>, num_frames: u64, layout: KernelLayout) -> (r: Kernel)
        requires
            num_frames <= MAX_FRAMES,
            0 < apps@.len() <= MAX_PID + 1,
            forall|i: int| 0 <= i < apps@.len() ==> crate::mm::elf::image_wf(#[trigger] apps@[i]),
            num_frames >= total_frames_needed(apps@),
        ensures
            r.wf(),
            r.tm.num_app == apps@.len(),
            r.tm.inner.current_task == 0,
            r.tm.inner.syscall_cnt@ == Seq::new(MAX_SYSCALL_ID as nat, |i: int| 0usize),
            forall|i: int| 0 <= i < apps@.len() ==> fresh_inner((#[trigger] r.tm.tasks()[i]).inner, r.phys.mem(),
                (stack_top_vpn(apps@[i].segments@) * PAGE_SIZE) as u64, apps@[i].entry_point,
                kernel_stack_top(i) as u64, layout),
            forall|i: int| 0 <= i < apps@.len() ==> loaded_image((#[trigger] r.tm.tasks()[i]).inner.memory_set,
                r.phys.mem(), apps@[i]),
            r.phys.num_frames() == num_frames,
            r.fs.dir() == Seq::<(Seq<u8>, u32)>::empty(),
            r.console.input@ == Seq::<u8>::empty(),
            r.console.output@ == Seq::<u8>::empty(),
            r.layout == layout,
    {
        let mut phys = PhysMemory::new(num_frames);
        let tm = TaskManager::new(apps, &mut phys, &layout);
        let fs = FileSystem::new();
        let k = Kernel { tm, phys, fs, console: Console::new(), layout };
        proof {
            assert forall|i: int| 0 <= i < k.tm.num_app implies fds_valid(#[trigger] k.tm.tasks()[i], k.fs) by {
                let t = k.tm.tasks()[i];
                assert forall|j: int| 0 <= j < t.inner.fd_table@.len() implies match #[trigger] t.inner.fd_table@[j] {
                    Some(File::Inode(f)) => f.inode_id < k.fs.num_inodes(),
                    _ => true,
                } by {
                    assert(t.inner.fd_table@ == seq![Some(File::Stdin), Some(File::Stdout), Some(File::Stdout)]);
                }
            }
        }
        k
    }

    /// Takes the lowest free file descriptor of the running task, growing its table by
    /// one when every descriptor is taken.
    pub fn alloc_fd(&mut self) -> (r: usize)
        requires
            old(self).wf(),
        ensures
            final(self).wf(),
            r <= old(self).cur().inner.fd_table@.len(),
            forall|j: int| 0 <= j < r ==> (#[trigger] old(self).cur().inner.fd_table@[j]).is_some(),
            r < old(self).cur().inner.fd_table@.len() ==> old(self).cur().inner.fd_table@[r as int].is_none()
                && final(self).cur().inner.fd_table@ == old(self).cur().inner.fd_table@,
            r == old(self).cur().inner.fd_table@.len() ==> final(self).cur().inner.fd_table@ == old(self).cur().inner.fd_table@.push(None),
            final(self).tm.tasks() == old(self).tm.tasks().update(old(self).tm.current(), TaskControlBlock {
                inner: TaskControlBlockInner { fd_table: final(self).cur().inner.fd_table, ..old(self).cur().inner },
                ..old(self).cur()
            }),
            final(self).tm.num_app == old(self).tm.num_app,
            final(self).tm.inner.current_task == old(self).tm.inner.current_task,
            final(self).tm.inner.syscall_cnt == old(self).tm.inner.syscall_cnt,
            final(self).phys == old(self).phys,
            final(self).fs == old(self).fs,
            final(self).console == old(self).console,
            final(self).layout == old(self).layout,
    {
        let ghost k0 = *self;
        let cur = self.tm.inner.current_task;
        let fd = self.tm.inner.tasks[cur].inner.alloc_fd();
        proof {
            assert(self.tm.tasks() =~= k0.tm.tasks().update(cur as int, self.tm.tasks()[cur as int]));
            lemma_replace_task(k0.tm, self.tm, cur as int, &k0.phys, &self.phys);
            self.lemma_fds_after_set(k0, cur as int);
        }
        fd
    }

    /// Sets file descriptor `fd` of the running task to `f`.
    pub fn set_fd(&mut self, fd: usize, f: Option<File>)
        requires
            old(self).wf(),
            fd < old(self).cur().inner.fd_table@.len(),
            f matches Some(File::Inode(i)) ==> i.inode_id < old(self).fs.num_inodes(),
        ensures
            final(self).wf(),
            final(self).cur().inner.fd_table@ == old(self).cur().inner.fd_table@.update(fd as int, f),
            final(self).tm.tasks() == old(self).tm.tasks().update(old(self).tm.current(), TaskControlBlock {
                inner: TaskControlBlockInner { fd_table: final(self).cur().inner.fd_table, ..old(self).cur().inner },
                ..old(self).cur()
            }),
            final(self).tm.num_app == old(self).tm.num_app,
            final(self).tm.inner.current_task == old(self).tm.inner.current_task,
            final(self).tm.inner.syscall_cnt == old(self).tm.inner.syscall_cnt,
            final(self).phys == old(self).phys,
            final(self).fs == old(self).fs,
            final(self).console == old(self).console,
            final(self).layout == old(self).layout,
    {
        let ghost k0 = *self;
        let cur = self.tm.inner.current_task;
        self.tm.inner.tasks[cur].inner.fd_table.set(fd, f);
        proof {
            assert(self.tm.tasks() =~= k0.tm.tasks().update(cur as int, self.tm.tasks()[cur as int]));
            lemma_replace_task(k0.tm, self.tm, cur as int, &k0.phys, &self.phys);
            let t = self.tm.tasks()[cur as int];
            assert forall|j: int| 0 <= j < t.inner.fd_table@.len() implies match #[trigger] t.inner.fd_table@[j] {
                Some(File::Inode(g)) => g.inode_id < self.fs.num_inodes(),
                _ => true,
            } by {
                if j != fd {
                    assert(t.inner.fd_table@[j] == k0.cur().inner.fd_table@[j]);
                    assert(fds_valid(k0.cur(), k0.fs));
                }
            }
            assert forall|i: int| 0 <= i < self.tm.num_app implies fds_valid(#[trigger] self.tm.tasks()[i], self.fs) by {
                if i != cur { assert(self.tm.tasks()[i] == k0.tm.tasks()[i]); }
            }
        }
    }

    /// After the running task's descriptor table grew by a free slot or stayed, every
    /// open file still refers to an inode.
    proof fn lemma_fds_after_set(&self, k0: Kernel, cur: int)
        requires
            k0.wf(),
            cur == k0.tm.current(),
            self.fs == k0.fs,
            self.tm.num_app == k0.tm.num_app,
            forall|i: int| 0 <= i < k0.tm.num_app && i != cur ==> #[trigger] self.tm.tasks()[i] == k0.tm.tasks()[i],
            self.tm.tasks()[cur].inner.fd_table@ == k0.tm.tasks()[cur].inner.fd_table@
                || self.tm.tasks()[cur].inner.fd_table@ == k0.tm.tasks()[cur].inner.fd_table@.push(None),
        ensures
            forall|i: int| 0 <= i < self.tm.num_app ==> fds_valid(#[trigger] self.tm.tasks()[i], self.fs),
    {
        assert forall|i: int| 0 <= i < self.tm.num_app implies fds_valid(#[trigger] self.tm.tasks()[i], self.fs) by {
            assert(fds_valid(k0.tm.tasks()[i], k0.fs));
            if i == cur {
                let t = self.tm.tasks()[cur];
                let t0 = k0.tm.tasks()[cur];
                assert forall|j: int| 0 <= j < t.inner.fd_table@.len() implies match #[trigger] t.inner.fd_table@[j] {
                    Some(File::Inode(g)) => g.inode_id < self.fs.num_inodes(),
                    _ => true,
                } by {
                    if j < t0.inner.fd_table@.len() {
                        assert(t.inner.fd_table@[j] == t0.inner.fd_table@[j]);
                    }
                }
            }
        }
    }
}

/// A machine stays consistent when its manager stays consistent in its physical memory
/// and every task keeps its open files, over a file system with at least as many inodes.
pub proof fn lemma_wf_keeps_fds(k0: Kernel, k1: Kernel)
    requires
        k0.wf(),
        k1.tm.wf_in(&k1.phys),
        k1.tm.num_app == k0.tm.num_app,
        k1.fs.wf(),
        k1.fs.num_inodes() >= k0.fs.num_inodes(),
        forall|i: int| 0 <= i < k0.tm.num_app ==> (#[trigger] k1.tm.tasks()[i]).inner.fd_table == k0.tm.tasks()[i].inner.fd_table,
    ensures
        k1.wf(),
{
    assert forall|i: int| 0 <= i < k1.tm.num_app implies fds_valid(#[trigger] k1.tm.tasks()[i], k1.fs) by {
        assert(fds_valid(k0.tm.tasks()[i], k0.fs));
        let t = k1.tm.tasks()[i];
        assert forall|j: int| 0 <= j < t.inner.fd_table@.len() implies match #[trigger] t.inner.fd_table@[j] {
            Some(File::Inode(f)) => f.inode_id < k1.fs.num_inodes(),
            _ => true,
        } by {
            assert(t.inner.fd_table@[j] == k0.tm.tasks()[i].inner.fd_table@[j]);
        }
    }
}

} // verus!
