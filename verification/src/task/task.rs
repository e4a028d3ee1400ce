//! Task control blocks: the state of each task, and what a task may change of it.
use vstd::prelude::*;
use crate::config::{PAGE_SIZE, MAX_SYSCALL_ID, BIG_STRIDE};
use crate::fs::file::File;
use crate::mm::elf::{AppImage, lemma_loaded_image_kept_but_trap, from_elf, image_wf, frames_needed, loaded_image, stack_top_vpn, frames_kept, TRAP_CONTEXT_BASE, TRAP_CONTEXT_VPN};
use crate::trap::KernelLayout;
use crate::task::pid::kernel_stack_top;
use crate::mm::address::{VirtAddr, VA_LIMIT, VPN_LIMIT, page_of, page_ceil};
use crate::mm::frame::{PhysMemory, MAX_FRAMES, word_at, word_written};
use crate::mm::memory_set::{MemorySet, frames_of, space_copied, space_copied_except, lemma_copied_page_byte, user_byte, va_mapped, va_to_pa, map_frame_ok, unmap_frame_ok, range_added, range_removed, frames_in, frames_zeroed, heap_flags, heap_shrink_allowed, heap_append_allowed};
use crate::mm::page_table::{PageTableEntry, MapPermission};
use crate::task::context::TaskContext;
use crate::task::pid::{PidHandle, KernelStack, PidAllocator, pid_taken, MAX_PID};
use crate::task::stride::{Stride, stride_order, stride_order_of};
use core::cmp::Ordering;
use crate::trap::{TrapContext, cx_word, cx_regs, holds_trap_cx, read_trap_cx, write_trap_cx};

verus! {

/// The state of a task in its life cycle.
#[derive(Clone, Copy, Debug, PartialEq, Eq, Structural)]
pub enum TaskStatus {
    /// not initialized
    UnInit,
    /// ready to run
    Ready,
    /// running
    Running,
    /// exited
    Zombie,
}

/// The changing state of a task.
pub struct TaskControlBlockInner {
    /// the frame that holds the trap context
    pub trap_cx_ppn: u64,
    /// the size of the program's image: every address below it belongs to the program
    pub base_size: u64,
    /// the registers saved when the task was switched out
    pub task_cx: TaskContext,
    /// where the task is in its life cycle
    pub task_status: TaskStatus,
    /// the task's address space
    pub memory_set: MemorySet,
    /// the identifier of the parent task
    pub parent: Option<usize>,
    /// the identifiers of the child tasks
    pub children: Vec<usize>,
    /// the exit code, once the task has exited
    pub exit_code: i32,
    /// the bottom of the heap
    pub heap_bottom: u64,
    /// the program break: the end of the heap
    pub program_brk: u64,
    /// the open files, by descriptor
    pub fd_table: Vec<Option<File>>,
    /// how many times the task made each system call, by call number
    pub syscall_cnt: Vec<usize>,
    /// how far the task has run, in units of its pass
    pub stride: Stride,
    /// how far the stride advances per time slice
    pub pass: u8,
}

/// A task: its identifier, its kernel stack, and its changing state.
pub struct TaskControlBlock {
    /// the process identifier
    pub pid: PidHandle,
    /// the kernel stack of the process
    pub kernel_stack: KernelStack,
    /// the changing state
    pub inner: TaskControlBlockInner,
}

impl TaskControlBlockInner {
    /// How many times the task made each system call, by call number.
    pub open spec fn syscall_counts(&self) -> Seq<usize> {
        self.syscall_cnt@
    }

    /// The counters cover every call number, the address space is consistent, and the heap
    /// lies inside the Sv39 space.
    pub open spec fn wf(&self) -> bool {
        &&& self.syscall_counts().len() == MAX_SYSCALL_ID
        &&& self.memory_set.wf()
        &&& self.heap_bottom <= self.program_brk <= VA_LIMIT
    }

    /// The state is consistent and its address space owns only frames in use in `phys`.
    pub open spec fn wf_in(&self, phys: &PhysMemory) -> bool {
        &&& self.wf()
        &&& self.memory_set.wf_in(phys)
        &&& self.trap_cx_ppn < phys.num_frames()
    }

    /// Whether moving the break by `size` bytes, with `free` frames left, is defined.
    pub fn brk_change_is_defined(&self, free: u64, size: i32) -> (r: bool)
        requires
            self.wf(),
        ensures
            r == brk_change_defined(*self, free as nat, size),
    {
        let nb: i64 = self.program_brk as i64 + size as i64;
        if nb < self.heap_bottom as i64 {
            return true;
        }
        if size < 0 {
            self.memory_set.heap_can_shrink(VirtAddr(self.heap_bottom), VirtAddr(nb as u64))
        } else {
            self.memory_set.heap_can_append(free, VirtAddr(self.heap_bottom), VirtAddr(nb as u64))
        }
    }

    /// The trap context of the task: the one that its trap-context frame holds.
    pub fn get_trap_cx(&self, phys: &PhysMemory) -> (r: TrapContext)
        requires
            self.wf_in(phys),
        ensures
            holds_trap_cx(phys.mem(), self.trap_cx_ppn, r),
    {
        read_trap_cx(phys, self.trap_cx_ppn)
    }

    /// Stores `cx` as the trap context of the task, in its trap-context frame, leaving the
    /// saved `sstatus` and every other frame as they were.
    pub fn set_trap_cx(&self, phys: &mut PhysMemory, cx: &TrapContext)
        requires
            self.wf_in(old(phys)),
            cx.x@.len() == 32,
        ensures
            self.wf_in(final(phys)),
            holds_trap_cx(final(phys).mem(), self.trap_cx_ppn, *cx),
            cx_word(final(phys).mem(), self.trap_cx_ppn, 32) == cx_word(old(phys).mem(), self.trap_cx_ppn, 32),
            frames_kept(old(phys).mem(), final(phys).mem(), Set::new(|q: u64| q != self.trap_cx_ppn)),
            final(phys).used() == old(phys).used(),
            final(phys).num_frames() == old(phys).num_frames(),
            final(phys).free_count() == old(phys).free_count(),
    {
        write_trap_cx(phys, self.trap_cx_ppn, cx);
    }

    /// The token of the task's address space.
    pub fn get_user_token(&self, phys: &PhysMemory) -> (r: u64)
        requires
            self.memory_set.wf_in(phys),
        ensures
            r == 0x8000_0000_0000_0000u64 + self.memory_set.root(),
    {
        proof { self.memory_set.lemma_root_in_range(phys); }
        self.memory_set.token()
    }

    /// The state of the task in its life cycle.
    fn get_status(&self) -> (r: TaskStatus)
        ensures
            r == self.task_status,
    {
        self.task_status
    }

    /// Whether the task has exited.
    pub fn is_zombie(&self) -> (r: bool)
        ensures
            r == (self.task_status == TaskStatus::Zombie),
    {
        self.get_status() == TaskStatus::Zombie
    }

    /// The lowest free file descriptor; when every descriptor is taken, a new one at the
    /// end of the table.
    pub fn alloc_fd(&mut self) -> (r: usize)
        ensures
            r <= old(self).fd_table@.len(),
            forall|j: int| 0 <= j < r ==> (#[trigger] old(self).fd_table@[j]).is_some(),
            r < old(self).fd_table@.len() ==> old(self).fd_table@[r as int].is_none()
                && final(self).fd_table@ == old(self).fd_table@,
            r == old(self).fd_table@.len() ==> final(self).fd_table@ == old(self).fd_table@.push(None),
            *final(self) == (TaskControlBlockInner { fd_table: final(self).fd_table, ..*old(self) }),
    {
        let mut fd: usize = 0;
        while fd < self.fd_table.len()
            invariant
                fd <= self.fd_table@.len(),
                *self == *old(self),
                forall|j: int| 0 <= j < fd ==> (#[trigger] self.fd_table@[j]).is_some(),
            decreases self.fd_table@.len() - fd,
        {
            if self.fd_table[fd].is_none() {
                return fd;
            }
            fd = fd + 1;
        }
        self.fd_table.push(None);
        fd
    }

    /// The task's stride.
    fn get_stride(&self) -> (r: Stride)
        ensures
            r == self.stride,
    {
        self.stride
    }
}


/// The pass of a task of default priority 16.
pub open spec fn default_pass() -> u8 {
    (BIG_STRIDE / 16) as u8
}

/// The state of a task freshly built for an address space with user stack top `user_sp`,
/// entry point `entry`, and kernel stack top `kstack_top`.
pub open spec fn fresh_inner(inner: TaskControlBlockInner, mem: Seq<u8>, user_sp: u64, entry: u64, kstack_top: u64,
    layout: KernelLayout) -> bool {
    &&& inner.task_status == TaskStatus::Ready
    &&& inner.base_size == user_sp
    &&& inner.heap_bottom == user_sp
    &&& inner.program_brk == user_sp
    &&& inner.parent.is_none()
    &&& inner.children@ == Seq::<usize>::empty()
    &&& inner.exit_code == 0
    &&& inner.fd_table@ == seq![Some(File::Stdin), Some(File::Stdout), Some(File::Stdout)]
    &&& inner.syscall_cnt@ == Seq::new(MAX_SYSCALL_ID as nat, |i: int| 0usize)
    &&& inner.stride.0 == 0
    &&& inner.pass == default_pass()
    &&& inner.task_cx.ra == layout.trap_return
    &&& inner.task_cx.sp == kstack_top
    &&& inner.memory_set.pt().contains_key(TRAP_CONTEXT_VPN)
    &&& inner.trap_cx_ppn == inner.memory_set.pt()[TRAP_CONTEXT_VPN].ppn
    &&& init_cx_in(mem, inner.trap_cx_ppn, entry, user_sp, layout.kernel_satp, kstack_top, layout.trap_handler)
}

/// Frame `ppn` of `mem` holds the trap context that enters user mode at `entry` with stack
/// pointer `sp`, every other general register zero, with kernel token `satp`, kernel stack
/// top `ksp` and trap handler `handler`.
pub open spec fn init_cx_in(mem: Seq<u8>, ppn: u64, entry: u64, sp: u64, satp: u64, ksp: u64, handler: u64) -> bool {
    &&& cx_regs(mem, ppn) == Seq::new(32, |i: int| if i == 2 { sp } else { 0u64 })
    &&& cx_word(mem, ppn, 33) == entry
    &&& cx_word(mem, ppn, 34) == satp
    &&& cx_word(mem, ppn, 35) == ksp
    &&& cx_word(mem, ppn, 36) == handler
}

/// The call counts `cnt` with one more call of number `id`, wrapping around at
/// `usize::MAX`.
pub open spec fn counted(cnt: Seq<usize>, id: int) -> Seq<usize> {
    cnt.update(id, if cnt[id] == usize::MAX { 0 } else { (cnt[id] + 1) as usize })
}

/// `child`, with physical memory `m1`, is the state that forking a task in state `parent`,
/// with physical memory `m0` and identifier `parent_pid`, gives the child whose kernel
/// stack tops at `kstack_top`: ready, with no child and the default priority, its trap
/// frame holding what the parent's trap-context page holds but for the kernel stack top,
/// and sharing the
/// parent's image size, heap, open files and system-call counts.
pub open spec fn forked_inner(parent: TaskControlBlockInner, m0: Seq<u8>, child: TaskControlBlockInner, m1: Seq<u8>,
    parent_pid: usize, kstack_top: u64, layout: KernelLayout) -> bool {
    &&& child.task_status == TaskStatus::Ready
    &&& child.base_size == parent.base_size
    &&& child.heap_bottom == parent.heap_bottom
    &&& child.program_brk == parent.program_brk
    &&& child.parent == Some(parent_pid)
    &&& child.children@ == Seq::<usize>::empty()
    &&& child.exit_code == 0
    &&& child.fd_table@ == parent.fd_table@
    &&& child.syscall_cnt@ == parent.syscall_cnt@
    &&& child.stride.0 == 0
    &&& child.pass == default_pass()
    &&& child.task_cx.ra == layout.trap_return
    &&& child.task_cx.sp == kstack_top
    &&& cx_regs(m1, child.trap_cx_ppn) == cx_regs(m0, parent.memory_set.pt()[TRAP_CONTEXT_VPN].ppn)
    &&& forall|k: int| 32 <= k <= 36 && k != 35 ==> #[trigger] cx_word(m1, child.trap_cx_ppn, k)
        == cx_word(m0, parent.memory_set.pt()[TRAP_CONTEXT_VPN].ppn, k)
    &&& cx_word(m1, child.trap_cx_ppn, 35) == kstack_top
    &&& child.memory_set.pt().contains_key(TRAP_CONTEXT_VPN)
    &&& child.trap_cx_ppn == child.memory_set.pt()[TRAP_CONTEXT_VPN].ppn
}

/// Writing the kernel stack top into the trap frame of a copied address space keeps
/// every other byte of the copy, and leaves that frame holding the original's trap
/// context but for the kernel stack top.
proof fn lemma_fork_trap_frame(src: MemorySet, m0: Seq<u8>, dst: MemorySet, p1: &PhysMemory, m2: Seq<u8>, ksp: u64)
    requires
        src.wf(),
        dst.wf_in(p1),
        space_copied(src, m0, dst, p1.mem()),
        src.pt().contains_key(TRAP_CONTEXT_VPN),
        m2 == word_written(p1.mem(), dst.pt()[TRAP_CONTEXT_VPN].ppn * PAGE_SIZE + 8 * 35, ksp),
        word_at(m2, dst.pt()[TRAP_CONTEXT_VPN].ppn * PAGE_SIZE + 8 * 35) == ksp,
    ensures
        space_copied_except(src, m0, dst, m2, TRAP_CONTEXT_BASE + 8 * 35, TRAP_CONTEXT_BASE + 8 * 36),
        cx_regs(m2, dst.pt()[TRAP_CONTEXT_VPN].ppn) == cx_regs(m0, src.pt()[TRAP_CONTEXT_VPN].ppn),
        forall|k: int| 32 <= k <= 36 && k != 35 ==> #[trigger] cx_word(m2, dst.pt()[TRAP_CONTEXT_VPN].ppn, k)
            == cx_word(m0, src.pt()[TRAP_CONTEXT_VPN].ppn, k),
        cx_word(m2, dst.pt()[TRAP_CONTEXT_VPN].ppn, 35) == ksp,
{
    let m1 = p1.mem();
    let cp = dst.pt()[TRAP_CONTEXT_VPN].ppn;
    let sp = src.pt()[TRAP_CONTEXT_VPN].ppn;
    let a = cp * PAGE_SIZE + 8 * 35;
    assert(dst.pt().contains_key(TRAP_CONTEXT_VPN));
    dst.lemma_entry_in_range(p1, TRAP_CONTEXT_VPN);
    p1.lemma_mem_len();
    assert(cp * 4096 + 4096 <= p1.num_frames() * 4096) by (nonlinear_arith)
        requires cp < p1.num_frames();
    assert forall|va: int| va_mapped(src.pt(), va) && !(TRAP_CONTEXT_BASE + 8 * 35 <= va < TRAP_CONTEXT_BASE + 8 * 36)
        implies #[trigger] user_byte(dst.pt(), m2, va) == user_byte(src.pt(), m0, va) by {
        let v = page_of(va) as u64;
        assert(dst.pt().contains_key(v));
        assert(va_mapped(dst.pt(), va));
        crate::mm::user_access::lemma_va_to_pa_in_range(&dst, p1, va);
        let pa = va_to_pa(dst.pt(), va);
        let o = va % (PAGE_SIZE as int);
        if v == TRAP_CONTEXT_VPN {
            assert(va == TRAP_CONTEXT_BASE + o) by (nonlinear_arith)
                requires page_of(va) == 0x7ff_fffe, o == va % 4096, va >= 0;
            assert(!(a <= pa < a + 8));
        } else {
            assert(dst.pt()[v].ppn != cp);
            assert(!(a <= pa < a + 8)) by (nonlinear_arith)
                requires pa == dst.pt()[v].ppn * 4096 + o, a == cp * 4096 + 280, 0 <= o < 4096,
                    dst.pt()[v].ppn != cp;
        }
        assert(m2[pa] == m1[pa]);
        assert(user_byte(dst.pt(), m1, va) == user_byte(src.pt(), m0, va));
    }
    assert forall|k: int| 0 <= k <= 36 && k != 35 implies #[trigger] cx_word(m2, cp, k) == cx_word(m0, sp, k) by {
        let b = cp * PAGE_SIZE + 8 * k;
        let c = sp * PAGE_SIZE + 8 * k;
        lemma_copied_page_byte(src, m0, dst, m1, TRAP_CONTEXT_VPN, 8 * k);
        lemma_copied_page_byte(src, m0, dst, m1, TRAP_CONTEXT_VPN, 8 * k + 1);
        lemma_copied_page_byte(src, m0, dst, m1, TRAP_CONTEXT_VPN, 8 * k + 2);
        lemma_copied_page_byte(src, m0, dst, m1, TRAP_CONTEXT_VPN, 8 * k + 3);
        lemma_copied_page_byte(src, m0, dst, m1, TRAP_CONTEXT_VPN, 8 * k + 4);
        lemma_copied_page_byte(src, m0, dst, m1, TRAP_CONTEXT_VPN, 8 * k + 5);
        lemma_copied_page_byte(src, m0, dst, m1, TRAP_CONTEXT_VPN, 8 * k + 6);
        lemma_copied_page_byte(src, m0, dst, m1, TRAP_CONTEXT_VPN, 8 * k + 7);
        assert(m2[b] == m1[b] && m2[b + 1] == m1[b + 1] && m2[b + 2] == m1[b + 2] && m2[b + 3] == m1[b + 3]);
        assert(m2[b + 4] == m1[b + 4] && m2[b + 5] == m1[b + 5] && m2[b + 6] == m1[b + 6] && m2[b + 7] == m1[b + 7]);
    }
    assert(cx_regs(m2, cp) =~= cx_regs(m0, sp));
}

/// A copy of `v`.
fn copy_vec<T: Copy>(v: &Vec<T>) -> (r: Vec<T>)
    ensures
        r@ == v@,
{
    let mut r: Vec<T> = Vec::new();
    let mut i: usize = 0;
    while i < v.len()
        invariant
            i <= v@.len(),
            r@ == v@.take(i as int),
        decreases v@.len() - i,
    {
        r.push(v[i]);
        i = i + 1;
        assert(r@ =~= v@.take(i as int));
    }
    assert(v@.take(v@.len() as int) =~= v@);
    r
}

impl TaskControlBlock {
    /// The changing state of the task.
    pub open spec fn inner_view(&self) -> TaskControlBlockInner {
        self.inner
    }

    /// The task is consistent, owns only frames in use in `phys`, and its kernel stack is
    /// the one of its identifier.
    pub open spec fn wf_in(&self, phys: &PhysMemory) -> bool {
        &&& self.inner_view().wf_in(phys)
        &&& self.pid.0 <= MAX_PID
        &&& self.kernel_stack.0 == self.pid.0
    }

    /// Exclusive access to the changing state of the task.
    pub fn inner_exclusive_access(&mut self) -> (r: &mut TaskControlBlockInner)
        ensures
            *r == old(self).inner_view(),
            final(self).inner_view() == *final(r),
            final(self).pid == old(self).pid,
            final(self).kernel_stack == old(self).kernel_stack,
    {
        &mut self.inner
    }

    /// The token of the task's address space.
    pub fn get_user_token(&self, phys: &PhysMemory) -> (r: u64)
        requires
            self.wf_in(phys),
        ensures
            r == 0x8000_0000_0000_0000u64 + self.inner_view().memory_set.root(),
    {
        self.inner.get_user_token(phys)
    }

    /// The process identifier.
    pub fn getpid(&self) -> (r: usize)
        ensures
            r == self.pid.0,
    {
        self.pid.0
    }

    /// A ready task with identifier `pid` running `img`: its address space loaded from
    /// the image, its heap empty at the top of the user stack, its trap context set to
    /// enter the program, the console on descriptors 0, 1 and 2, and default priority.
    pub fn new(img: &AppImage, pids: &mut PidAllocator, phys: &mut PhysMemory, layout: &KernelLayout) -> (r: TaskControlBlock)
        requires
            old(phys).wf(),
            image_wf(*img),
            old(phys).free_count() >= frames_needed(*img),
            old(pids).wf(),
            old(pids).can_alloc(),
        ensures
            r.wf_in(final(phys)),
            pid_taken(*old(pids), *final(pids), r.pid.0),
            r.kernel_stack.0 == r.pid.0,
            fresh_inner(r.inner_view(), final(phys).mem(), (stack_top_vpn(img.segments@) * PAGE_SIZE) as u64,
                img.entry_point, kernel_stack_top(r.pid.0 as int) as u64, *layout),
            loaded_image(r.inner_view().memory_set, final(phys).mem(), *img),
            r.inner_view().memory_set.owned().disjoint(old(phys).used()),
            final(phys).used() == old(phys).used().union(r.inner_view().memory_set.owned()),
            frames_kept(old(phys).mem(), final(phys).mem(), old(phys).used()),
            final(phys).num_frames() == old(phys).num_frames(),
            final(phys).free_count() + frames_needed(*img) == old(phys).free_count(),
    {
        let pid = pids.allocate();
        let (memory_set, user_sp, entry_point) = from_elf(img, phys);
        let trap_cx_ppn = match memory_set.translate(VirtAddr(TRAP_CONTEXT_BASE).floor()) {
            Some(e) => e.ppn,
            None => { assert(false); 0 },
        };
        let kernel_stack = KernelStack(pid);
        let kernel_stack_top = kernel_stack.get_top();
        let trap_cx = TrapContext::app_init_context(entry_point, user_sp, layout.kernel_satp, kernel_stack_top,
            layout.trap_handler);
        let mut fd_table: Vec<Option<File>> = Vec::new();
        fd_table.push(Some(File::Stdin));
        fd_table.push(Some(File::Stdout));
        fd_table.push(Some(File::Stdout));
        let mut syscall_cnt: Vec<usize> = Vec::new();
        let mut i: usize = 0;
        while i < MAX_SYSCALL_ID
            invariant
                i <= MAX_SYSCALL_ID,
                syscall_cnt@ == Seq::new(i as nat, |j: int| 0usize),
            decreases MAX_SYSCALL_ID - i,
        {
            syscall_cnt.push(0);
            i = i + 1;
            assert(syscall_cnt@ =~= Seq::new(i as nat, |j: int| 0usize));
        }
        proof {
            assert(fd_table@ =~= seq![Some(File::Stdin), Some(File::Stdout), Some(File::Stdout)]);
            assert(BIG_STRIDE >> 4u8 == 15u8) by (bit_vector);
        }
        let inner = TaskControlBlockInner {
            trap_cx_ppn,
            base_size: user_sp,
            task_cx: TaskContext::goto_trap_return(kernel_stack_top, layout.trap_return),
            task_status: TaskStatus::Ready,
            memory_set,
            parent: None,
            children: Vec::new(),
            exit_code: 0,
            heap_bottom: user_sp,
            program_brk: user_sp,
            fd_table,
            syscall_cnt,
            stride: Stride(0),
            pass: BIG_STRIDE >> 4u8,
        };
        let ghost p1 = *phys;
        proof {
            inner.memory_set.lemma_entry_in_range(&p1, TRAP_CONTEXT_VPN);
            assert(frames_of(inner.memory_set.pt()).contains(trap_cx_ppn));
        }
        inner.set_trap_cx(phys, &trap_cx);
        proof {
            assert(trap_cx.x@ =~= Seq::new(32, |i: int| if i == 2 { user_sp } else { 0u64 }));
            lemma_loaded_image_kept_but_trap(inner.memory_set, &p1, phys.mem(), *img);
            assert forall|j: int| 0 <= j < old(phys).mem().len() && old(phys).used().contains((j / (PAGE_SIZE as int)) as u64)
                implies #[trigger] phys.mem()[j] == old(phys).mem()[j] by {
                assert(p1.mem()[j] == old(phys).mem()[j]);
                assert(Set::new(|q: u64| q != trap_cx_ppn).contains((j / (PAGE_SIZE as int)) as u64));
            }
        }
        TaskControlBlock { pid: PidHandle(pid), kernel_stack, inner }
    }

    /// Sets the task's priority to `priority`, making its pass `BIG_STRIDE` divided by
    /// the low byte of `priority`; returns `priority`, or -1, changing nothing, when
    /// `priority` is below 2.
    pub fn set_prio(&mut self, priority: isize) -> (r: isize)
        requires
            !(priority >= 2 && priority % 256 == 0),
        ensures
            priority >= 2 ==> r == priority && final(self).inner == (TaskControlBlockInner {
                pass: (BIG_STRIDE as int / (priority as int % 256)) as u8,
                ..old(self).inner
            }),
            priority < 2 ==> r == -1 && final(self).inner == old(self).inner,
            final(self).pid == old(self).pid,
            final(self).kernel_stack == old(self).kernel_stack,
    {
        if priority >= 2 {
            let low = (priority % 256) as u8;
            self.inner.pass = BIG_STRIDE / low;
            priority
        } else {
            -1
        }
    }

    /// Advances the task's stride by its pass, modulo 256.
    pub fn update_stride(&mut self)
        ensures
            final(self).inner == (TaskControlBlockInner {
                stride: Stride(((old(self).inner.stride.0 + old(self).inner.pass) % 256) as u8),
                ..old(self).inner
            }),
            final(self).pid == old(self).pid,
            final(self).kernel_stack == old(self).kernel_stack,
    {
        let s = self.inner.stride.0.wrapping_add(self.inner.pass);
        self.inner.stride = Stride(s);
    }

    /// Compares the strides of two tasks as the stride scheduler orders them.
    pub fn compare_stride(&self, other: &Self) -> (r: Ordering)
        ensures
            r == stride_order_of(self.inner.stride.0, other.inner.stride.0),
    {
        stride_order(self.inner.get_stride(), other.inner.get_stride())
    }

    /// Counts one more call of system call `id`, wrapping around at `usize::MAX`.
    pub fn inc_syscall(&mut self, id: usize)
        requires
            old(self).inner.wf(),
            id < MAX_SYSCALL_ID,
        ensures
            final(self).inner.syscall_cnt@ == counted(old(self).inner.syscall_cnt@, id as int),
            final(self).inner == (TaskControlBlockInner { syscall_cnt: final(self).inner.syscall_cnt, ..old(self).inner }),
            final(self).pid == old(self).pid,
            final(self).kernel_stack == old(self).kernel_stack,
    {
        let c = self.inner.syscall_cnt[id];
        self.inner.syscall_cnt.set(id, c.wrapping_add(1));
    }

    /// How many times the task made system call `id`.
    pub fn get_syscall_cnt(&self, id: usize) -> (r: usize)
        requires
            self.inner.wf(),
            id < MAX_SYSCALL_ID,
        ensures
            r == self.inner.syscall_cnt@[id as int],
    {
        self.inner.syscall_cnt[id]
    }

    /// Resets every system call counter to zero.
    pub fn clear_syscall(&mut self)
        requires
            old(self).inner.wf(),
        ensures
            final(self).inner.syscall_cnt@ == Seq::new(MAX_SYSCALL_ID as nat, |i: int| 0usize),
            final(self).inner == (TaskControlBlockInner { syscall_cnt: final(self).inner.syscall_cnt, ..old(self).inner }),
            final(self).pid == old(self).pid,
            final(self).kernel_stack == old(self).kernel_stack,
    {
        let mut i: usize = 0;
        let n = self.inner.syscall_cnt.len();
        while i < n
            invariant
                n == self.inner.syscall_cnt@.len(),
                n == MAX_SYSCALL_ID,
                i <= n,
                forall|j: int| 0 <= j < i ==> self.inner.syscall_cnt@[j] == 0,
                self.inner == (TaskControlBlockInner { syscall_cnt: self.inner.syscall_cnt, ..old(self).inner }),
                self.pid == old(self).pid,
                self.kernel_stack == old(self).kernel_stack,
            decreases n - i,
        {
            self.inner.syscall_cnt.set(i, 0);
            i = i + 1;
        }
        assert(self.inner.syscall_cnt@ =~= Seq::new(MAX_SYSCALL_ID as nat, |i: int| 0usize));
    }

    /// Maps the framed area `va .. ve` with permission `perm` into the task's address
    /// space; see `MemorySet::map_frame`.
    pub fn map_frame(&mut self, phys: &mut PhysMemory, va: VirtAddr, ve: VirtAddr, perm: MapPermission) -> (r: bool)
        requires
            old(self).wf_in(old(phys)),
        ensures
            final(self).wf_in(final(phys)),
            map_frame_result(*old(self), *final(self), *old(phys), *final(phys), va, ve, perm, r),
    {
        self.inner.memory_set.map_frame(phys, va, ve, perm)
    }

    /// Unmaps the area `va .. ve` from the task's address space; see
    /// `MemorySet::unmap_frame`.
    pub fn unmap_frame(&mut self, phys: &mut PhysMemory, va: VirtAddr, ve: VirtAddr) -> (r: bool)
        requires
            old(self).wf_in(old(phys)),
        ensures
            final(self).wf_in(final(phys)),
            unmap_frame_result(*old(self), *final(self), *old(phys), *final(phys), va, ve, r),
    {
        self.inner.memory_set.unmap_frame(phys, va, ve)
    }

    /// The physical address through which the kernel may write at user address `vaddr`:
    /// defined when `vaddr` lies in the lower half of the Sv39 space, in a page mapped
    /// readable and writable.
    pub fn get_mut_ref(&self, phys: &PhysMemory, vaddr: VirtAddr) -> (r: Option<u64>)
        requires
            self.wf_in(phys),
        ensures
            r == match mut_ref_target(self.inner.memory_set.pt(), vaddr.0) {
                Some(pa) => Some(pa as u64),
                None => None::<u64>,
            },
            r matches Some(pa) ==> pa < phys.mem().len(),
            mut_ref_target(self.inner.memory_set.pt(), vaddr.0) matches Some(pa) ==> 0 <= pa < phys.mem().len() && pa < 0x8000_0000,
    {
        let v = vaddr.0;
        let bit38 = v >> 38u64 & 0x1;
        let top_bits = v >> 39u64;
        proof {
            assert(((v >> 38u64 & 0x1) == 0 && (v >> 39u64) == 0) == (v < 0x40_0000_0000u64)) by (bit_vector);
            assert(!((v >> 38u64 & 0x1) == 1 && !(v >> 39u64) == 0)) by (bit_vector);
        }
        if (bit38 == 0 && top_bits == 0) || (bit38 == 1 && !top_bits == 0) {
            match self.inner.memory_set.translate(vaddr.floor()) {
                Some(pte) => {
                    if pte.flags.w && pte.flags.r {
                        proof {
                            phys.lemma_mem_len();
                            let key = page_of(v as int) as u64;
                            assert(key % VPN_LIMIT == key);
                            self.inner.memory_set.lemma_entry_in_range(phys, key);
                            crate::mm::user_access::lemma_va_to_pa_in_range(&self.inner.memory_set, phys, v as int);
                            assert(pte.ppn * 4096 + 4096 <= 0x8_0000 * 4096) by (nonlinear_arith)
                                requires pte.ppn < 0x8_0000;
                        }
                        Some(pte.ppn * (PAGE_SIZE as u64) + vaddr.page_offset())
                    } else {
                        None
                    }
                },
                None => None,
            }
        } else {
            None
        }
    }

    /// The physical address through which the kernel may read at user address `vaddr`:
    /// defined when `vaddr` lies in the lower or the upper half of the Sv39 space and
    /// the page that the low 27 bits of its page number select is mapped readable.
    pub fn get_ref(&self, phys: &PhysMemory, vaddr: VirtAddr) -> (r: Option<u64>)
        requires
            self.wf_in(phys),
        ensures
            r == match ref_target(self.inner.memory_set.pt(), vaddr.0) {
                Some(pa) => Some(pa as u64),
                None => None::<u64>,
            },
            r matches Some(pa) ==> pa < phys.mem().len(),
            ref_target(self.inner.memory_set.pt(), vaddr.0) matches Some(pa) ==> 0 <= pa < phys.mem().len() && pa < 0x8000_0000,
    {
        let v = vaddr.0;
        let bit38 = v >> 38u64 & 0x1;
        let top_bits = v >> 39u64;
        proof {
            assert(((v >> 38u64 & 0x1) == 0 && (v >> 39u64) != 0) || ((v >> 38u64 & 0x1) == 1 && (v >> 39u64) != 0x1ff_ffff)
                <==> !(v < 0x40_0000_0000u64 || v >= 0xffff_ffc0_0000_0000u64)) by (bit_vector);
        }
        let all_ones: u64 = 1u64 << 25u64;
        assert(all_ones == 0x200_0000) by (bit_vector) requires all_ones == 1u64 << 25u64;
        if (bit38 == 0 && top_bits != 0) || (bit38 == 1 && top_bits != all_ones - 1) {
            return None;
        }
        let pte = match self.inner.memory_set.translate(vaddr.floor()) {
            Some(pte) => pte,
            None => { return None; },
        };
        if pte.flags.r {
            proof {
                let key = ((v / 4096) % VPN_LIMIT) as u64;
                self.inner.memory_set.lemma_entry_in_range(phys, key);
                phys.lemma_mem_len();
                assert(pte.ppn * 4096 + (v % 4096) < phys.num_frames() * 4096) by (nonlinear_arith)
                    requires pte.ppn < phys.num_frames(), v % 4096 < 4096;
            }
            Some(pte.ppn * (PAGE_SIZE as u64) + vaddr.page_offset())
        } else {
            None
        }
    }

    /// The page-table entry that translates the page of `va`, for inspection.
    pub fn debug_vaddr(&self, va: VirtAddr) -> (r: Option<PageTableEntry>)
        ensures
            match r {
                Some(e) => self.inner.memory_set.pt().contains_key(page_of(va.0 as int) as u64 % VPN_LIMIT)
                    && self.inner.memory_set.pt()[page_of(va.0 as int) as u64 % VPN_LIMIT] == e,
                None => !self.inner.memory_set.pt().contains_key(page_of(va.0 as int) as u64 % VPN_LIMIT),
            },
    {
        self.inner.memory_set.translate(va.floor())
    }

    /// Moves the program break by `size` bytes and returns the old break. Fails, changing
    /// nothing, when the new break would lie below the heap bottom, or when no heap area
    /// of the address space starts at the page of the heap bottom.
    pub fn change_program_brk(&mut self, phys: &mut PhysMemory, size: i32) -> (r: Option<u64>)
        requires
            old(self).wf_in(old(phys)),
            brk_change_defined(old(self).inner, old(phys).free_count(), size),
        ensures
            final(self).wf_in(final(phys)),
            brk_result(*old(self), *final(self), *old(phys), *final(phys), size, r),
    {
        let heap_bottom = self.inner.heap_bottom;
        let old_break = self.inner.program_brk;
        let new_brk: i64 = self.inner.program_brk as i64 + size as i64;
        if new_brk < heap_bottom as i64 {
            return None;
        }
        let result = if size < 0 {
            self.inner.memory_set.shrink_to(phys, VirtAddr(heap_bottom), VirtAddr(new_brk as u64))
        } else {
            self.inner.memory_set.append_to(phys, VirtAddr(heap_bottom), VirtAddr(new_brk as u64))
        };
        if result {
            proof {
                if size >= 0 {
                    assert(new_brk <= 0x80_0000_0000) by (nonlinear_arith)
                        requires (new_brk + 4095) / 4096 <= 0x800_0000, new_brk >= 0;
                }
            }
            self.inner.program_brk = new_brk as u64;
            Some(old_break)
        } else {
            None
        }
    }
    /// Replaces the task's program by `img`: a fresh address space loaded from the image,
    /// whose old frames are returned, the trap context set to enter the new program, and
    /// the image size set to the new stack top. The heap bottom and the program break are
    /// kept.
    pub fn exec(&mut self, img: &AppImage, phys: &mut PhysMemory, layout: &KernelLayout)
        requires
            old(self).wf_in(old(phys)),
            image_wf(*img),
            old(phys).free_count() >= frames_needed(*img),
        ensures
            final(self).wf_in(final(phys)),
            final(self).pid == old(self).pid,
            final(self).kernel_stack == old(self).kernel_stack,
            ({
                let user_sp = (stack_top_vpn(img.segments@) * PAGE_SIZE) as u64;
                let ni = final(self).inner;
                let oi = old(self).inner;
                &&& loaded_image(ni.memory_set, final(phys).mem(), *img)
                &&& ni.memory_set.owned().disjoint(old(phys).used())
                &&& final(phys).used() == old(phys).used().difference(oi.memory_set.owned()).union(ni.memory_set.owned())
                &&& ni.base_size == user_sp
                &&& ni.memory_set.pt().contains_key(TRAP_CONTEXT_VPN)
                &&& ni.trap_cx_ppn == ni.memory_set.pt()[TRAP_CONTEXT_VPN].ppn
                &&& init_cx_in(final(phys).mem(), ni.trap_cx_ppn, img.entry_point, user_sp, layout.kernel_satp,
                    kernel_stack_top(old(self).pid.0 as int) as u64, layout.trap_handler)
                &&& ni == (TaskControlBlockInner {
                    memory_set: ni.memory_set,
                    trap_cx_ppn: ni.trap_cx_ppn,
                    base_size: ni.base_size,
                    ..oi
                })
            }),
            frames_kept(old(phys).mem(), final(phys).mem(), old(phys).used().difference(old(self).inner.memory_set.owned())),
            final(phys).num_frames() == old(phys).num_frames(),
    {
        let ghost p0 = *phys;
        let (mut memory_set, user_sp, entry_point) = from_elf(img, phys);
        let trap_cx_ppn = match memory_set.translate(VirtAddr(TRAP_CONTEXT_BASE).floor()) {
            Some(e) => e.ppn,
            None => { assert(false); 0 },
        };
        let ghost p1 = *phys;
        std::mem::swap(&mut self.inner.memory_set, &mut memory_set);
        proof {
            assert(memory_set.owned().subset_of(p0.used()));
            assert(memory_set.wf_in(phys));
        }
        memory_set.release(phys);
        proof {
            let old_owned = old(self).inner.memory_set.owned();
            let new_owned = self.inner.memory_set.owned();
            assert(phys.used() =~= p0.used().difference(old_owned).union(new_owned));
            assert(new_owned.subset_of(phys.used()));
        }
        self.inner.trap_cx_ppn = trap_cx_ppn;
        self.inner.base_size = user_sp;
        let kernel_stack_top = self.kernel_stack.get_top();
        let cx = TrapContext::app_init_context(entry_point, user_sp, layout.kernel_satp,
            kernel_stack_top, layout.trap_handler);
        let ghost p2 = *phys;
        proof {
            self.inner.memory_set.lemma_entry_in_range(&p2, TRAP_CONTEXT_VPN);
            assert(frames_of(self.inner.memory_set.pt()).contains(trap_cx_ppn));
        }
        self.inner.set_trap_cx(phys, &cx);
        proof {
            assert(cx.x@ =~= Seq::new(32, |i: int| if i == 2 { user_sp } else { 0u64 }));
            lemma_loaded_image_kept_but_trap(self.inner.memory_set, &p2, phys.mem(), *img);
            assert forall|j: int| 0 <= j < p0.mem().len()
                && p0.used().difference(old(self).inner.memory_set.owned()).contains((j / (PAGE_SIZE as int)) as u64)
                implies #[trigger] phys.mem()[j] == p0.mem()[j] by {
                assert(p1.mem()[j] == p0.mem()[j]);
                assert(Set::new(|q: u64| q != trap_cx_ppn).contains((j / (PAGE_SIZE as int)) as u64));
            }
        }
    }

    /// Creates a child task, with an identifier that `pids` hands out, that duplicates the
    /// calling task:
    /// its address space copied page by page, its trap context the same but for the
    /// kernel stack, and its open files, heap and system-call counts the same. The child
    /// is ready, has the default priority, and joins the caller's children.
    pub fn fork(&mut self, pids: &mut PidAllocator, phys: &mut PhysMemory, layout: &KernelLayout) -> (r: TaskControlBlock)
        requires
            old(self).wf_in(old(phys)),
            old(self).inner.memory_set.pt().contains_key(TRAP_CONTEXT_VPN),
            old(phys).free_count() > old(self).inner.memory_set.pt().dom().len(),
            old(pids).wf(),
            old(pids).can_alloc(),
            old(pids).in_use().contains(old(self).pid.0),
        ensures
            final(self).wf_in(final(phys)),
            r.wf_in(final(phys)),
            pid_taken(*old(pids), *final(pids), r.pid.0),
            r.pid.0 != old(self).pid.0,
            r.kernel_stack.0 == r.pid.0,
            final(self).inner.children@ == old(self).inner.children@.push(r.pid.0),
            final(self).inner == (TaskControlBlockInner { children: final(self).inner.children, ..old(self).inner }),
            final(self).pid == old(self).pid,
            final(self).kernel_stack == old(self).kernel_stack,
            forked_inner(old(self).inner, old(phys).mem(), r.inner, final(phys).mem(), old(self).pid.0,
                kernel_stack_top(r.pid.0 as int) as u64, *layout),
            space_copied_except(old(self).inner.memory_set, old(phys).mem(), r.inner.memory_set, final(phys).mem(),
                TRAP_CONTEXT_BASE + 8 * 35, TRAP_CONTEXT_BASE + 8 * 36),
            r.inner.memory_set.owned().disjoint(old(phys).used()),
            r.inner.memory_set.owned().disjoint(final(self).inner.memory_set.owned()),
            final(phys).used() == old(phys).used().union(r.inner.memory_set.owned()),
            frames_kept(old(phys).mem(), final(phys).mem(), old(phys).used()),
            final(phys).num_frames() == old(phys).num_frames(),
            final(phys).free_count() + old(self).inner.memory_set.pt().dom().len() + 1 == old(phys).free_count(),
    {
        let child_pid = pids.allocate();
        let memory_set = MemorySet::from_existed_user(&self.inner.memory_set, phys);
        let trap_cx_ppn = match memory_set.translate(VirtAddr(TRAP_CONTEXT_BASE).floor()) {
            Some(e) => e.ppn,
            None => { assert(false); 0 },
        };
        let kernel_stack = KernelStack(child_pid);
        let kernel_stack_top = kernel_stack.get_top();
        proof {
            assert(BIG_STRIDE >> 4u8 == 15u8) by (bit_vector);
        }
        let inner = TaskControlBlockInner {
            trap_cx_ppn,
            base_size: self.inner.base_size,
            task_cx: TaskContext::goto_trap_return(kernel_stack_top, layout.trap_return),
            task_status: TaskStatus::Ready,
            memory_set,
            parent: Some(self.pid.0),
            children: Vec::new(),
            exit_code: 0,
            heap_bottom: self.inner.heap_bottom,
            program_brk: self.inner.program_brk,
            fd_table: copy_vec(&self.inner.fd_table),
            syscall_cnt: copy_vec(&self.inner.syscall_cnt),
            stride: Stride(0),
            pass: BIG_STRIDE >> 4u8,
        };
        let ghost p1 = *phys;
        proof {
            inner.memory_set.lemma_entry_in_range(&p1, TRAP_CONTEXT_VPN);
            p1.lemma_mem_len();
            assert(trap_cx_ppn * 4096 + 4096 <= p1.num_frames() * 4096) by (nonlinear_arith)
                requires trap_cx_ppn < p1.num_frames();
        }
        phys.write_word(trap_cx_ppn * (PAGE_SIZE as u64) + 8 * 35, kernel_stack_top);
        self.inner.children.push(child_pid);
        proof {
            lemma_fork_trap_frame(old(self).inner.memory_set, old(phys).mem(), inner.memory_set, &p1,
                phys.mem(), kernel_stack_top);
            assert(old(self).inner.memory_set.owned().subset_of(phys.used()));
            assert(frames_of(inner.memory_set.pt()).contains(trap_cx_ppn));
            assert forall|j: int| 0 <= j < old(phys).mem().len() && old(phys).used().contains((j / (PAGE_SIZE as int)) as u64)
                implies #[trigger] phys.mem()[j] == old(phys).mem()[j] by {
                assert(p1.mem()[j] == old(phys).mem()[j]);
                if trap_cx_ppn * 4096 <= j < trap_cx_ppn * 4096 + 4096 {
                    crate::mm::address::lemma_page_of(j, trap_cx_ppn as int);
                }
            }
        }
        TaskControlBlock { pid: PidHandle(child_pid), kernel_stack, inner }
    }

    /// Creates a child task running `img`, with an identifier that `pids` hands out,
    /// records it as a child of the calling task, and returns it.
    pub fn spawn(&mut self, img: &AppImage, pids: &mut PidAllocator, phys: &mut PhysMemory, layout: &KernelLayout) -> (r: TaskControlBlock)
        requires
            old(self).wf_in(old(phys)),
            image_wf(*img),
            old(phys).free_count() >= frames_needed(*img),
            old(pids).wf(),
            old(pids).can_alloc(),
            old(pids).in_use().contains(old(self).pid.0),
        ensures
            final(self).wf_in(final(phys)),
            r.wf_in(final(phys)),
            pid_taken(*old(pids), *final(pids), r.pid.0),
            r.pid.0 != old(self).pid.0,
            r.kernel_stack.0 == r.pid.0,
            r.inner.parent == Some(old(self).pid.0),
            final(self).inner.children@ == old(self).inner.children@.push(r.pid.0),
            final(self).inner == (TaskControlBlockInner { children: final(self).inner.children, ..old(self).inner }),
            final(self).pid == old(self).pid,
            final(self).kernel_stack == old(self).kernel_stack,
            fresh_inner((TaskControlBlockInner { parent: None, ..r.inner }), final(phys).mem(),
                (stack_top_vpn(img.segments@) * PAGE_SIZE) as u64, img.entry_point,
                kernel_stack_top(r.pid.0 as int) as u64, *layout),
            loaded_image(r.inner.memory_set, final(phys).mem(), *img),
            r.inner.memory_set.owned().disjoint(old(phys).used()),
            final(phys).used() == old(phys).used().union(r.inner.memory_set.owned()),
            frames_kept(old(phys).mem(), final(phys).mem(), old(phys).used()),
            final(phys).num_frames() == old(phys).num_frames(),
            final(phys).free_count() + frames_needed(*img) == old(phys).free_count(),
    {
        let mut new_task = TaskControlBlock::new(img, pids, phys, layout);
        self.inner.children.push(new_task.pid.0);
        new_task.inner.parent = Some(self.pid.0);
        proof {
            assert(old(self).inner.memory_set.owned().subset_of(phys.used()));
            assert((TaskControlBlockInner { parent: None, ..new_task.inner }).memory_set == new_task.inner.memory_set);
        }
        new_task
    }
}

/// Task `t1`, with physical memory `p1`, is what mapping `va .. ve` with permission
/// `perm` into task `t0`, with physical memory `p0`, leaves, and `r` tells whether it
/// succeeded.
pub open spec fn map_frame_result(t0: TaskControlBlock, t1: TaskControlBlock, p0: PhysMemory, p1: PhysMemory,
    va: VirtAddr, ve: VirtAddr, perm: MapPermission, r: bool) -> bool {
    let s = page_of(va.0 as int);
    let e = page_ceil(ve.0 as int);
    let npt = t1.inner.memory_set.pt();
    &&& t1.pid == t0.pid
    &&& t1.kernel_stack == t0.kernel_stack
    &&& t1.inner == (TaskControlBlockInner { memory_set: t1.inner.memory_set, ..t0.inner })
    &&& t1.inner.memory_set.root() == t0.inner.memory_set.root()
    &&& p1.num_frames() == p0.num_frames()
    &&& r == map_frame_ok(t0.inner.memory_set.pt(), p0.free_count(), s, e)
    &&& r ==> {
        &&& range_added(t0.inner.memory_set.pt(), npt, s, e, perm.spec_pte_flags(), p0.used())
        &&& p1.used() == p0.used().union(frames_in(npt, s, e))
        &&& frames_zeroed(p0.mem(), p1.mem(), frames_in(npt, s, e))
        &&& p1.free_count() + (e - s) == p0.free_count()
    }
    &&& !r ==> t1 == t0 && p1 == p0
}

/// Task `t1`, with physical memory `p1`, is what unmapping `va .. ve` from task `t0`, with
/// physical memory `p0`, leaves, and `r` tells whether it succeeded.
pub open spec fn unmap_frame_result(t0: TaskControlBlock, t1: TaskControlBlock, p0: PhysMemory, p1: PhysMemory,
    va: VirtAddr, ve: VirtAddr, r: bool) -> bool {
    let s = page_of(va.0 as int);
    let e = page_ceil(ve.0 as int);
    &&& t1.pid == t0.pid
    &&& t1.kernel_stack == t0.kernel_stack
    &&& t1.inner == (TaskControlBlockInner { memory_set: t1.inner.memory_set, ..t0.inner })
    &&& t1.inner.memory_set.root() == t0.inner.memory_set.root()
    &&& p1.num_frames() == p0.num_frames()
    &&& p1.mem() == p0.mem()
    &&& r == unmap_frame_ok(t0.inner.memory_set.pt(), s, e)
    &&& r ==> {
        &&& range_removed(t0.inner.memory_set.pt(), t1.inner.memory_set.pt(), s, e)
        &&& p1.used() == p0.used().difference(frames_in(t0.inner.memory_set.pt(), s, e))
        &&& p1.free_count() == p0.free_count() + (e - s)
    }
    &&& !r ==> t1 == t0 && p1 == p0
}

/// Task `t1`, with physical memory `p1`, is what moving the break of task `t0`, with
/// physical memory `p0`, by `size` bytes leaves, and `r` is what it returns.
pub open spec fn brk_result(t0: TaskControlBlock, t1: TaskControlBlock, p0: PhysMemory, p1: PhysMemory,
    size: i32, r: Option<u64>) -> bool {
    &&& t1.pid == t0.pid
    &&& t1.kernel_stack == t0.kernel_stack
    &&& p1.num_frames() == p0.num_frames()
    &&& r == (if brk_change_applies(t0.inner, size) { Some(t0.inner.program_brk) } else { None::<u64> })
    &&& r.is_none() ==> t1 == t0 && p1 == p0
    &&& r.is_some() ==> {
        let nb = t0.inner.program_brk + size;
        let ms0 = t0.inner.memory_set;
        let ms1 = t1.inner.memory_set;
        let he = ms0.heap_end_vpn() as int;
        &&& t1.inner == (TaskControlBlockInner { memory_set: ms1, program_brk: nb as u64, ..t0.inner })
        &&& ms1.root() == ms0.root()
        &&& ms1.heap_start_vpn() == ms0.heap_start_vpn()
        &&& ms1.heap_end_vpn() == page_ceil(nb)
        &&& size < 0 ==> {
            &&& range_removed(ms0.pt(), ms1.pt(), page_ceil(nb), he)
            &&& p1.used() == p0.used().difference(frames_in(ms0.pt(), page_ceil(nb), he))
            &&& p1.mem() == p0.mem()
        }
        &&& size >= 0 ==> {
            &&& range_added(ms0.pt(), ms1.pt(), he, page_ceil(nb), heap_flags(), p0.used())
            &&& p1.used() == p0.used().union(frames_in(ms1.pt(), he, page_ceil(nb)))
            &&& frames_zeroed(p0.mem(), p1.mem(), frames_in(ms1.pt(), he, page_ceil(nb)))
        }
    }
}

/// Moving the break of a task in state `inner` by `size` bytes does not fail.
pub open spec fn brk_change_applies(inner: TaskControlBlockInner, size: i32) -> bool {
    &&& inner.program_brk + size >= inner.heap_bottom
    &&& page_of(inner.heap_bottom as int) == inner.memory_set.heap_start_vpn()
}

/// Moving the break of a task in state `inner` by `size` bytes, with `free` frames left,
/// is defined: when it would move the heap's end, the heap area can shrink or grow that
/// far.
pub open spec fn brk_change_defined(inner: TaskControlBlockInner, free: nat, size: i32) -> bool {
    let nb = inner.program_brk + size;
    nb >= inner.heap_bottom ==> if size < 0 {
        heap_shrink_allowed(inner.memory_set, VirtAddr(inner.heap_bottom), VirtAddr(nb as u64))
    } else {
        heap_append_allowed(inner.memory_set, free, VirtAddr(inner.heap_bottom), VirtAddr(nb as u64))
    }
}

/// Where the kernel writes for user address `va` under page table `pt`: defined when
/// `va` lies below `2^38` in a page mapped readable and writable.
pub open spec fn mut_ref_target(pt: Map<u64, PageTableEntry>, va: u64) -> Option<int> {
    let key = page_of(va as int) as u64;
    if va < 0x40_0000_0000u64 && pt.contains_key(key) && pt[key].flags.r && pt[key].flags.w {
        Some(va_to_pa(pt, va as int))
    } else {
        None
    }
}

/// Where the kernel reads for user address `va` under page table `pt`: defined when `va`
/// lies below `2^38` or at or above `2^64 - 2^38`, and the page that the low 27 bits of
/// its page number select is mapped readable.
pub open spec fn ref_target(pt: Map<u64, PageTableEntry>, va: u64) -> Option<int> {
    let key = ((va / 4096) % VPN_LIMIT) as u64;
    if (va < 0x40_0000_0000u64 || va >= 0xffff_ffc0_0000_0000u64) && pt.contains_key(key) && pt[key].flags.r {
        Some(pt[key].ppn * PAGE_SIZE + va % 4096)
    } else {
        None
    }
}

} // verus!
