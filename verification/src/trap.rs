//! The registers saved on a trap from user mode, and the frame that holds them.
use vstd::prelude::*;
use crate::config::PAGE_SIZE;
use crate::mm::frame::{PhysMemory, word_at};
use crate::mm::elf::frames_kept;
use crate::mm::address::lemma_page_of;

verus! {

/// The addresses and token of the kernel that the task code records for later traps
/// and switches.
#[derive(Clone, Copy, Debug)]
pub struct KernelLayout {
    /// the token of the kernel address space
    pub kernel_satp: u64,
    /// the address of the kernel's trap handler
    pub trap_handler: u64,
    /// the address of the routine that returns to user mode
    pub trap_return: u64,
}

/// The user registers saved on a trap, with what the trap entry needs to reach the kernel.
pub struct TrapContext {
    /// the general registers x0 .. x31
    pub x: Vec<u64>,
    /// the user program counter
    pub sepc: u64,
    /// the token of the kernel address space
    pub kernel_satp: u64,
    /// the top of the kernel stack of the task
    pub kernel_sp: u64,
    /// the address of the kernel's trap handler
    pub trap_handler: u64,
}

impl TrapContext {
    /// The context that enters user mode at `entry` with stack pointer `sp`: every
    /// general register zero but `x2` (the stack pointer).
    pub fn app_init_context(entry: u64, sp: u64, kernel_satp: u64, kernel_sp: u64, trap_handler: u64) -> (r: TrapContext)
        ensures
            r.x@.len() == 32,
            forall|i: int| 0 <= i < 32 && i != 2 ==> r.x@[i] == 0,
            r.x@[2] == sp,
            r.sepc == entry,
            r.kernel_satp == kernel_satp,
            r.kernel_sp == kernel_sp,
            r.trap_handler == trap_handler,
    {
        let mut x: Vec<u64> = Vec::new();
        let mut i: usize = 0;
        while i < 32
            invariant
                i <= 32,
                x@.len() == i,
                forall|j: int| 0 <= j < i ==> x@[j] == (if j == 2 { sp } else { 0u64 }),
            decreases 32 - i,
        {
            if i == 2 {
                x.push(sp);
            } else {
                x.push(0);
            }
            i = i + 1;
        }
        TrapContext { x, sepc: entry, kernel_satp, kernel_sp, trap_handler }
    }
}


/// Word `k` of the trap context that frame `ppn` of `mem` holds. The frame lays the context
/// out as the trap entry code reads it: the general registers `x0 .. x31` in words 0 to 31,
/// `sstatus` in word 32, then the user program counter, the kernel token, the kernel stack
/// top and the trap handler in words 33 to 36, each word little-endian.
pub open spec fn cx_word(mem: Seq<u8>, ppn: u64, k: int) -> u64 {
    word_at(mem, ppn * PAGE_SIZE + 8 * k)
}

/// The general registers saved in the trap context of frame `ppn` of `mem`.
pub open spec fn cx_regs(mem: Seq<u8>, ppn: u64) -> Seq<u64> {
    Seq::new(32, |i: int| cx_word(mem, ppn, i))
}

/// Frame `ppn` of `mem` holds the trap context `cx`.
pub open spec fn holds_trap_cx(mem: Seq<u8>, ppn: u64, cx: TrapContext) -> bool {
    &&& cx.x@ == cx_regs(mem, ppn)
    &&& cx.sepc == cx_word(mem, ppn, 33)
    &&& cx.kernel_satp == cx_word(mem, ppn, 34)
    &&& cx.kernel_sp == cx_word(mem, ppn, 35)
    &&& cx.trap_handler == cx_word(mem, ppn, 36)
}

/// A frame that keeps its bytes keeps the trap context it holds.
pub proof fn lemma_cx_kept(m0: Seq<u8>, m1: Seq<u8>, keep: Set<u64>, ppn: u64)
    requires
        frames_kept(m0, m1, keep),
        keep.contains(ppn),
        (ppn + 1) * PAGE_SIZE <= m0.len(),
    ensures
        forall|k: int| 0 <= k <= 36 ==> #[trigger] cx_word(m1, ppn, k) == cx_word(m0, ppn, k),
        cx_regs(m1, ppn) == cx_regs(m0, ppn),
{
    assert forall|j: int| ppn * PAGE_SIZE <= j < ppn * PAGE_SIZE + 296 implies #[trigger] m1[j] == m0[j] by {
        lemma_page_of(j, ppn as int);
    }
    assert forall|k: int| 0 <= k <= 36 implies #[trigger] cx_word(m1, ppn, k) == cx_word(m0, ppn, k) by {
        let a = ppn * PAGE_SIZE + 8 * k;
        assert(m1[a] == m0[a] && m1[a + 1] == m0[a + 1] && m1[a + 2] == m0[a + 2] && m1[a + 3] == m0[a + 3]);
        assert(m1[a + 4] == m0[a + 4] && m1[a + 5] == m0[a + 5] && m1[a + 6] == m0[a + 6] && m1[a + 7] == m0[a + 7]);
    }
    assert(cx_regs(m1, ppn) =~= cx_regs(m0, ppn));
}

/// The trap context that frame `ppn` holds.
pub fn read_trap_cx(phys: &PhysMemory, ppn: u64) -> (r: TrapContext)
    requires
        phys.wf(),
        ppn < phys.num_frames(),
    ensures
        holds_trap_cx(phys.mem(), ppn, r),
{
    proof {
        phys.lemma_mem_len();
        assert(ppn * 4096 + 4096 <= phys.num_frames() * 4096) by (nonlinear_arith)
            requires ppn < phys.num_frames();
    }
    let base = ppn * (PAGE_SIZE as u64);
    let mut x: Vec<u64> = Vec::new();
    let mut i: u64 = 0;
    while i < 32
        invariant
            phys.wf(),
            base == ppn * PAGE_SIZE,
            base + 4096 <= phys.mem().len(),
            i <= 32,
            x@ == cx_regs(phys.mem(), ppn).take(i as int),
        decreases 32 - i,
    {
        x.push(phys.read_word(base + 8 * i));
        i = i + 1;
        assert(x@ =~= cx_regs(phys.mem(), ppn).take(i as int));
    }
    assert(cx_regs(phys.mem(), ppn).take(32) =~= cx_regs(phys.mem(), ppn));
    TrapContext {
        x,
        sepc: phys.read_word(base + 8 * 33),
        kernel_satp: phys.read_word(base + 8 * 34),
        kernel_sp: phys.read_word(base + 8 * 35),
        trap_handler: phys.read_word(base + 8 * 36),
    }
}

/// Stores the trap context `cx` in frame `ppn`, leaving the `sstatus` word and every
/// other frame as they were.
pub fn write_trap_cx(phys: &mut PhysMemory, ppn: u64, cx: &TrapContext)
    requires
        old(phys).wf(),
        ppn < old(phys).num_frames(),
        cx.x@.len() == 32,
    ensures
        final(phys).wf(),
        holds_trap_cx(final(phys).mem(), ppn, *cx),
        cx_word(final(phys).mem(), ppn, 32) == cx_word(old(phys).mem(), ppn, 32),
        frames_kept(old(phys).mem(), final(phys).mem(), Set::new(|q: u64| q != ppn)),
        final(phys).used() == old(phys).used(),
        final(phys).num_frames() == old(phys).num_frames(),
        final(phys).free_count() == old(phys).free_count(),
{
    proof {
        phys.lemma_mem_len();
        assert(ppn * 4096 + 4096 <= phys.num_frames() * 4096) by (nonlinear_arith)
            requires ppn < phys.num_frames();
    }
    let ghost m0 = phys.mem();
    let base = ppn * (PAGE_SIZE as u64);
    let mut i: u64 = 0;
    while i < 32
        invariant
            phys.wf(),
            base == ppn * PAGE_SIZE,
            base + 4096 <= m0.len(),
            phys.mem().len() == m0.len(),
            cx.x@.len() == 32,
            i <= 32,
            phys.used() == old(phys).used(),
            phys.num_frames() == old(phys).num_frames(),
            phys.free_count() == old(phys).free_count(),
            forall|k: int| 0 <= k < i ==> #[trigger] cx_word(phys.mem(), ppn, k) == cx.x@[k],
            forall|j: int| 0 <= j < m0.len() && !(base <= j < base + 8 * i) ==> #[trigger] phys.mem()[j] == m0[j],
        decreases 32 - i,
    {
        let ghost m1 = phys.mem();
        phys.write_word(base + 8 * i, cx.x[i as usize]);
        assert forall|k: int| 0 <= k < i + 1 implies #[trigger] cx_word(phys.mem(), ppn, k) == cx.x@[k] by {
            if k < i {
                assert(cx_word(m1, ppn, k) == cx.x@[k]);
            }
        }
        i = i + 1;
    }
    let ghost m2 = phys.mem();
    phys.write_word(base + 8 * 33, cx.sepc);
    phys.write_word(base + 8 * 34, cx.kernel_satp);
    phys.write_word(base + 8 * 35, cx.kernel_sp);
    phys.write_word(base + 8 * 36, cx.trap_handler);
    proof {
        let m = phys.mem();
        assert forall|k: int| 0 <= k < 32 implies #[trigger] cx_word(m, ppn, k) == cx.x@[k] by {
            assert(cx_word(m2, ppn, k) == cx.x@[k]);
        }
        assert(cx.x@ =~= cx_regs(m, ppn));
        assert(cx_word(m, ppn, 32) == cx_word(m0, ppn, 32));
        assert forall|j: int| 0 <= j < m0.len() && Set::new(|q: u64| q != ppn).contains((j / (PAGE_SIZE as int)) as u64)
            implies #[trigger] m[j] == m0[j] by {
            if base <= j < base + 4096 {
                lemma_page_of(j, ppn as int);
            }
        }
    }
}

} // verus!
