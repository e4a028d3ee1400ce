//! Process-management system calls.
use vstd::prelude::*;
use crate::config::{MAX_SYSCALL_ID, PAGE_SIZE};
use crate::fs::stat::{le_bytes, push_le_bytes, lemma_le_bytes_len};
use crate::kernel::{Kernel, lemma_wf_keeps_fds};
use crate::mm::address::{VirtAddr, VA_LIMIT, page_of, page_ceil};
use crate::mm::frame::phys_written;
use crate::mm::memory_set::va_mapped;
use crate::mm::page_table::PageTableEntry;
use crate::mm::user_access::{user_written, write_user_bytes};
use crate::mm::page_table::{MapPermission, PTEFlags};
use crate::properties::{law_mmap_maps_requested_pages, law_sbrk_maps_user_heap, law_munmap_unmaps_covering_pages};
use crate::task::manager::{next_ready, other_ready, with_status, lemma_wf_same_used};
use crate::task::task::{TaskStatus, map_frame_result, unmap_frame_result, brk_result, brk_change_defined,
    mut_ref_target, ref_target};
use crate::task::{map_frame, unmap_frame, change_program_brk, get_mut_ref, get_ref, get_syscall_cnt,
    suspend_current_and_run_next, exit_current_and_run_next};

verus! {

/// A time: whole seconds and the microseconds past them.
#[derive(Clone, Copy, Debug, PartialEq, Eq)]
pub struct TimeVal {
    /// seconds
    pub sec: usize,
    /// microseconds
    pub usec: usize,
}

impl TimeVal {
    /// The bytes of this time as user memory holds it: two 8-byte fields.
    pub open spec fn spec_bytes(self) -> Seq<u8> {
        le_bytes(self.sec as nat, 8) + le_bytes(self.usec as nat, 8)
    }

    /// The bytes of this time as user memory holds it.
    pub fn to_bytes(&self) -> (r: Vec<u8>)
        ensures
            r@ == self.spec_bytes(),
    {
        let mut out: Vec<u8> = Vec::new();
        push_le_bytes(&mut out, self.sec as u64, 8);
        push_le_bytes(&mut out, self.usec as u64, 8);
        out
    }
}

/// The address that a user address `v` stands for: its low 39 bits.
pub open spec fn va_of(v: usize) -> u64 {
    (v as int % (VA_LIMIT as int)) as u64
}

/// The arguments of `mmap` are acceptable: the start is page-aligned and the permission
/// asks for some of read, write and execute, and nothing else.
pub open spec fn mmap_args_ok(start: usize, port: usize) -> bool {
    &&& va_of(start) % 4096 == 0
    &&& 0 < port <= 7
}

/// The first page past the area `start .. start + len` of `mmap`, the sum wrapping
/// around as machine arithmetic does.
pub open spec fn mmap_end_vpn(start: usize, len: usize) -> int {
    page_ceil(va_of(start.wrapping_add(len)) as int)
}

/// Gives up the processor: the running task is suspended and the task that round-robin
/// scheduling picks runs. Returns 0, with the pair of tasks to switch between.
pub fn sys_yield(k: &mut Kernel) -> (r: (isize, (usize, usize)))
    requires
        old(k).wf(),
    ensures
        final(k).wf(),
        r.0 == 0,
        ({
            let suspended = old(k).tm.tasks().update(old(k).tm.current(),
                with_status(old(k).cur(), TaskStatus::Ready));
            let n = next_ready(suspended, old(k).tm.current()).unwrap();
            &&& r.1 == (old(k).tm.inner.current_task, n as usize)
            &&& final(k).tm.inner.current_task == n
            &&& final(k).tm.tasks() == suspended.update(n, with_status(suspended[n], TaskStatus::Running))
        }),
        final(k).phys == old(k).phys,
        final(k).fs == old(k).fs,
        final(k).console == old(k).console,
{
    let ghost k0 = *k;
    let r = suspend_current_and_run_next(&mut k.tm, &k.phys);
    proof {
        lemma_wf_keeps_fds(k0, *k);
    }
    (0, r)
}

/// Ends the running task: it becomes a zombie, and the task that round-robin scheduling
/// picks, another one, runs. Returns the pair of tasks to switch between. Some other task
/// must be ready: when none is, every application has completed and the machine stops.
pub fn sys_exit(k: &mut Kernel, _exit_code: i32) -> (r: (usize, usize))
    requires
        old(k).wf(),
        other_ready(old(k).tm.tasks(), old(k).tm.current()),
    ensures
        final(k).wf(),
        ({
            let exited = old(k).tm.tasks().update(old(k).tm.current(),
                with_status(old(k).cur(), TaskStatus::Zombie));
            let n = next_ready(exited, old(k).tm.current()).unwrap();
            &&& next_ready(exited, old(k).tm.current()).is_some()
            &&& r == (old(k).tm.inner.current_task, n as usize)
            &&& n != old(k).tm.current()
            &&& final(k).tm.inner.current_task == n
            &&& final(k).tm.tasks() == exited.update(n, with_status(exited[n], TaskStatus::Running))
        }),
        final(k).phys == old(k).phys,
        final(k).fs == old(k).fs,
        final(k).console == old(k).console,
{
    let ghost k0 = *k;
    let r = exit_current_and_run_next(&mut k.tm, &k.phys);
    proof {
        lemma_wf_keeps_fds(k0, *k);
    }
    r
}

/// Every byte of the user area `va .. va + len` lies where the kernel may write: below
/// `2^38`, in pages mapped readable and writable.
pub open spec fn user_area_writable(pt: Map<u64, PageTableEntry>, va: int, len: int) -> bool {
    forall|k: int| 0 <= k < len ==> #[trigger] mut_ref_target(pt, (va + k) as u64).is_some()
}

/// Writes the time `us` microseconds, as a `TimeVal`, at user address `ts` of the running
/// task, each of its bytes through the page that holds it, so that a `TimeVal` split over
/// two pages is written to both. Returns 0, or -1, writing nothing, when some byte of it
/// lies where the kernel may not write.
pub fn sys_get_time(k: &mut Kernel, ts: usize, us: usize) -> (r: isize)
    requires
        old(k).wf(),
    ensures
        final(k).wf(),
        final(k).tm == old(k).tm,
        final(k).fs == old(k).fs,
        final(k).console == old(k).console,
        ({
            let pt = old(k).cur().inner.memory_set.pt();
            let bytes = TimeVal { sec: us / 1_000_000, usec: us % 1_000_000 }.spec_bytes();
            if user_area_writable(pt, va_of(ts) as int, 16) {
                &&& r == 0
                &&& user_written(pt, old(k).phys.mem(), final(k).phys.mem(), va_of(ts) as int, bytes)
                &&& final(k).phys.used() == old(k).phys.used()
                &&& final(k).phys.num_frames() == old(k).phys.num_frames()
                &&& final(k).phys.free_count() == old(k).phys.free_count()
            } else {
                r == -1 && final(k).phys == old(k).phys
            }
        }),
{
    let va = VirtAddr::from_usize(ts as u64);
    let ghost pt = k.cur().inner.memory_set.pt();
    proof {
        assert(va.0 == va_of(ts));
    }
    let last = VirtAddr(va.0 + 15);
    if get_mut_ref(&k.tm, &k.phys, va).is_none() {
        assert(mut_ref_target(pt, (va.0 + 0) as u64).is_none());
        return -1;
    }
    if get_mut_ref(&k.tm, &k.phys, last).is_none() {
        assert(mut_ref_target(pt, (va.0 + 15) as u64).is_none());
        return -1;
    }
    let cur = k.tm.inner.current_task;
    proof {
        let v = va.0 as int;
        assert forall|j: int| 0 <= j < 16 implies #[trigger] mut_ref_target(pt, (v + j) as u64).is_some()
            && va_mapped(pt, v + j) by {
            assert(page_of(v + j) == page_of(v) || page_of(v + j) == page_of(v + 15)) by (nonlinear_arith)
                requires 0 <= j < 16, v >= 0;
            assert(page_of(v) <= page_of(v + j)) by (nonlinear_arith) requires 0 <= j, v >= 0;
        }
        assert(k.cur().wf_in(&k.phys));
    }
    let tv = TimeVal { sec: us / 1_000_000, usec: us % 1_000_000 };
    let bytes = tv.to_bytes();
    proof {
        lemma_le_bytes_len(tv.sec as nat, 8);
        lemma_le_bytes_len(tv.usec as nat, 8);
        assert(mut_ref_target(pt, (va.0 + 15) as u64).is_some());
    }
    let ghost k0 = *k;
    write_user_bytes(&k.tm.inner.tasks[cur].inner.memory_set, &mut k.phys, va.0, bytes.as_slice());
    proof {
        lemma_wf_same_used(k.tm, &k0.phys, &k.phys);
        lemma_wf_keeps_fds(k0, *k);
    }
    0
}

/// Machine `k1` is what tracing request `req` with arguments `id` and `data` leaves of
/// machine `k0`, and `r` is what it returns.
pub open spec fn trace_result(k0: Kernel, k1: Kernel, req: usize, id: usize, data: usize, r: isize) -> bool {
    &&& k1.tm == k0.tm
    &&& k1.fs == k0.fs
    &&& k1.console == k0.console
    &&& k1.layout == k0.layout
    &&& req == 0 ==> k1.phys == k0.phys && match ref_target(k0.cur().inner.memory_set.pt(), id as u64) {
        Some(pa) => r == (k0.phys.mem()[pa] as i8) as isize,
        None => r == -1,
    }
    &&& req == 1 ==> match mut_ref_target(k0.cur().inner.memory_set.pt(), va_of(id)) {
        Some(pa) => r == 0 && k1.phys.mem() == k0.phys.mem().update(pa, (data % 256) as u8)
            && k1.phys.used() == k0.phys.used()
            && k1.phys.free_count() == k0.phys.free_count()
            && k1.phys.num_frames() == k0.phys.num_frames(),
        None => r == -1 && k1.phys == k0.phys,
    }
    &&& req == 2 ==> r == k0.tm.inner.syscall_cnt@[id as int] as isize && k1.phys == k0.phys
    &&& req > 2 ==> r == -1 && k1.phys == k0.phys
}

/// Traces the running task: request 0 reads the byte at user address `id`, as a signed
/// byte; request 1 writes the low byte of `data` at user address `id` and returns 0;
/// request 2 returns how many times system call `id` was made. Returns -1 for a read or
/// write the kernel may not make, and for any other request.
pub fn sys_trace(k: &mut Kernel, trace_request: usize, id: usize, data: usize) -> (r: isize)
    requires
        old(k).wf(),
        trace_request == 2 ==> id < MAX_SYSCALL_ID,
    ensures
        final(k).wf(),
        trace_result(*old(k), *final(k), trace_request, id, data, r),
{
    match trace_request {
        0 => {
            match get_ref(&k.tm, &k.phys, VirtAddr(id as u64)) {
                Some(pa) => {
                    let b = k.phys.read_byte(pa);
                    (b as i8) as isize
                },
                None => -1,
            }
        },
        1 => {
            let va = VirtAddr::from_usize(id as u64);
            match get_mut_ref(&k.tm, &k.phys, va) {
                Some(pa) => {
                    let ghost k0 = *k;
                    k.phys.write_byte(pa, (data % 256) as u8);
                    proof {
                        lemma_wf_same_used(k.tm, &k0.phys, &k.phys);
                        lemma_wf_keeps_fds(k0, *k);
                    }
                    0
                },
                None => -1,
            }
        },
        2 => get_syscall_cnt(&k.tm, id) as isize,
        _ => -1,
    }
}

/// Machine `k1` is what mapping `len` bytes from `start` with the rights of `port` leaves
/// of machine `k0`, and `r` is what it returns.
pub open spec fn mmap_result(k0: Kernel, k1: Kernel, start: usize, len: usize, port: usize, r: isize) -> bool {
    &&& k1.fs == k0.fs
    &&& k1.console == k0.console
    &&& k1.layout == k0.layout
    &&& k1.tm.num_app == k0.tm.num_app
    &&& k1.tm.inner.current_task == k0.tm.inner.current_task
    &&& k1.tm.inner.syscall_cnt == k0.tm.inner.syscall_cnt
    &&& !mmap_args_ok(start, port) ==> r == -1 && k1 == k0
    &&& mmap_args_ok(start, port) ==> {
        &&& k1.tm.tasks() == k0.tm.tasks().update(k0.tm.current(), k1.cur())
        &&& map_frame_result(k0.cur(), k1.cur(), k0.phys, k1.phys,
            VirtAddr(va_of(start)), VirtAddr((mmap_end_vpn(start, len) * PAGE_SIZE) as u64),
            MapPermission::spec_from_port(port), r == 0)
        &&& r == 0 || r == -1
    }
}

/// Machine `k1` is what unmapping `len` bytes from `start` leaves of machine `k0`, and `r`
/// is what it returns.
pub open spec fn munmap_result(k0: Kernel, k1: Kernel, start: usize, len: usize, r: isize) -> bool {
    &&& k1.fs == k0.fs
    &&& k1.console == k0.console
    &&& k1.layout == k0.layout
    &&& k1.tm.num_app == k0.tm.num_app
    &&& k1.tm.inner.current_task == k0.tm.inner.current_task
    &&& k1.tm.inner.syscall_cnt == k0.tm.inner.syscall_cnt
    &&& k1.tm.tasks() == k0.tm.tasks().update(k0.tm.current(), k1.cur())
    &&& unmap_frame_result(k0.cur(), k1.cur(), k0.phys, k1.phys,
        VirtAddr(va_of(start)), VirtAddr(va_of(start.wrapping_add(len))), r == 0)
    &&& r == 0 || r == -1
}

/// Maps `len` bytes from `start`, page by page, with the read, write and execute rights of
/// bits 0, 1 and 2 of `port`. Returns 0, or -1 when `start` is not page-aligned, when
/// `port` asks for no right or for an unknown one, or when the mapping fails.
pub fn sys_mmap(k: &mut Kernel, start: usize, len: usize, port: usize) -> (r: isize)
    requires
        old(k).wf(),
    ensures
        final(k).wf(),
        mmap_result(*old(k), *final(k), start, len, port, r),
        ({
            let s = page_of(va_of(start) as int);
            let e = mmap_end_vpn(start, len);
            let pt0 = old(k).cur().inner.memory_set.pt();
            let pt1 = final(k).cur().inner.memory_set.pt();
            &&& (va_of(start) % 4096 == 0 && 1 <= port <= 7 && s <= e
                && (forall|v: u64| s <= v < e ==> !#[trigger] pt0.contains_key(v))
                && old(k).phys.free_count() >= e - s) ==> r == 0
            &&& r == 0 ==> va_of(start) % 4096 == 0 && 1 <= port <= 7
            &&& r == 0 ==> forall|v: u64| s <= v < e ==> !pt0.contains_key(v) && #[trigger] pt1.contains_key(v)
                && pt1[v].flags == (PTEFlags {
                    v: true, r: port % 2 == 1, w: (port / 2) % 2 == 1, x: (port / 4) % 2 == 1, u: true })
        }),
{
    let vaddr_start = VirtAddr::from_usize(start as u64);
    let vpn_end = VirtAddr::from_usize(start.wrapping_add(len) as u64).ceil();
    proof {
        assert(port & !0x7usize != 0 <==> port > 7) by (bit_vector);
        assert(port & 0x7usize == 0 <==> port % 8 == 0) by (bit_vector);
        assert(vaddr_start.0 == va_of(start));
        assert(vpn_end.0 <= 0x800_0000);
    }
    if !vaddr_start.aligned() || port & !0x7 != 0 || port & 0x7 == 0 {
        proof {
            law_mmap_maps_requested_pages(*k, *k, start, len, port, -1isize);
        }
        -1
    } else {
        let perm = MapPermission::from_port(port);
        let ghost k0 = *k;
        let end = vpn_end.to_addr();
        proof {
            assert(page_ceil(end.0 as int) == vpn_end.0) by (nonlinear_arith)
                requires end.0 == vpn_end.0 * 4096;
        }
        let ok = map_frame(&mut k.tm, &mut k.phys, vaddr_start, end, perm);
        proof {
            lemma_wf_keeps_fds(k0, *k);
            law_mmap_maps_requested_pages(k0, *k, start, len, port, if ok { 0isize } else { -1isize });
        }
        if ok { 0 } else { -1 }
    }
}

/// Unmaps `len` bytes from `start`, page by page. Returns 0, or -1 when some page of the
/// area is not mapped.
pub fn sys_munmap(k: &mut Kernel, start: usize, len: usize) -> (r: isize)
    requires
        old(k).wf(),
    ensures
        final(k).wf(),
        munmap_result(*old(k), *final(k), start, len, r),
        ({
            let s = page_of(va_of(start) as int);
            let e = page_ceil(va_of(start.wrapping_add(len)) as int);
            let pt0 = old(k).cur().inner.memory_set.pt();
            let pt1 = final(k).cur().inner.memory_set.pt();
            &&& (r == 0) == (s <= e && forall|v: u64| s <= v < e ==> #[trigger] pt0.contains_key(v))
            &&& r == 0 ==> forall|v: u64| #[trigger] pt1.contains_key(v) == (pt0.contains_key(v) && !(s <= v < e))
        }),
{
    let ghost k0 = *k;
    let ok = unmap_frame(&mut k.tm, &mut k.phys, VirtAddr::from_usize(start as u64),
        VirtAddr::from_usize(start.wrapping_add(len) as u64));
    proof {
        lemma_wf_keeps_fds(k0, *k);
        law_munmap_unmaps_covering_pages(k0, *k, start, len, if ok { 0isize } else { -1isize });
    }
    if ok { 0 } else { -1 }
}

/// Moves the running task's program break by `size` bytes. Returns the old break, or -1
/// when the break cannot move.
pub fn sys_sbrk(k: &mut Kernel, size: i32) -> (r: isize)
    requires
        old(k).wf(),
        brk_change_defined(old(k).cur().inner, old(k).phys.free_count(), size),
    ensures
        final(k).wf(),
        final(k).fs == old(k).fs,
        final(k).console == old(k).console,
        final(k).tm.num_app == old(k).tm.num_app,
        final(k).tm.inner.current_task == old(k).tm.inner.current_task,
        final(k).tm.inner.syscall_cnt == old(k).tm.inner.syscall_cnt,
        final(k).tm.tasks() == old(k).tm.tasks().update(old(k).tm.current(), final(k).cur()),
        exists|res: Option<u64>| brk_result(old(k).cur(), final(k).cur(), old(k).phys, final(k).phys, size, res)
            && r == match res { Some(b) => b as isize, None => -1isize },
        size >= 0 && r != -1 ==> forall|v: u64| old(k).cur().inner.memory_set.heap_end_vpn() <= v
            < page_ceil(old(k).cur().inner.program_brk + size) ==>
            #[trigger] final(k).cur().inner.memory_set.pt().contains_key(v)
            && final(k).cur().inner.memory_set.pt()[v].flags == (PTEFlags {
                v: true, r: true, w: true, x: false, u: true }),
{
    let ghost k0 = *k;
    let res = change_program_brk(&mut k.tm, &mut k.phys, size);
    proof {
        lemma_wf_keeps_fds(k0, *k);
        if size >= 0 && res.is_some() {
            law_sbrk_maps_user_heap(k0.cur(), k.cur(), k0.phys, k.phys, size, res);
        }
    }
    match res {
        Some(old_brk) => {
            proof {
                assert(old_brk <= 0x80_0000_0000);
            }
            old_brk as isize
        },
        None => -1,
    }
}

} // verus!
