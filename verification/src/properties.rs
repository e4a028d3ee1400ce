//! Properties of the kernel that relate several operations.
use vstd::prelude::*;
use crate::config::PAGE_SIZE;
use crate::kernel::Kernel;
use crate::mm::address::{VirtAddr, page_of, page_ceil};
use crate::mm::frame::PhysMemory;
use crate::mm::memory_set::{map_frame_ok, unmap_frame_ok, range_added, range_removed, frames_in, range_unmapped};
use crate::mm::page_table::MapPermission;
use crate::mm::memory_set::{va_mapped, va_to_pa, user_byte, frames_of};
use crate::mm::user_access::lemma_va_to_pa_in_range;
use crate::mm::elf::lemma_va_to_pa_frame;
use crate::task::task::{TaskControlBlock, TaskControlBlockInner, map_frame_result, unmap_frame_result, brk_result,
    mut_ref_target, ref_target};
use crate::task::stride::{stride_order_of, stride_diff, wrap_u8, lemma_wrap_u8};
use crate::syscall::process::{trace_result, va_of, mmap_result, munmap_result, mmap_end_vpn};
use crate::syscall::fs::{linkat_result, unlinkat_result, close_result, only_fds_changed, stat_of};
use crate::fs::file::File;
use crate::config::BIG_STRIDE;
use crate::fs::inode::{find_index, link_count, written_at, read_from};
use crate::task::manager::{next_ready, ready_at, first_ready_from, lemma_first_ready_from};
use crate::task::task::{TaskStatus, counted};
use crate::task::manager::TaskManager;
use crate::fs::file::{OpenFlags, open_target};
use crate::syscall::fs::fd_entry;
use core::cmp::Ordering;

verus! {

/// After mapping an area succeeds, unmapping the same area succeeds, and it gives back
/// the page table and the frames in use that there were before the mapping; the rest of
/// the task is as it was.
pub proof fn law_map_then_unmap(
    t0: TaskControlBlock, t1: TaskControlBlock, t2: TaskControlBlock,
    p0: PhysMemory, p1: PhysMemory, p2: PhysMemory,
    va: VirtAddr, ve: VirtAddr, perm: MapPermission, r2: bool,
)
    requires
        map_frame_result(t0, t1, p0, p1, va, ve, perm, true),
        unmap_frame_result(t1, t2, p1, p2, va, ve, r2),
    ensures
        r2,
        t2.inner.memory_set.pt() == t0.inner.memory_set.pt(),
        p2.used() == p0.used(),
        t2.inner == (TaskControlBlockInner { memory_set: t2.inner.memory_set, ..t0.inner }),
        t2.pid == t0.pid,
{
    let s = page_of(va.0 as int);
    let e = page_ceil(ve.0 as int);
    let pt0 = t0.inner.memory_set.pt();
    let pt1 = t1.inner.memory_set.pt();
    let pt2 = t2.inner.memory_set.pt();
    assert(unmap_frame_ok(pt1, s, e));
    assert(pt2 =~= pt0) by {
        assert forall|v: u64| #[trigger] pt2.contains_key(v) == pt0.contains_key(v) by {
            if s <= v < e {
                assert(!pt0.contains_key(v));
            }
        }
        assert forall|v: u64| pt2.contains_key(v) implies #[trigger] pt2[v] == pt0[v] by {
            assert(pt1[v] == pt0[v]);
        }
    }
    let f = frames_in(pt1, s, e);
    assert(p2.used() =~= p0.used()) by {
        assert forall|q: u64| p2.used().contains(q) == p0.used().contains(q) by {
            if f.contains(q) {
                let v = choose|v: u64| s <= v < e && pt1.contains_key(v) && #[trigger] pt1[v].ppn == q;
                assert(!p0.used().contains(pt1[v].ppn));
            }
        }
    }
}

/// Once an area is mapped, mapping any area that shares a page with it fails.
pub proof fn law_map_overlap_fails(
    t0: TaskControlBlock, t1: TaskControlBlock, p0: PhysMemory, p1: PhysMemory,
    va: VirtAddr, ve: VirtAddr, perm: MapPermission, free: nat, s2: int, e2: int, v: int,
)
    requires
        map_frame_result(t0, t1, p0, p1, va, ve, perm, true),
        page_of(va.0 as int) <= v < page_ceil(ve.0 as int),
        s2 <= v < e2,
    ensures
        !map_frame_ok(t1.inner.memory_set.pt(), free, s2, e2),
{
    assert(t1.inner.memory_set.pt().contains_key(v as u64));
}

/// A byte that tracing writes at a user address below `2^38` is the byte that tracing
/// then reads there, as a signed byte.
pub proof fn law_trace_read_after_write(k0: Kernel, k1: Kernel, k2: Kernel, id: usize, data: usize, other: usize, r2: isize)
    requires
        k0.wf(),
        trace_result(k0, k1, 1, id, data, 0),
        trace_result(k1, k2, 0, id, other, r2),
        id < 0x40_0000_0000int,
    ensures
        r2 == (((data % 256) as u8) as i8) as isize,
{
    let pt = k0.cur().inner.memory_set.pt();
    assert(va_of(id) == id as u64);
    let pa = mut_ref_target(pt, id as u64).unwrap();
    let key = page_of(id as int) as u64;
    assert(((id as u64 / 4096) % crate::mm::address::VPN_LIMIT) as u64 == key);
    assert(k0.cur().wf_in(&k0.phys));
    lemma_va_to_pa_in_range(&k0.cur().inner.memory_set, &k0.phys, id as int);
    assert(ref_target(pt, id as u64) == Some(pa));
}

/// Tracing writes only memory of the running task: what another task reads at any of its
/// mapped addresses is unchanged.
pub proof fn law_trace_write_isolated(k0: Kernel, k1: Kernel, id: usize, data: usize, j: int, va: int)
    requires
        k0.wf(),
        trace_result(k0, k1, 1, id, data, 0),
        0 <= j < k0.tm.num_app,
        j != k0.tm.current(),
        va_mapped(k0.tm.tasks()[j].inner.memory_set.pt(), va),
    ensures
        user_byte(k0.tm.tasks()[j].inner.memory_set.pt(), k1.phys.mem(), va)
            == user_byte(k0.tm.tasks()[j].inner.memory_set.pt(), k0.phys.mem(), va),
{
    let c = k0.tm.current();
    let tc = k0.tm.tasks()[c];
    let tj = k0.tm.tasks()[j];
    let ptc = tc.inner.memory_set.pt();
    let ptj = tj.inner.memory_set.pt();
    let w = va_of(id) as int;
    let pa = mut_ref_target(ptc, w as u64).unwrap();
    assert(tc.wf_in(&k0.phys));
    assert(tj.wf_in(&k0.phys));
    lemma_va_to_pa_frame(ptc, w);
    lemma_va_to_pa_frame(ptj, va);
    let qc = ptc[page_of(w) as u64].ppn;
    let qj = ptj[page_of(va) as u64].ppn;
    assert(frames_of(ptc).contains(qc));
    assert(frames_of(ptj).contains(qj));
    assert(tc.inner.memory_set.owned().contains(qc));
    assert(tj.inner.memory_set.owned().contains(qj));
    assert(tc.inner.memory_set.owned().disjoint(tj.inner.memory_set.owned()));
    assert(qc != qj);
    let paj = va_to_pa(ptj, va);
    assert(pa == va_to_pa(ptc, w));
    assert(pa != paj);
    lemma_va_to_pa_in_range(&tj.inner.memory_set, &k0.phys, va);
    lemma_va_to_pa_in_range(&tc.inner.memory_set, &k0.phys, w);
    assert(k1.phys.mem() == k0.phys.mem().update(pa, (data % 256) as u8));
    assert(k1.phys.mem()[paj] == k0.phys.mem()[paj]);
}

/// Growing the break by `size` bytes and then shrinking it by as many gives back the
/// break, the page table and the frames in use, when the heap area ended at the page
/// boundary of the break to begin with; the shrink returns the grown break.
pub proof fn law_brk_grow_then_shrink(
    t0: TaskControlBlock, t1: TaskControlBlock, t2: TaskControlBlock,
    p0: PhysMemory, p1: PhysMemory, p2: PhysMemory,
    size: i32, r1: Option<u64>, r2: Option<u64>,
)
    requires
        size > 0,
        t0.inner.wf(),
        t0.inner.memory_set.heap_end_vpn() == page_ceil(t0.inner.program_brk as int),
        brk_result(t0, t1, p0, p1, size, r1),
        r1.is_some(),
        brk_result(t1, t2, p1, p2, -size as i32, r2),
    ensures
        r2 == Some((t0.inner.program_brk + size) as u64),
        t2.inner.program_brk == t0.inner.program_brk,
        t2.inner.memory_set.pt() == t0.inner.memory_set.pt(),
        t2.inner.memory_set.heap_end_vpn() == t0.inner.memory_set.heap_end_vpn(),
        p2.used() == p0.used(),
{
    let b0 = t0.inner.program_brk as int;
    let nb = b0 + size;
    let s = page_ceil(b0);
    let e = page_ceil(nb);
    let pt0 = t0.inner.memory_set.pt();
    let pt1 = t1.inner.memory_set.pt();
    let pt2 = t2.inner.memory_set.pt();
    assert(t1.inner.program_brk == nb);
    assert(r2.is_some());
    assert(pt2 =~= pt0) by {
        assert forall|v: u64| #[trigger] pt2.contains_key(v) == pt0.contains_key(v) by {
            if s <= v < e {
                assert(!pt0.contains_key(v));
            }
        }
        assert forall|v: u64| pt2.contains_key(v) implies #[trigger] pt2[v] == pt0[v] by {
            assert(pt1[v] == pt0[v]);
        }
    }
    let f = frames_in(pt1, s, e);
    assert(p2.used() =~= p0.used()) by {
        assert forall|q: u64| p2.used().contains(q) == p0.used().contains(q) by {
            if f.contains(q) {
                let v = choose|v: u64| s <= v < e && pt1.contains_key(v) && #[trigger] pt1[v].ppn == q;
                assert(!p0.used().contains(pt1[v].ppn));
            }
        }
    }
}

/// Round-robin scheduling picks, after task `cur`, the nearest ready task in the order
/// `cur + 1, cur + 2, ...`, wrapping around and ending with `cur` itself; it picks none
/// exactly when no task is ready.
pub proof fn law_round_robin(tasks: Seq<TaskControlBlock>, cur: int)
    requires
        0 <= cur < tasks.len(),
    ensures
        match next_ready(tasks, cur) {
            Some(n) => {
                let dist = if n > cur { n - cur } else { n - cur + tasks.len() };
                &&& 0 <= n < tasks.len()
                &&& tasks[n].inner.task_status == TaskStatus::Ready
                &&& forall|d: int| 1 <= d < dist ==>
                    (#[trigger] tasks[(cur + d) % (tasks.len() as int)]).inner.task_status != TaskStatus::Ready
            },
            None => forall|i: int| 0 <= i < tasks.len() ==> (#[trigger] tasks[i]).inner.task_status != TaskStatus::Ready,
        },
{
    let len = tasks.len() as int;
    lemma_first_ready_from(tasks, cur, 1);
    match first_ready_from(tasks, cur, 1) {
        Some(k) => {
            assert((cur + k) % len == if cur + k < len { cur + k } else { cur + k - len }) by (nonlinear_arith)
                requires 0 <= cur < len, 1 <= k <= len;
            assert forall|d: int| 1 <= d < k implies
                (#[trigger] tasks[(cur + d) % len]).inner.task_status != TaskStatus::Ready by {
                assert(!ready_at(tasks, cur, d));
            }
        },
        None => {
            assert forall|i: int| 0 <= i < len implies (#[trigger] tasks[i]).inner.task_status != TaskStatus::Ready by {
                let d = if i > cur { i - cur } else { i - cur + len };
                assert((cur + d) % len == i) by (nonlinear_arith)
                    requires 0 <= cur < len, 0 <= i < len, d == (if i > cur { i - cur } else { i - cur + len });
                assert(!ready_at(tasks, cur, d));
            }
        },
    }
}

/// Two strides compare in the order of the distances they stand for, as long as those
/// distances lie less than half of `BIG_STRIDE` apart: the stride scheduler's ordering
/// property.
pub proof fn law_stride_order_tracks_distance(x: nat, y: nat)
    requires
        x <= y + 126,
        y <= x + 126,
    ensures
        stride_order_of(wrap_u8(x), wrap_u8(y)) == (if x >= y { Ordering::Greater } else { Ordering::Less }),
{
    let a = wrap_u8(x);
    let b = wrap_u8(y);
    lemma_wrap_u8(x);
    lemma_wrap_u8(y);
    if x >= y {
        assert(stride_diff(a, b) == x - y) by (nonlinear_arith)
            requires a == x % 256, b == y % 256, x >= y, x - y <= 126;
    } else {
        assert(stride_diff(a, b) == 256 - (y - x)) by (nonlinear_arith)
            requires a == x % 256, b == y % 256, x < y, y - x <= 126;
    }
}

/// Comparing two strides the other way round gives the reverse order, unless their
/// difference is 0, 127, 128 or 129 modulo 256.
pub proof fn law_stride_order_antisymmetric(a: u8, b: u8)
    requires
        stride_diff(a, b) != 0,
        stride_diff(a, b) != 127,
        stride_diff(a, b) != 128,
        stride_diff(a, b) != 129,
    ensures
        stride_order_of(b, a) == match stride_order_of(a, b) {
            Ordering::Less => Ordering::Greater,
            Ordering::Equal => Ordering::Equal,
            Ordering::Greater => Ordering::Less,
        },
{
    assert(stride_diff(b, a) == 256 - stride_diff(a, b));
}

/// Reading from where bytes were written gives those bytes back.
pub proof fn law_read_after_write(data: Seq<u8>, offset: int, buf: Seq<u8>)
    requires
        offset >= 0,
    ensures
        read_from(written_at(data, offset, buf), offset, buf.len() as int) == buf,
{
    let w = written_at(data, offset, buf);
    if buf.len() > 0 {
        assert(read_from(w, offset, buf.len() as int) =~= buf);
    } else {
        assert(read_from(w, offset, 0) =~= buf);
    }
}

/// Linking a new name to a file adds one link to that file and none to any other.
pub proof fn law_link_adds_one(dir: Seq<(Seq<u8>, u32)>, n: Seq<u8>, id: u32, other: u32)
    ensures
        link_count(dir.push((n, id)), id) == link_count(dir, id) + 1,
        other != id ==> link_count(dir.push((n, id)), other) == link_count(dir, other),
{
    assert(dir.push((n, id)).drop_last() =~= dir);
}

/// Removing entry `i` takes one link from the file it named and none from any other.
pub proof fn law_unlink_removes_one(dir: Seq<(Seq<u8>, u32)>, i: int, other: u32)
    requires
        0 <= i < dir.len(),
    ensures
        link_count(dir.remove(i), dir[i].1) + 1 == link_count(dir, dir[i].1),
        other != dir[i].1 ==> link_count(dir.remove(i), other) == link_count(dir, other),
    decreases dir.len(),
{
    if i == dir.len() - 1 {
        assert(dir.remove(i) =~= dir.drop_last());
    } else {
        let d = dir.drop_last();
        law_unlink_removes_one(d, i, other);
        assert(dir.remove(i).drop_last() =~= d.remove(i));
        assert(dir.remove(i).last() == dir.last());
    }
}

/// Linking a new name and then removing that name gives back the directory, and the
/// file it named keeps its contents.
pub proof fn law_link_then_unlink(k0: Kernel, k1: Kernel, k2: Kernel, o: Seq<u8>, n: Seq<u8>, r2: isize)
    requires
        k0.fs.wf(),
        linkat_result(k0, k1, o, n, 0),
        unlinkat_result(k1, k2, n, r2),
    ensures
        r2 == 0,
        k2.fs.dir() == k0.fs.dir(),
        forall|j: u32| j < k0.fs.num_inodes() ==> #[trigger] k2.fs.data(j) == k0.fs.data(j),
{
    let dir = k0.fs.dir();
    let i = find_index(dir, o).unwrap();
    let id = dir[i].1;
    assert(find_index(dir, n).is_none());
    let d1 = dir.push((n, id));
    assert(k1.fs.dir() == d1);
    assert(d1[dir.len() as int].0 == n);
    let j = find_index(d1, n).unwrap();
    assert(j == dir.len()) by {
        if j < dir.len() {
            assert(d1[j] == dir[j]);
            assert(exists|x: int| 0 <= x < dir.len() && (#[trigger] dir[x]).0 == n);
        }
    }
    assert(d1.remove(j) =~= dir);
    law_link_adds_one(dir, n, id, id);
    assert(link_count(d1, id) >= 2) by {
        assert(dir[i].1 == id);
        law_unlink_removes_one(dir, i, id);
    }
}


/// After linking a new name to a file, the new name names that file, and the file's
/// status shows the same inode with one more link.
pub proof fn law_link_then_stat(k0: Kernel, k1: Kernel, o: Seq<u8>, n: Seq<u8>)
    requires
        k0.fs.wf(),
        linkat_result(k0, k1, o, n, 0),
    ensures
        ({
            let dir = k0.fs.dir();
            let id = dir[find_index(dir, o).unwrap()].1;
            &&& find_index(k1.fs.dir(), n) matches Some(j) && k1.fs.dir()[j].1 == id
            &&& link_count(k1.fs.dir(), id) == link_count(dir, id) + 1
            &&& stat_of(k1.fs, id).ino == stat_of(k0.fs, id).ino
            &&& stat_of(k1.fs, id).mode == stat_of(k0.fs, id).mode
            &&& stat_of(k1.fs, id).nlink == (link_count(dir, id) + 1) as u32
        }),
{
    let dir = k0.fs.dir();
    let i = find_index(dir, o).unwrap();
    let id = dir[i].1;
    let d1 = dir.push((n, id));
    assert(k1.fs.dir() == d1);
    assert(d1[dir.len() as int].0 == n);
    let j = find_index(d1, n).unwrap();
    assert(j == dir.len()) by {
        if j < dir.len() {
            assert(d1[j] == dir[j]);
            assert(exists|x: int| 0 <= x < dir.len() && (#[trigger] dir[x]).0 == n);
        }
    }
    law_link_adds_one(dir, n, id, id);
}

/// A higher priority, below 256, never gets a larger pass: the pass that `set_prio`
/// gives priority `p1` is at least the one it gives a priority `p2` at least as high.
pub proof fn law_priority_orders_pass(p1: isize, p2: isize)
    requires
        2 <= p1 <= p2 < 256,
    ensures
        BIG_STRIDE as int / (p1 as int % 256) >= BIG_STRIDE as int / (p2 as int % 256),
{
    assert(p1 as int % 256 == p1 && p2 as int % 256 == p2);
    assert(255int / (p1 as int) >= 255int / (p2 as int)) by (nonlinear_arith)
        requires 2 <= p1 <= p2;
}

/// Closing the descriptor that opening a file took gives back the running task's
/// descriptor table as it was, with that descriptor free: the table as open found it,
/// grown by one free slot when every descriptor was taken.
pub proof fn law_open_then_close(k0: Kernel, k1: Kernel, k2: Kernel, fd: usize, f: File, r2: isize)
    requires
        fd <= k0.cur().inner.fd_table@.len(),
        fd < k0.cur().inner.fd_table@.len() ==> k0.cur().inner.fd_table@[fd as int].is_none(),
        only_fds_changed(k0, k1, (if fd < k0.cur().inner.fd_table@.len() { k0.cur().inner.fd_table@ }
            else { k0.cur().inner.fd_table@.push(None) }).update(fd as int, Some(f))),
        close_result(k1, k2, fd, r2),
    ensures
        r2 == 0,
        k2.cur().inner.fd_table@ == (if fd < k0.cur().inner.fd_table@.len() { k0.cur().inner.fd_table@ }
            else { k0.cur().inner.fd_table@.push(None) }),
        k2.cur().inner.fd_table@[fd as int].is_none(),
{
    let t0 = k0.cur().inner.fd_table@;
    let t = if fd < t0.len() { t0 } else { t0.push(None) };
    assert(k1.cur().inner.fd_table@ == t.update(fd as int, Some(f)));
    assert(k1.cur().inner.fd_table@[fd as int] == Some(f));
    assert(k2.cur().inner.fd_table@ =~= t);
}


/// After `mmap` succeeds, `munmap` of the same start and length succeeds, and the running
/// task maps exactly the pages, with the frames in use, that there were before the `mmap`;
/// the rest of the machine but the physical bytes is as it was.
pub proof fn law_mmap_then_munmap(k0: Kernel, k1: Kernel, k2: Kernel, start: usize, len: usize, port: usize, r2: isize)
    requires
        k0.wf(),
        mmap_result(k0, k1, start, len, port, 0),
        munmap_result(k1, k2, start, len, r2),
    ensures
        r2 == 0,
        k2.cur().inner.memory_set.pt() == k0.cur().inner.memory_set.pt(),
        k2.phys.used() == k0.phys.used(),
        k2.tm.tasks() == k0.tm.tasks().update(k0.tm.current(), TaskControlBlock {
            inner: TaskControlBlockInner { memory_set: k2.cur().inner.memory_set, ..k0.cur().inner },
            ..k0.cur()
        }),
        k2.fs == k0.fs,
{
    let va = VirtAddr(va_of(start));
    let ve = VirtAddr((mmap_end_vpn(start, len) * PAGE_SIZE) as u64);
    let ve2 = VirtAddr(va_of(start.wrapping_add(len)));
    let e = mmap_end_vpn(start, len);
    assert(0 <= e <= 0x800_0000) by (nonlinear_arith)
        requires e == (va_of(start.wrapping_add(len)) + 4095) / 4096, va_of(start.wrapping_add(len)) < 0x80_0000_0000;
    assert(page_ceil(ve.0 as int) == e) by (nonlinear_arith)
        requires ve.0 == e * 4096, 0 <= e <= 0x800_0000;
    assert(page_ceil(ve2.0 as int) == e);
    assert(unmap_frame_result(k1.cur(), k2.cur(), k1.phys, k2.phys, va, ve, r2 == 0));
    law_map_then_unmap(k0.cur(), k1.cur(), k2.cur(), k0.phys, k1.phys, k2.phys, va, ve,
        MapPermission::spec_from_port(port), r2 == 0);
    assert(k2.cur() == TaskControlBlock {
        inner: TaskControlBlockInner { memory_set: k2.cur().inner.memory_set, ..k0.cur().inner },
        ..k0.cur()
    });
    assert(k2.tm.tasks() =~= k0.tm.tasks().update(k0.tm.current(), TaskControlBlock {
        inner: TaskControlBlockInner { memory_set: k2.cur().inner.memory_set, ..k0.cur().inner },
        ..k0.cur()
    }));
}


/// After linking a new name to the file named `o`, the status of that file, as `fstat`
/// writes it for any descriptor open on it, shows the same device, inode and kind with
/// one more link; and opening the new name opens that same inode.
pub proof fn law_fstat_after_link(k0: Kernel, k1: Kernel, o: Seq<u8>, n: Seq<u8>, flags: OpenFlags)
    requires
        k0.fs.wf(),
        linkat_result(k0, k1, o, n, 0),
    ensures
        ({
            let dir = k0.fs.dir();
            let id = dir[find_index(dir, o).unwrap()].1;
            &&& stat_of(k1.fs, id) == (crate::fs::stat::Stat {
                nlink: (link_count(dir, id) + 1) as u32, ..stat_of(k0.fs, id) })
            &&& open_target(k1.fs, n, flags) == Some(id)
        }),
{
    law_link_then_stat(k0, k1, o, n);
}

/// Moving the break, whatever the outcome, keeps the bottom of the heap, and the break
/// stays at or above it.
pub proof fn law_brk_keeps_heap_bottom(
    t0: TaskControlBlock, t1: TaskControlBlock, p0: PhysMemory, p1: PhysMemory, size: i32, r: Option<u64>,
)
    requires
        t0.inner.wf(),
        brk_result(t0, t1, p0, p1, size, r),
    ensures
        t1.inner.heap_bottom == t0.inner.heap_bottom,
        t1.inner.heap_bottom <= t1.inner.program_brk,
{
}

/// Growing the break by `size` bytes and then shrinking it by as many returns the grown
/// break and gives back the break, whatever the heap area looked like.
pub proof fn law_brk_grow_then_shrink_returns(
    t0: TaskControlBlock, t1: TaskControlBlock, t2: TaskControlBlock,
    p0: PhysMemory, p1: PhysMemory, p2: PhysMemory,
    size: i32, r1: Option<u64>, r2: Option<u64>,
)
    requires
        size > 0,
        t0.inner.wf(),
        brk_result(t0, t1, p0, p1, size, r1),
        r1.is_some(),
        brk_result(t1, t2, p1, p2, -size as i32, r2),
    ensures
        r1 == Some(t0.inner.program_brk),
        r2 == Some((t0.inner.program_brk + size) as u64),
        t2.inner.program_brk == t0.inner.program_brk,
        t2.inner.heap_bottom == t0.inner.heap_bottom,
{
    assert(t1.inner.program_brk == t0.inner.program_brk + size);
}

/// Closing a descriptor that closing freed fails.
pub proof fn law_close_twice_fails(k0: Kernel, k1: Kernel, k2: Kernel, fd: usize, r2: isize)
    requires
        close_result(k0, k1, fd, 0),
        close_result(k1, k2, fd, r2),
    ensures
        r2 == -1,
        k2 == k1,
{
    assert(fd_entry(k0, fd).is_some());
    assert(k1.cur().inner.fd_table@ == k0.cur().inner.fd_table@.update(fd as int, None));
    assert(fd_entry(k1, fd).is_none());
}

/// Unmapping a nonempty area a second time fails, and changes nothing.
pub proof fn law_unmap_twice_fails(
    t0: TaskControlBlock, t1: TaskControlBlock, t2: TaskControlBlock,
    p0: PhysMemory, p1: PhysMemory, p2: PhysMemory, va: VirtAddr, ve: VirtAddr, r2: bool,
)
    requires
        page_of(va.0 as int) < page_ceil(ve.0 as int),
        unmap_frame_result(t0, t1, p0, p1, va, ve, true),
        unmap_frame_result(t1, t2, p1, p2, va, ve, r2),
    ensures
        !r2,
        t2 == t1,
        p2 == p1,
{
    let s = page_of(va.0 as int);
    assert(!t1.inner.memory_set.pt().contains_key(s as u64));
}

/// After `mmap` and `munmap` of the same nonempty area inside the Sv39 space, a second
/// `munmap` of it fails and changes nothing.
pub proof fn law_munmap_twice_fails(
    k0: Kernel, k1: Kernel, k2: Kernel, k3: Kernel, start: usize, len: usize, port: usize, r3: isize,
)
    requires
        k0.wf(),
        len > 0,
        start + len < crate::mm::address::VA_LIMIT,
        start + len <= usize::MAX,
        mmap_result(k0, k1, start, len, port, 0),
        munmap_result(k1, k2, start, len, 0),
        munmap_result(k2, k3, start, len, r3),
    ensures
        r3 == -1,
        k3.phys == k2.phys,
        k3.tm.tasks() == k2.tm.tasks(),
{
    let va = VirtAddr(va_of(start));
    let ve = VirtAddr(va_of(start.wrapping_add(len)));
    assert(start.wrapping_add(len) == start + len);
    assert(start as int % (crate::mm::address::VA_LIMIT as int) == start);
    assert((start + len) % (crate::mm::address::VA_LIMIT as int) == start + len);
    assert(va.0 == start && ve.0 == start + len);
    assert(page_of(va.0 as int) < page_ceil(ve.0 as int)) by (nonlinear_arith)
        requires va.0 < ve.0;
    law_unmap_twice_fails(k1.cur(), k2.cur(), k3.cur(), k1.phys, k2.phys, k3.phys, va, ve, r3 == 0);
    assert(k3.tm.tasks() =~= k2.tm.tasks());
}

/// The number of times `id` occurs in `ids`.
pub open spec fn occurrences(ids: Seq<usize>, id: usize) -> nat
    decreases ids.len(),
{
    if ids.len() == 0 {
        0
    } else {
        occurrences(ids.drop_last(), id) + (if ids.last() == id { 1nat } else { 0nat })
    }
}

/// The counts that counting the calls `ids`, in order, leaves of counts `cnt`.
pub open spec fn count_all(cnt: Seq<usize>, ids: Seq<usize>) -> Seq<usize>
    decreases ids.len(),
{
    if ids.len() == 0 {
        cnt
    } else {
        counted(count_all(cnt, ids.drop_last()), ids.last() as int)
    }
}

/// After the counters are cleared, counting calls leaves, for each call number, the
/// number of calls made with it, as long as that fits in a counter.
pub proof fn law_count_after_clear(ids: Seq<usize>, id: usize)
    requires
        id < crate::config::MAX_SYSCALL_ID,
        forall|i: int| 0 <= i < ids.len() ==> #[trigger] ids[i] < crate::config::MAX_SYSCALL_ID,
        ids.len() < usize::MAX,
    ensures
        count_all(Seq::new(crate::config::MAX_SYSCALL_ID as nat, |i: int| 0usize), ids).len()
            == crate::config::MAX_SYSCALL_ID,
        count_all(Seq::new(crate::config::MAX_SYSCALL_ID as nat, |i: int| 0usize), ids)[id as int]
            == occurrences(ids, id),
    decreases ids.len(),
{
    let z = Seq::new(crate::config::MAX_SYSCALL_ID as nat, |i: int| 0usize);
    if ids.len() > 0 {
        let init = ids.drop_last();
        assert forall|i: int| 0 <= i < init.len() implies #[trigger] init[i] < crate::config::MAX_SYSCALL_ID by {
            assert(init[i] == ids[i]);
        }
        law_count_after_clear(init, id);
        law_count_after_clear(init, ids.last());
        lemma_occurrences_bound(init, id);
        lemma_occurrences_bound(init, ids.last());
    }
}

/// An identifier occurs at most as often as there are entries.
proof fn lemma_occurrences_bound(ids: Seq<usize>, id: usize)
    ensures
        occurrences(ids, id) <= ids.len(),
    decreases ids.len(),
{
    if ids.len() > 0 {
        lemma_occurrences_bound(ids.drop_last(), id);
    }
}

/// The tasks of a consistent manager have distinct process identifiers: task `i` has
/// identifier `i`.
pub proof fn law_pids_distinct(tm: TaskManager, phys: &PhysMemory, i: int, j: int)
    requires
        tm.wf_in(phys),
        0 <= i < tm.num_app,
        0 <= j < tm.num_app,
        i != j,
    ensures
        tm.tasks()[i].pid != tm.tasks()[j].pid,
        tm.tasks()[i].pid.0 == i,
{
}


/// `mmap` of a page-aligned start with rights `port` between 1 and 7 succeeds whenever
/// the pages of the area are unmapped and enough frames are free, and a success maps
/// each page of the area readable as bit 0, writable as bit 1 and executable as bit 2 of
/// `port` say, reachable from user mode; it succeeds on no other start or rights.
pub proof fn law_mmap_maps_requested_pages(k0: Kernel, k1: Kernel, start: usize, len: usize, port: usize, r: isize)
    requires
        k0.wf(),
        mmap_result(k0, k1, start, len, port, r),
    ensures
        ({
            let s = page_of(va_of(start) as int);
            let e = mmap_end_vpn(start, len);
            let pt0 = k0.cur().inner.memory_set.pt();
            let pt1 = k1.cur().inner.memory_set.pt();
            &&& (va_of(start) % 4096 == 0 && 1 <= port <= 7 && s <= e
                && (forall|v: u64| s <= v < e ==> !#[trigger] pt0.contains_key(v))
                && k0.phys.free_count() >= e - s) ==> r == 0
            &&& r == 0 ==> va_of(start) % 4096 == 0 && 1 <= port <= 7
            &&& r == 0 ==> forall|v: u64| s <= v < e ==> !pt0.contains_key(v) && #[trigger] pt1.contains_key(v)
                && pt1[v].flags == (crate::mm::page_table::PTEFlags {
                    v: true, r: port % 2 == 1, w: (port / 2) % 2 == 1, x: (port / 4) % 2 == 1, u: true })
            &&& r == 0 || r == -1
        }),
{
    let e = mmap_end_vpn(start, len);
    let ve = VirtAddr((e * PAGE_SIZE) as u64);
    assert(0 <= e <= 0x800_0000) by (nonlinear_arith)
        requires e == (va_of(start.wrapping_add(len)) + 4095) / 4096, va_of(start.wrapping_add(len)) < 0x80_0000_0000;
    assert(page_ceil(ve.0 as int) == e) by (nonlinear_arith)
        requires ve.0 == e * 4096, 0 <= e <= 0x800_0000;
}


/// Growing the break maps every new heap page, from the heap's old end up to the page
/// boundary at or above the new break, readable, writable, not executable and reachable
/// from user mode.
pub proof fn law_sbrk_maps_user_heap(
    t0: TaskControlBlock, t1: TaskControlBlock, p0: PhysMemory, p1: PhysMemory, size: i32, r: Option<u64>,
)
    requires
        size >= 0,
        brk_result(t0, t1, p0, p1, size, r),
        r.is_some(),
    ensures
        forall|v: u64| t0.inner.memory_set.heap_end_vpn() <= v < page_ceil(t0.inner.program_brk + size) ==>
            #[trigger] t1.inner.memory_set.pt().contains_key(v)
            && t1.inner.memory_set.pt()[v].flags == (crate::mm::page_table::PTEFlags {
                v: true, r: true, w: true, x: false, u: true }),
{
}


/// `munmap` succeeds exactly when every page from the one holding the start up to the
/// first page boundary at or above the end is mapped, whatever the start's offset in its
/// page; a success unmaps exactly those pages and a failure changes nothing.
pub proof fn law_munmap_unmaps_covering_pages(k0: Kernel, k1: Kernel, start: usize, len: usize, r: isize)
    requires
        k0.wf(),
        munmap_result(k0, k1, start, len, r),
    ensures
        ({
            let s = page_of(va_of(start) as int);
            let e = page_ceil(va_of(start.wrapping_add(len)) as int);
            let pt0 = k0.cur().inner.memory_set.pt();
            let pt1 = k1.cur().inner.memory_set.pt();
            &&& (r == 0) == (s <= e && forall|v: u64| s <= v < e ==> #[trigger] pt0.contains_key(v))
            &&& r == 0 || r == -1
            &&& r == 0 ==> forall|v: u64| #[trigger] pt1.contains_key(v) == (pt0.contains_key(v) && !(s <= v < e))
            &&& r == -1 ==> k1.phys == k0.phys && k1.tm.tasks() == k0.tm.tasks()
        }),
{
    assert(r == -1 ==> k1.tm.tasks() =~= k0.tm.tasks());
}


/// A write never shortens a file nor changes its bytes outside the written range: after
/// writing `buf` at `offset` into contents `data`, the size is the larger of the old size
/// and `offset + buf.len()`, the written range holds `buf`, every other old byte is kept,
/// and a gap between the old end and `offset` reads as zeros.
pub proof fn law_write_keeps_rest(data: Seq<u8>, offset: int, buf: Seq<u8>)
    requires
        offset >= 0,
    ensures
        ({
            let d1 = written_at(data, offset, buf);
            &&& d1.len() == (if offset + buf.len() > data.len() { offset + buf.len() } else { data.len() as int })
            &&& d1.len() >= data.len()
            &&& forall|i: int| 0 <= i < buf.len() ==> #[trigger] d1[offset + i] == buf[i]
            &&& forall|i: int| 0 <= i < data.len() && !(offset <= i < offset + buf.len()) ==> #[trigger] d1[i] == data[i]
            &&& forall|i: int| data.len() <= i < offset ==> #[trigger] d1[i] == 0
        }),
{
}

} // verus!
