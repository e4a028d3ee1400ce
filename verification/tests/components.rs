use core::cmp::Ordering;
use rcore_task::fs::file::{open_file, OpenFlags};
use rcore_task::fs::inode::{bytes_eq, FileSystem};
use rcore_task::fs::stat::{Stat, StatMode};
use rcore_task::mm::address::{VirtAddr, VirtPageNum};
use rcore_task::mm::elf::{frames_for, image_is_loadable, AppImage, ProgramSegment};
use rcore_task::mm::frame::PhysMemory;
use rcore_task::mm::memory_set::MemorySet;
use rcore_task::mm::page_table::{MapPermission, PTEFlags};
use rcore_task::mm::user_access::{read_user_bytes, translated_str, user_c_str, user_range_is_mapped, write_user_bytes};
use rcore_task::task::manager::{total_frames_for, TaskManager};
use rcore_task::task::pid::{KernelStack, PidAllocator};
use rcore_task::task::stride::{stride_order, Stride};
use rcore_task::task::task::{TaskControlBlock, TaskStatus};
use rcore_task::trap::KernelLayout;

fn image(data: &[u8]) -> AppImage {
    let seg = ProgramSegment {
        start_va: 0x1000,
        mem_size: 0x1000,
        perm: MapPermission { r: true, w: false, x: true, u: true },
        data: data.to_vec(),
    };
    AppImage { segments: vec![seg], entry_point: 0x1004 }
}

fn layout() -> KernelLayout {
    KernelLayout { kernel_satp: 1, trap_handler: 2, trap_return: 3 }
}

#[test]
fn virtual_addresses_keep_39_bits() {
    assert_eq!(VirtAddr::from_usize(0xffff_ff80_0000_1234).0, 0x1234);
    let va = VirtAddr::from_usize(0x1234);
    assert_eq!(va.floor().0, 1);
    assert_eq!(va.ceil().0, 2);
    assert_eq!(va.page_offset(), 0x234);
    assert!(!va.aligned());
    assert!(VirtAddr(0x3000).aligned());
    assert_eq!(VirtAddr(0x3000).ceil().0, 3);
    assert_eq!(VirtAddr(0).ceil().0, 0);
    assert_eq!(VirtPageNum(5).to_addr().0, 0x5000);
}

#[test]
fn frames_are_handed_out_once_and_recycled() {
    let mut phys = PhysMemory::new(3);
    assert_eq!(phys.free_frames(), 3);
    let a = phys.frame_alloc().unwrap();
    let b = phys.frame_alloc().unwrap();
    let c = phys.frame_alloc().unwrap();
    assert!(a != b && b != c && a != c);
    assert!(a < 3 && b < 3 && c < 3);
    assert_eq!(phys.frame_alloc(), None);
    assert_eq!(phys.free_frames(), 0);
    phys.frame_dealloc(b);
    assert_eq!(phys.free_frames(), 1);
    assert_eq!(phys.frame_alloc(), Some(b));
}

#[test]
fn physical_bytes_read_back() {
    let mut phys = PhysMemory::new(2);
    phys.write_byte(0x1005, 7);
    assert_eq!(phys.read_byte(0x1005), 7);
    assert_eq!(phys.read_byte(0x1004), 0);
    phys.write_bytes(0x1ffe, &[1, 2, 3, 4]);
    assert_eq!(phys.read_byte(0x1ffe), 1);
    assert_eq!(phys.read_byte(0x1fff), 2);
}

#[test]
fn memory_set_maps_and_unmaps_pages() {
    let mut phys = PhysMemory::new(8);
    let mut ms = MemorySet::new_bare(&mut phys).unwrap();
    assert_eq!(phys.free_frames(), 7);
    let perm = MapPermission { r: true, w: true, x: false, u: true };
    assert!(ms.map_frame(&mut phys, VirtAddr(0x2000), VirtAddr(0x4001), perm));
    assert_eq!(phys.free_frames(), 4);
    let pte = ms.translate(VirtPageNum(3)).unwrap();
    assert_eq!(pte.flags, PTEFlags { v: true, r: true, w: true, x: false, u: true });
    assert_eq!(ms.translate(VirtPageNum(5)), None);
    assert!(!ms.map_frame(&mut phys, VirtAddr(0x4000), VirtAddr(0x6000), perm));
    assert!(!ms.map_frame(&mut phys, VirtAddr(0x10000), VirtAddr(0x15000), perm));
    assert_eq!(phys.free_frames(), 4);
    assert!(ms.unmap_frame(&mut phys, VirtAddr(0x3000), VirtAddr(0x5000)));
    assert_eq!(phys.free_frames(), 6);
    assert!(ms.translate(VirtPageNum(2)).is_some());
    assert!(!ms.unmap_frame(&mut phys, VirtAddr(0x2000), VirtAddr(0x4000)));
    ms.release(&mut phys);
    assert_eq!(phys.free_frames(), 8);
}

#[test]
fn user_bytes_cross_pages() {
    let mut phys = PhysMemory::new(8);
    let mut ms = MemorySet::new_bare(&mut phys).unwrap();
    let perm = MapPermission { r: true, w: true, x: false, u: true };
    assert!(ms.map_frame(&mut phys, VirtAddr(0x2000), VirtAddr(0x4000), perm));
    write_user_bytes(&ms, &mut phys, 0x2ffd, b"abc\0def");
    assert_eq!(read_user_bytes(&ms, &phys, 0x2ffd, 7), b"abc\0def".to_vec());
    assert_eq!(translated_str(&ms, &phys, 0x2ffd), b"abc".to_vec());
    assert_eq!(translated_str(&ms, &phys, 0x3001), b"def".to_vec());
}

#[test]
fn map_permission_from_port_bits() {
    let p = MapPermission::from_port(5);
    assert!(p.r && !p.w && p.x && p.u);
    let f = MapPermission::from_port(2).pte_flags();
    assert_eq!(f, PTEFlags { v: true, r: false, w: true, x: false, u: true });
}

#[test]
fn open_flags_decode() {
    assert_eq!(OpenFlags::from_bits(0x800), None);
    assert_eq!(OpenFlags::from_bits(4), None);
    let f = OpenFlags::from_bits(0x601).unwrap();
    assert!(f.create() && f.trunc());
    assert_eq!(f.read_write(), (false, true));
    assert_eq!(OpenFlags::from_bits(0).unwrap().read_write(), (true, false));
    assert_eq!(OpenFlags::from_bits(2).unwrap().read_write(), (true, true));
    assert_eq!(OpenFlags::from_bits(3).unwrap().read_write(), (false, true));
}

#[test]
fn file_system_names_and_links() {
    let mut fs = FileSystem::new();
    assert_eq!(fs.find(b"a"), None);
    let a = fs.create(b"a").unwrap();
    assert_eq!(a, 1);
    assert_eq!(fs.find(b"a"), Some(1));
    assert!(!fs.inode_is_dir(a));
    assert!(fs.inode_is_dir(0));
    assert!(fs.create_link(a, b"b"));
    assert!(!fs.create_link(a, b"b"));
    assert_eq!(fs.inode_count(a), 2);
    assert!(fs.remove_link(b"a"));
    assert!(!fs.remove_link(b"a"));
    assert_eq!(fs.find(b"b"), Some(1));
    assert_eq!(fs.inode_count(a), 1);
}

#[test]
fn file_system_reads_what_was_written() {
    let mut fs = FileSystem::new();
    let a = fs.create(b"a").unwrap();
    fs.write_at(a, 2, b"xyz");
    assert_eq!(fs.size(a), 5);
    assert_eq!(fs.read_at(a, 0, 10), vec![0, 0, b'x', b'y', b'z']);
    assert_eq!(fs.read_at(a, 3, 1), b"y".to_vec());
    assert_eq!(fs.read_at(a, 9, 1), Vec::<u8>::new());
    fs.clear(a);
    assert_eq!(fs.size(a), 0);
}

#[test]
fn open_file_creates_once() {
    let mut fs = FileSystem::new();
    let f = open_file(&mut fs, b"n", OpenFlags { bits: 0x200 }).unwrap();
    assert_eq!(f.inode_id, 1);
    // any flag but write-only opens for reading and writing
    assert!(f.readable && f.writable);
    let g = open_file(&mut fs, b"n", OpenFlags { bits: 0x202 }).unwrap();
    assert_eq!(g.inode_id, 1);
    assert!(g.readable && g.writable);
    assert!(open_file(&mut fs, b"m", OpenFlags { bits: 2 }).is_none());
}

#[test]
fn byte_strings_compare() {
    assert!(bytes_eq(b"abc", b"abc"));
    assert!(!bytes_eq(b"abc", b"abd"));
    assert!(!bytes_eq(b"ab", b"abc"));
    assert!(bytes_eq(b"", b""));
}

#[test]
fn stat_bytes_layout() {
    let st = Stat::new(0, 9, StatMode::DIR, 3);
    let b = st.to_bytes();
    assert_eq!(b.len(), 80);
    assert_eq!(&b[8..16], &9u64.to_le_bytes());
    assert_eq!(&b[16..20], &0o040000u32.to_le_bytes());
    assert_eq!(&b[20..24], &3u32.to_le_bytes());
    assert_eq!(StatMode::FILE.bits(), 0o100000);
    assert_eq!(StatMode::NULL.bits(), 0);
}

#[test]
fn stride_order_wraps_around() {
    assert_eq!(stride_order(Stride(20), Stride(10)), Ordering::Greater);
    assert_eq!(stride_order(Stride(10), Stride(20)), Ordering::Less);
    assert_eq!(stride_order(Stride(5), Stride(250)), Ordering::Greater);
    assert_eq!(stride_order(Stride(250), Stride(5)), Ordering::Less);
    assert_eq!(stride_order(Stride(127), Stride(0)), Ordering::Equal);
    assert_eq!(stride_order(Stride(7), Stride(7)), Ordering::Greater);
}

#[test]
fn priority_sets_the_pass() {
    let mut phys = PhysMemory::new(16);
    let mut pids = PidAllocator::new();
    let mut t = TaskControlBlock::new(&image(b"code"), &mut pids, &mut phys, &layout());
    assert_eq!(t.inner.pass, 15);
    assert_eq!(t.set_prio(1), -1);
    assert_eq!(t.inner.pass, 15);
    assert_eq!(t.set_prio(16), 16);
    assert_eq!(t.inner.pass, 15);
    assert_eq!(t.set_prio(2), 2);
    assert_eq!(t.inner.pass, 127);
    t.update_stride();
    t.update_stride();
    t.update_stride();
    assert_eq!(t.inner.stride.0, 125);
    let u = TaskControlBlock::new(&image(b"code"), &mut pids, &mut phys, &layout());
    assert_eq!(t.compare_stride(&u), Ordering::Greater);
    assert_eq!(u.compare_stride(&t), Ordering::Less);
}

#[test]
fn task_records_its_identity() {
    let mut phys = PhysMemory::new(16);
    let mut pids = PidAllocator::new();
    for _ in 0..3 {
        pids.allocate();
    }
    let t = TaskControlBlock::new(&image(b"code"), &mut pids, &mut phys, &layout());
    assert_eq!(t.getpid(), 3);
    assert_eq!(t.kernel_stack.get_top(), 0xffff_ffff_ffff_f000 - 3 * 0x3000);
    assert_eq!(KernelStack(0).get_top(), 0xffff_ffff_ffff_f000);
    let cx = t.inner.get_trap_cx(&phys);
    assert_eq!(cx.kernel_sp, 0xffff_ffff_ffff_f000 - 3 * 0x3000);
    assert_eq!(cx.sepc, 0x1004);
    assert_eq!(cx.x.len(), 32);
    assert_eq!(cx.x[2], 0x5000);
    assert_eq!(cx.kernel_satp, 1);
    assert_eq!(cx.trap_handler, 2);
    assert_eq!(t.inner.task_status, TaskStatus::Ready);
    assert!(!t.inner.is_zombie());
    assert_eq!(t.get_user_token(&phys) >> 60, 8);
}

#[test]
fn syscall_counters() {
    let mut phys = PhysMemory::new(16);
    let mut pids = PidAllocator::new();
    let mut t = TaskControlBlock::new(&image(b"code"), &mut pids, &mut phys, &layout());
    t.inc_syscall(93);
    t.inc_syscall(93);
    assert_eq!(t.get_syscall_cnt(93), 2);
    assert_eq!(t.get_syscall_cnt(94), 0);
    t.clear_syscall();
    assert_eq!(t.get_syscall_cnt(93), 0);
}

#[test]
fn debug_vaddr_and_references() {
    let mut phys = PhysMemory::new(16);
    let mut pids = PidAllocator::new();
    let t = TaskControlBlock::new(&image(b"code"), &mut pids, &mut phys, &layout());
    let pte = t.debug_vaddr(VirtAddr(0x1000)).unwrap();
    assert_eq!(pte.flags, PTEFlags { v: true, r: true, w: false, x: true, u: true });
    assert_eq!(t.debug_vaddr(VirtAddr(0x9000_0000)), None);
    let pa = t.get_ref(&phys, VirtAddr(0x1002)).unwrap();
    assert_eq!(phys.read_byte(pa), b'd');
    // the code page is not writable
    assert_eq!(t.get_mut_ref(&phys, VirtAddr(0x1002)), None);
    assert!(t.get_mut_ref(&phys, VirtAddr(0x3000)).is_some());
}

#[test]
fn exec_replaces_the_program() {
    let mut phys = PhysMemory::new(16);
    let mut pids = PidAllocator::new();
    let mut t = TaskControlBlock::new(&image(b"old!"), &mut pids, &mut phys, &layout());
    let free = phys.free_frames();
    t.exec(&image(b"new!"), &mut phys, &layout());
    assert_eq!(phys.free_frames(), free);
    let pa = t.get_ref(&phys, VirtAddr(0x1000)).unwrap();
    assert_eq!(phys.read_byte(pa), b'n');
    assert_eq!(t.getpid(), 0);
}

#[test]
fn spawn_makes_a_child() {
    let mut phys = PhysMemory::new(16);
    let mut pids = PidAllocator::new();
    let mut t = TaskControlBlock::new(&image(b"p"), &mut pids, &mut phys, &layout());
    let c = t.spawn(&image(b"c"), &mut pids, &mut phys, &layout());
    assert_eq!(c.getpid(), 1);
    assert_eq!(c.inner.parent, Some(0));
    assert_eq!(t.inner.children, vec![1]);
    assert_eq!(phys.free_frames(), 16 - 2 * 5);
}

#[test]
fn manager_picks_the_next_ready_task() {
    let mut phys = PhysMemory::new(32);
    let apps = vec![image(b"a"), image(b"b"), image(b"c")];
    let mut tm = TaskManager::new(&apps, &mut phys, &layout());
    assert_eq!(tm.find_next_task(), Some(1));
    tm.inner.tasks[1].inner.task_status = TaskStatus::Zombie;
    assert_eq!(tm.find_next_task(), Some(2));
    tm.inner.tasks[2].inner.task_status = TaskStatus::Running;
    assert_eq!(tm.find_next_task(), Some(0));
    tm.inner.tasks[0].inner.task_status = TaskStatus::Zombie;
    assert_eq!(tm.find_next_task(), None);
}

#[test]
fn fork_copies_the_address_space() {
    let mut phys = PhysMemory::new(32);
    let mut pids = PidAllocator::new();
    let mut parent = TaskControlBlock::new(&image(b"code"), &mut pids, &mut phys, &layout());
    let perm = MapPermission { r: true, w: true, x: false, u: true };
    assert!(parent.map_frame(&mut phys, VirtAddr(0x10_0000), VirtAddr(0x10_1000), perm));
    let pa = parent.get_mut_ref(&phys, VirtAddr(0x10_0010)).unwrap();
    phys.write_byte(pa, 42);
    let free = phys.free_frames();
    let mut child = parent.fork(&mut pids, &mut phys, &layout());
    // the root and the six mapped pages: one code page, two stack pages, the trap
    // context and the mapped page
    assert_eq!(phys.free_frames(), free - 6);
    assert_eq!(child.getpid(), 1);
    assert_eq!(child.inner.parent, Some(0));
    assert_eq!(parent.inner.children, vec![1]);
    let ccx = child.inner.get_trap_cx(&phys);
    let pcx = parent.inner.get_trap_cx(&phys);
    assert_eq!(ccx.sepc, pcx.sepc);
    assert_eq!(ccx.x, pcx.x);
    assert_eq!(ccx.kernel_sp, KernelStack(1).get_top());
    assert_eq!(pcx.kernel_sp, KernelStack(0).get_top());
    assert!(child.inner.trap_cx_ppn != parent.inner.trap_cx_ppn);
    assert_eq!(child.inner.task_status, TaskStatus::Ready);
    let cpa = child.get_ref(&phys, VirtAddr(0x10_0010)).unwrap();
    assert!(cpa != pa);
    assert_eq!(phys.read_byte(cpa), 42);
    let code = child.get_ref(&phys, VirtAddr(0x1001)).unwrap();
    assert_eq!(phys.read_byte(code), b'o');
    // the copies are independent
    phys.write_byte(pa, 7);
    assert_eq!(phys.read_byte(cpa), 42);
    assert!(child.unmap_frame(&mut phys, VirtAddr(0x10_0000), VirtAddr(0x10_1000)));
    assert!(parent.get_ref(&phys, VirtAddr(0x10_0010)).is_some());
}

fn segment(start_va: u64, mem_size: u64, data: &[u8]) -> ProgramSegment {
    ProgramSegment {
        start_va,
        mem_size,
        perm: MapPermission { r: true, w: false, x: true, u: true },
        data: data.to_vec(),
    }
}

#[test]
fn loadable_images() {
    assert!(image_is_loadable(&image(b"code")));
    let two = AppImage { segments: vec![segment(0x1000, 0x1800, b""), segment(0x3000, 0x10, b"x")], entry_point: 0 };
    assert!(image_is_loadable(&two));
    // the second segment shares a page with the first
    let shared = AppImage { segments: vec![segment(0x1000, 0x1800, b""), segment(0x2800, 0x10, b"")], entry_point: 0 };
    assert!(!image_is_loadable(&shared));
    // out of order
    let reversed = AppImage { segments: vec![segment(0x3000, 0x10, b""), segment(0x1000, 0x10, b"")], entry_point: 0 };
    assert!(!image_is_loadable(&reversed));
    // more bytes than pages
    let big = AppImage { segments: vec![segment(0x1000, 0x10, &[1u8; 0x1001])], entry_point: 0 };
    assert!(!image_is_loadable(&big));
    // the user stack would reach the trap context
    let high = AppImage { segments: vec![segment(0x7f_ffff_b000, 0x1000, b"")], entry_point: 0 };
    assert!(!image_is_loadable(&high));
    let top = AppImage { segments: vec![segment(0x7f_ffff_a000, 0x1000, b"")], entry_point: 0 };
    assert!(image_is_loadable(&top));
    let empty = AppImage { segments: vec![], entry_point: 0 };
    assert!(image_is_loadable(&empty));
}

#[test]
fn frames_for_images() {
    assert_eq!(frames_for(&image(b"code")), 5);
    let two = AppImage { segments: vec![segment(0x1000, 0x1800, b""), segment(0x3000, 0x10, b"x")], entry_point: 0 };
    assert_eq!(frames_for(&two), 1 + 3 + 2 + 1);
    assert_eq!(total_frames_for(&vec![image(b"a"), two]), Some(5 + 7));
}

#[test]
fn user_strings_and_areas_are_checked() {
    let mut phys = PhysMemory::new(8);
    let mut ms = MemorySet::new_bare(&mut phys).unwrap();
    let perm = MapPermission { r: true, w: true, x: false, u: true };
    assert!(ms.map_frame(&mut phys, VirtAddr(0x2000), VirtAddr(0x3000), perm));
    write_user_bytes(&ms, &mut phys, 0x2ffe, b"ab");
    // the string runs into the unmapped page 3
    assert_eq!(user_c_str(&ms, &phys, 0x2ffe), None);
    write_user_bytes(&ms, &mut phys, 0x2ff0, b"hi\0");
    assert_eq!(user_c_str(&ms, &phys, 0x2ff0), Some(b"hi".to_vec()));
    assert_eq!(user_c_str(&ms, &phys, 0x2ff2), Some(Vec::new()));
    assert_eq!(user_c_str(&ms, &phys, 0x1fff), None);
    assert!(user_range_is_mapped(&ms, &phys, 0x2000, 0x1000));
    assert!(!user_range_is_mapped(&ms, &phys, 0x2001, 0x1000));
    assert!(user_range_is_mapped(&ms, &phys, 0x9000, 0));
}

#[test]
fn heap_moves_are_checked() {
    let mut phys = PhysMemory::new(16);
    let mut pids = PidAllocator::new();
    let mut t = TaskControlBlock::new(&image(b"code"), &mut pids, &mut phys, &layout());
    let free = phys.free_frames();
    // heap at page 5
    assert!(t.inner.brk_change_is_defined(free, 0x2000));
    assert!(!t.inner.brk_change_is_defined(1, 0x2000));
    assert!(t.inner.brk_change_is_defined(free, -5));
    assert_eq!(t.change_program_brk(&mut phys, 0x2000), Some(0x5000));
    assert!(t.inner.brk_change_is_defined(phys.free_frames(), -0x2000));
    // a page of the heap that is no longer mapped cannot be given back
    assert!(t.unmap_frame(&mut phys, VirtAddr(0x6000), VirtAddr(0x7000)));
    assert!(!t.inner.brk_change_is_defined(phys.free_frames(), -0x2000));
    assert!(!t.inner.brk_change_is_defined(phys.free_frames(), -0x1000));
    assert!(t.inner.brk_change_is_defined(phys.free_frames(), 0));
    let ms = &t.inner.memory_set;
    assert!(ms.heap_can_shrink(VirtAddr(0x5000), VirtAddr(0x7000)));
    assert!(!ms.heap_can_shrink(VirtAddr(0x5000), VirtAddr(0x6000)));
    assert!(!ms.heap_can_shrink(VirtAddr(0x5000), VirtAddr(0x5000)));
    assert!(ms.heap_can_shrink(VirtAddr(0x9000), VirtAddr(0x5000)));
    assert!(ms.heap_can_append(100, VirtAddr(0x5000), VirtAddr(0x8000)));
    assert!(!ms.heap_can_append(0, VirtAddr(0x5000), VirtAddr(0x8000)));
    assert!(!ms.heap_can_append(100, VirtAddr(0x5000), VirtAddr(0x6000)));
}

#[test]
fn frames_copy() {
    let mut phys = PhysMemory::new(3);
    phys.write_bytes(0x1000, b"frame one");
    phys.write_byte(0x2fff, 9);
    phys.copy_frame(1, 2);
    assert_eq!(phys.read_byte(0x2000), b'f');
    assert_eq!(phys.read_byte(0x2008), b'e');
    assert_eq!(phys.read_byte(0x2fff), 0);
    assert_eq!(phys.read_byte(0x1000), b'f');
}

#[test]
fn address_spaces_copy() {
    let mut phys = PhysMemory::new(16);
    let mut ms = MemorySet::new_bare(&mut phys).unwrap();
    let perm = MapPermission { r: true, w: false, x: false, u: true };
    assert!(ms.map_frame(&mut phys, VirtAddr(0x4000), VirtAddr(0x6000), perm));
    write_user_bytes(&ms, &mut phys, 0x4ffe, b"wxyz");
    let free = phys.free_frames();
    let copy = MemorySet::from_existed_user(&ms, &mut phys);
    assert_eq!(phys.free_frames(), free - 3);
    assert_eq!(read_user_bytes(&copy, &phys, 0x4ffe, 4), b"wxyz".to_vec());
    assert_eq!(copy.translate(VirtPageNum(5)).unwrap().flags, ms.translate(VirtPageNum(5)).unwrap().flags);
    assert!(copy.translate(VirtPageNum(5)).unwrap().ppn != ms.translate(VirtPageNum(5)).unwrap().ppn);
    assert_eq!(copy.translate(VirtPageNum(6)), None);
    assert!(copy.token() != ms.token());
}

#[test]
fn pids_are_handed_out_once() {
    let mut pids = PidAllocator::new();
    assert_eq!(pids.allocate(), 0);
    assert_eq!(pids.allocate(), 1);
    assert_eq!(pids.allocate(), 2);
    pids.recycle(1);
    pids.recycle(0);
    assert_eq!(pids.allocate(), 0);
    assert_eq!(pids.allocate(), 1);
    assert_eq!(pids.allocate(), 3);
}

#[test]
fn forked_children_get_fresh_pids() {
    let mut phys = PhysMemory::new(64);
    let mut pids = PidAllocator::new();
    let mut parent = TaskControlBlock::new(&image(b"code"), &mut pids, &mut phys, &layout());
    let a = parent.fork(&mut pids, &mut phys, &layout());
    let b = parent.spawn(&image(b"next"), &mut pids, &mut phys, &layout());
    assert_eq!((parent.getpid(), a.getpid(), b.getpid()), (0, 1, 2));
    assert_eq!(parent.inner.children, vec![1, 2]);
}

#[test]
fn trap_context_lives_in_its_frame() {
    let mut phys = PhysMemory::new(16);
    let mut pids = PidAllocator::new();
    let t = TaskControlBlock::new(&image(b"code"), &mut pids, &mut phys, &layout());
    let base = t.inner.trap_cx_ppn * 4096;
    // x2, the user stack pointer, is word 2 of the frame; sepc is word 33
    assert_eq!(phys.read_word(base + 16), 0x5000);
    assert_eq!(phys.read_word(base + 8 * 33), 0x1004);
    let mut cx = t.inner.get_trap_cx(&phys);
    cx.sepc = 0x1234;
    cx.x[10] = 77;
    t.inner.set_trap_cx(&mut phys, &cx);
    assert_eq!(phys.read_word(base + 8 * 33), 0x1234);
    assert_eq!(t.inner.get_trap_cx(&phys).x[10], 77);
}
