use rcore_task::kernel::Kernel;
use rcore_task::mm::elf::{AppImage, ProgramSegment};
use rcore_task::mm::address::VirtPageNum;
use rcore_task::mm::page_table::MapPermission;
use rcore_task::mm::user_access::read_user_bytes;
use rcore_task::syscall::process::{sys_exit, sys_get_time, sys_mmap, sys_munmap, sys_sbrk, sys_trace, sys_yield, TimeVal};
use rcore_task::task::task::TaskStatus;
use rcore_task::task::{inc_syscall, run_first_task};
use rcore_task::trap::KernelLayout;

/// A program with one readable, writable and executable segment of two pages at 0x1000.
fn image() -> AppImage {
    let seg = ProgramSegment {
        start_va: 0x1000,
        mem_size: 0x2000,
        perm: MapPermission { r: true, w: true, x: true, u: true },
        data: b"hello\0world\0".to_vec(),
    };
    AppImage { segments: vec![seg], entry_point: 0x1000 }
}

fn layout() -> KernelLayout {
    KernelLayout { kernel_satp: 0x8000_0000_0008_0000, trap_handler: 0xffff_ffff_ffff_f000, trap_return: 0xffff_ffff_ffff_f100 }
}

fn kernel(apps: usize) -> Kernel {
    let mut imgs = Vec::new();
    for _ in 0..apps {
        imgs.push(image());
    }
    Kernel::new(&imgs, 64, layout())
}

fn user_bytes(k: &Kernel, va: u64, len: usize) -> Vec<u8> {
    let cur = k.tm.inner.current_task;
    read_user_bytes(&k.tm.inner.tasks[cur].inner.memory_set, &k.phys, va, len)
}

#[test]
fn new_kernel_loads_every_task() {
    let k = kernel(3);
    assert_eq!(k.tm.num_app, 3);
    assert_eq!(k.tm.inner.current_task, 0);
    for t in k.tm.inner.tasks.iter() {
        assert_eq!(t.inner.task_status, TaskStatus::Ready);
        assert_eq!(t.inner.fd_table.len(), 3);
        assert_eq!(t.inner.heap_bottom, 0x6000);
        assert_eq!(t.inner.program_brk, 0x6000);
        let cx = t.inner.get_trap_cx(&k.phys);
        assert_eq!(cx.sepc, 0x1000);
        assert_eq!(cx.x[2], 0x6000);
    }
    // each task takes 6 frames: root, two segment pages, two stack pages, trap context
    assert_eq!(k.phys.free_frames(), 64 - 3 * 6);
    assert_eq!(user_bytes(&k, 0x1000, 12), b"hello\0world\0".to_vec());
}

#[test]
fn first_task_runs() {
    let mut k = kernel(2);
    let cx = run_first_task(&mut k.tm);
    assert_eq!(k.tm.inner.tasks[0].inner.task_status, TaskStatus::Running);
    assert_eq!(k.tm.inner.tasks[1].inner.task_status, TaskStatus::Ready);
    assert_eq!(cx.ra, 0xffff_ffff_ffff_f100);
}

#[test]
fn yield_switches_round_robin() {
    let mut k = kernel(3);
    run_first_task(&mut k.tm);
    assert_eq!(sys_yield(&mut k), (0, (0, 1)));
    assert_eq!(k.tm.inner.current_task, 1);
    assert_eq!(k.tm.inner.tasks[0].inner.task_status, TaskStatus::Ready);
    assert_eq!(k.tm.inner.tasks[1].inner.task_status, TaskStatus::Running);
    assert_eq!(sys_yield(&mut k), (0, (1, 2)));
    assert_eq!(sys_yield(&mut k), (0, (2, 0)));
}

#[test]
fn yield_alone_resumes_itself() {
    let mut k = kernel(1);
    run_first_task(&mut k.tm);
    assert_eq!(sys_yield(&mut k), (0, (0, 0)));
    assert_eq!(k.tm.inner.tasks[0].inner.task_status, TaskStatus::Running);
}

#[test]
fn exit_skips_zombies_and_ends() {
    let mut k = kernel(3);
    run_first_task(&mut k.tm);
    assert_eq!(sys_exit(&mut k, 0), (0, 1));
    assert_eq!(k.tm.inner.tasks[0].inner.task_status, TaskStatus::Zombie);
    assert_eq!(sys_yield(&mut k), (0, (1, 2)));
    assert_eq!(sys_yield(&mut k), (0, (2, 1)));
    assert_eq!(sys_exit(&mut k, 3), (1, 2));
    // no other task is ready: exiting now ends the machine
    assert!(!k.tm.other_task_ready());
    assert_eq!(k.tm.inner.tasks[0].inner.task_status, TaskStatus::Zombie);
    assert_eq!(k.tm.inner.tasks[1].inner.task_status, TaskStatus::Zombie);
    assert_eq!(k.tm.inner.tasks[2].inner.task_status, TaskStatus::Running);
}

#[test]
fn get_time_writes_seconds_and_microseconds() {
    let mut k = kernel(1);
    assert_eq!(sys_get_time(&mut k, 0x1100, 3_500_001), 0);
    let mut expected = 3u64.to_le_bytes().to_vec();
    expected.extend_from_slice(&500_001u64.to_le_bytes());
    assert_eq!(user_bytes(&k, 0x1100, 16), expected);
    let tv = TimeVal { sec: 3, usec: 500_001 };
    assert_eq!(tv.to_bytes(), expected);
}

#[test]
fn get_time_across_a_page_boundary() {
    let mut k = kernel(1);
    assert_eq!(sys_get_time(&mut k, 0x1ffc, 7_000_002), 0);
    let mut expected = 7u64.to_le_bytes().to_vec();
    expected.extend_from_slice(&2u64.to_le_bytes());
    assert_eq!(user_bytes(&k, 0x1ffc, 16), expected);
}

#[test]
fn get_time_on_unmapped_page_fails() {
    let mut k = kernel(1);
    let free = k.phys.free_frames();
    assert_eq!(sys_get_time(&mut k, 0x40_0000, 1), -1);
    assert_eq!(k.phys.free_frames(), free);
}

#[test]
fn trace_write_then_read() {
    let mut k = kernel(1);
    assert_eq!(sys_trace(&mut k, 1, 0x1200, 0x17f), 0);
    assert_eq!(sys_trace(&mut k, 0, 0x1200, 0), 127);
    assert_eq!(sys_trace(&mut k, 1, 0x1201, 0x80), 0);
    assert_eq!(sys_trace(&mut k, 0, 0x1201, 0), -128);
    assert_eq!(sys_trace(&mut k, 0, 0x1000, 0), b'h' as isize);
}

#[test]
fn trace_outside_the_address_space_fails() {
    let mut k = kernel(1);
    assert_eq!(sys_trace(&mut k, 0, 0x40_0000, 0), -1);
    assert_eq!(sys_trace(&mut k, 1, 0x40_0000, 1), -1);
    assert_eq!(sys_trace(&mut k, 0, 0x5000, 0), 0);
    // the guard page below the user stack is not mapped
    assert_eq!(sys_trace(&mut k, 0, 0x3000, 0), -1);
}

#[test]
fn trace_counts_system_calls() {
    let mut k = kernel(1);
    assert_eq!(sys_trace(&mut k, 2, 64, 0), 0);
    inc_syscall(&mut k.tm, 64);
    inc_syscall(&mut k.tm, 64);
    inc_syscall(&mut k.tm, 169);
    assert_eq!(sys_trace(&mut k, 2, 64, 0), 2);
    assert_eq!(sys_trace(&mut k, 2, 169, 0), 1);
}

#[test]
fn trace_unknown_request_fails() {
    let mut k = kernel(1);
    assert_eq!(sys_trace(&mut k, 3, 0x1000, 0), -1);
    assert_eq!(sys_trace(&mut k, 99, 0, 0), -1);
}

#[test]
fn mmap_then_munmap() {
    let mut k = kernel(1);
    let free = k.phys.free_frames();
    assert_eq!(sys_mmap(&mut k, 0x1000_0000, 0x2000, 3), 0);
    assert_eq!(k.phys.free_frames(), free - 2);
    assert_eq!(sys_trace(&mut k, 1, 0x1000_1fff, 9), 0);
    assert_eq!(sys_trace(&mut k, 0, 0x1000_1fff, 0), 9);
    // fresh pages are zeroed
    assert_eq!(sys_trace(&mut k, 0, 0x1000_0000, 0), 0);
    assert_eq!(sys_munmap(&mut k, 0x1000_0000, 0x2000), 0);
    assert_eq!(k.phys.free_frames(), free);
    assert_eq!(sys_trace(&mut k, 0, 0x1000_0000, 0), -1);
    assert_eq!(sys_munmap(&mut k, 0x1000_0000, 0x2000), -1);
}

#[test]
fn mmap_rounds_length_up_to_pages() {
    let mut k = kernel(1);
    let free = k.phys.free_frames();
    assert_eq!(sys_mmap(&mut k, 0x1000_0000, 1, 3), 0);
    assert_eq!(k.phys.free_frames(), free - 1);
    assert_eq!(sys_trace(&mut k, 1, 0x1000_0fff, 1), 0);
    assert_eq!(sys_trace(&mut k, 1, 0x1000_1000, 1), -1);
}

#[test]
fn mmap_overlapping_fails() {
    let mut k = kernel(1);
    assert_eq!(sys_mmap(&mut k, 0x1000_0000, 0x3000, 3), 0);
    let free = k.phys.free_frames();
    assert_eq!(sys_mmap(&mut k, 0x1000_2000, 0x2000, 3), -1);
    assert_eq!(k.phys.free_frames(), free);
    assert_eq!(sys_mmap(&mut k, 0x1000, 0x1000, 3), -1);
}

#[test]
fn mmap_rejects_bad_arguments() {
    let mut k = kernel(1);
    assert_eq!(sys_mmap(&mut k, 0x1000_0001, 0x1000, 3), -1);
    assert_eq!(sys_mmap(&mut k, 0x1000_0000, 0x1000, 0), -1);
    assert_eq!(sys_mmap(&mut k, 0x1000_0000, 0x1000, 8), -1);
    assert_eq!(sys_mmap(&mut k, 0x1000_0000, 0x1000, 0xf), -1);
}

#[test]
fn mmap_read_only_refuses_writes() {
    let mut k = kernel(1);
    assert_eq!(sys_mmap(&mut k, 0x1000_0000, 0x1000, 1), 0);
    assert_eq!(sys_trace(&mut k, 0, 0x1000_0000, 0), 0);
    assert_eq!(sys_trace(&mut k, 1, 0x1000_0000, 5), -1);
}

#[test]
fn mmap_write_only_refuses_reads() {
    let mut k = kernel(1);
    assert_eq!(sys_mmap(&mut k, 0x1000_0000, 0x1000, 2), 0);
    assert_eq!(sys_trace(&mut k, 0, 0x1000_0000, 0), -1);
}

#[test]
fn munmap_partly_unmapped_fails() {
    let mut k = kernel(1);
    assert_eq!(sys_mmap(&mut k, 0x1000_0000, 0x1000, 3), 0);
    let free = k.phys.free_frames();
    assert_eq!(sys_munmap(&mut k, 0x1000_0000, 0x2000), -1);
    assert_eq!(k.phys.free_frames(), free);
    assert_eq!(sys_trace(&mut k, 0, 0x1000_0000, 0), 0);
}

#[test]
fn sbrk_grows_and_shrinks_the_heap() {
    let mut k = kernel(1);
    let free = k.phys.free_frames();
    assert_eq!(sys_trace(&mut k, 1, 0x6000, 1), -1);
    assert_eq!(sys_sbrk(&mut k, 0x1000), 0x6000);
    assert_eq!(k.phys.free_frames(), free - 1);
    assert_eq!(sys_trace(&mut k, 1, 0x6000, 1), 0);
    assert_eq!(sys_sbrk(&mut k, 0x10), 0x7000);
    assert_eq!(k.phys.free_frames(), free - 2);
    assert_eq!(sys_sbrk(&mut k, -0x1010), 0x7010);
    assert_eq!(k.phys.free_frames(), free);
    assert_eq!(k.tm.inner.tasks[0].inner.program_brk, 0x6000);
    assert_eq!(sys_trace(&mut k, 1, 0x6000, 1), -1);
}

#[test]
fn sbrk_below_the_heap_bottom_fails() {
    let mut k = kernel(1);
    assert_eq!(sys_sbrk(&mut k, -1), -1);
    assert_eq!(k.tm.inner.tasks[0].inner.program_brk, 0x6000);
    assert_eq!(sys_sbrk(&mut k, 0), 0x6000);
}

#[test]
fn trace_writes_stay_in_the_running_task() {
    let mut k = kernel(2);
    run_first_task(&mut k.tm);
    assert_eq!(sys_trace(&mut k, 1, 0x1000, b'j' as usize), 0);
    assert_eq!(sys_trace(&mut k, 0, 0x1000, 0), b'j' as isize);
    assert_eq!(sys_yield(&mut k), (0, (0, 1)));
    assert_eq!(sys_trace(&mut k, 0, 0x1000, 0), b'h' as isize);
    assert_eq!(sys_yield(&mut k), (0, (1, 0)));
    assert_eq!(sys_trace(&mut k, 0, 0x1000, 0), b'j' as isize);
}

#[test]
fn get_time_split_over_pages_with_distant_frames() {
    let mut k = kernel(1);
    assert_eq!(sys_mmap(&mut k, 0x1000_0000, 0x1000, 3), 0);
    assert_eq!(sys_mmap(&mut k, 0x2000_0000, 0x1000, 3), 0);
    assert_eq!(sys_mmap(&mut k, 0x1000_1000, 0x1000, 3), 0);
    let cur = &k.tm.inner.tasks[0].inner.memory_set;
    let f0 = cur.translate(VirtPageNum(0x1_0000)).unwrap().ppn;
    let f1 = cur.translate(VirtPageNum(0x1_0001)).unwrap().ppn;
    assert!(f1 != f0 + 1);
    assert_eq!(sys_get_time(&mut k, 0x1000_0ff8, 5_000_006), 0);
    let mut expected = 5u64.to_le_bytes().to_vec();
    expected.extend_from_slice(&6u64.to_le_bytes());
    assert_eq!(user_bytes(&k, 0x1000_0ff8, 16), expected);
}

#[test]
fn get_time_reaching_an_unmapped_page_writes_nothing() {
    let mut k = kernel(1);
    assert_eq!(sys_mmap(&mut k, 0x1000_0000, 0x1000, 3), 0);
    assert_eq!(sys_get_time(&mut k, 0x1000_0ff8, 5_000_006), -1);
    assert_eq!(user_bytes(&k, 0x1000_0ff8, 8), vec![0u8; 8]);
    // a page mapped without write permission refuses too
    assert_eq!(sys_mmap(&mut k, 0x1000_1000, 0x1000, 1), 0);
    assert_eq!(sys_get_time(&mut k, 0x1000_0ff8, 5_000_006), -1);
    assert_eq!(user_bytes(&k, 0x1000_0ff8, 8), vec![0u8; 8]);
}

#[test]
fn trace_reads_the_saved_registers_on_the_trap_page() {
    let mut k = kernel(1);
    // the trap-context page, at its sign-extended upper-half address
    let trap = 0xffff_ffff_ffff_e000usize;
    // x2 (the user stack pointer, 0x6000) is word 2; sepc (the entry, 0x1000) is word 33
    assert_eq!(sys_trace(&mut k, 0, trap + 16, 0), 0);
    assert_eq!(sys_trace(&mut k, 0, trap + 17, 0), 0x60);
    assert_eq!(sys_trace(&mut k, 0, trap + 8 * 33 + 1, 0), 0x10);
}

#[test]
fn counting_after_clearing() {
    let mut k = kernel(1);
    inc_syscall(&mut k.tm, 64);
    rcore_task::task::clear_syscall(&mut k.tm);
    for id in [64, 93, 64, 64, 169] {
        inc_syscall(&mut k.tm, id);
    }
    assert_eq!(sys_trace(&mut k, 2, 64, 0), 3);
    assert_eq!(sys_trace(&mut k, 2, 64, 0), 3);
    assert_eq!(sys_trace(&mut k, 2, 93, 0), 1);
    assert_eq!(sys_trace(&mut k, 2, 5, 0), 0);
}
