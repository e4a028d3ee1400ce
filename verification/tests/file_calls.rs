use rcore_task::fs::file::File;
use rcore_task::kernel::Kernel;
use rcore_task::mm::elf::{AppImage, ProgramSegment};
use rcore_task::mm::page_table::MapPermission;
use rcore_task::mm::user_access::read_user_bytes;
use rcore_task::syscall::fs::{sys_close, sys_fstat, sys_linkat, sys_open, sys_read, sys_unlinkat, sys_write};
use rcore_task::trap::KernelLayout;

const RDONLY: u32 = 0;
const WRONLY: u32 = 1;
const RDWR: u32 = 2;
const CREATE: u32 = 0x200;
const TRUNC: u32 = 0x400;

// user addresses of the strings in the program's data
const HELLO: usize = 0x1000;
const WORLD: usize = 0x1006;
const OTHER: usize = 0x100c;
const DATA: usize = 0x1012;
const BUF: usize = 0x1800;

fn image() -> AppImage {
    let seg = ProgramSegment {
        start_va: 0x1000,
        mem_size: 0x2000,
        perm: MapPermission { r: true, w: true, x: false, u: true },
        data: b"hello\0world\0other\00123456789".to_vec(),
    };
    AppImage { segments: vec![seg], entry_point: 0x1000 }
}

fn kernel() -> Kernel {
    let layout = KernelLayout { kernel_satp: 8, trap_handler: 0x1000, trap_return: 0x2000 };
    Kernel::new(&vec![image()], 32, layout)
}

fn user_bytes(k: &Kernel, va: usize, len: usize) -> Vec<u8> {
    let cur = k.tm.inner.current_task;
    read_user_bytes(&k.tm.inner.tasks[cur].inner.memory_set, &k.phys, va as u64, len)
}

fn nlink_of(k: &mut Kernel, fd: usize) -> u32 {
    assert_eq!(sys_fstat(k, fd, BUF), 0);
    let b = user_bytes(k, BUF + 20, 4);
    u32::from_le_bytes([b[0], b[1], b[2], b[3]])
}

#[test]
fn open_create_write_close_reopen_read() {
    let mut k = kernel();
    let fd = sys_open(&mut k, HELLO, CREATE | WRONLY);
    assert_eq!(fd, 3);
    assert_eq!(sys_write(&mut k, 3, DATA, 10), 10);
    assert_eq!(sys_close(&mut k, 3), 0);
    assert_eq!(sys_open(&mut k, HELLO, RDONLY), 3);
    assert_eq!(sys_read(&mut k, 3, BUF, 4), 4);
    assert_eq!(user_bytes(&k, BUF, 4), b"0123".to_vec());
    assert_eq!(sys_read(&mut k, 3, BUF, 100), 6);
    assert_eq!(user_bytes(&k, BUF, 6), b"456789".to_vec());
    assert_eq!(sys_read(&mut k, 3, BUF, 100), 0);
}

#[test]
fn open_missing_file_without_create_fails() {
    let mut k = kernel();
    assert_eq!(sys_open(&mut k, HELLO, RDONLY), -1);
    assert_eq!(sys_open(&mut k, HELLO, RDWR), -1);
    assert_eq!(k.tm.inner.tasks[0].inner.fd_table.len(), 3);
    assert_eq!(k.fs.find(b"hello"), None);
}

#[test]
fn open_takes_the_lowest_free_descriptor() {
    let mut k = kernel();
    assert_eq!(sys_open(&mut k, HELLO, CREATE), 3);
    assert_eq!(sys_open(&mut k, WORLD, CREATE), 4);
    assert_eq!(sys_close(&mut k, 1), 0);
    assert_eq!(sys_open(&mut k, OTHER, CREATE), 1);
    assert_eq!(sys_close(&mut k, 3), 0);
    assert_eq!(sys_open(&mut k, HELLO, RDONLY), 3);
    assert_eq!(k.tm.inner.tasks[0].inner.fd_table.len(), 5);
}

#[test]
fn the_same_file_opened_twice_shares_data_not_position() {
    let mut k = kernel();
    assert_eq!(sys_open(&mut k, HELLO, CREATE | RDWR), 3);
    assert_eq!(sys_open(&mut k, HELLO, RDONLY), 4);
    assert_eq!(sys_write(&mut k, 3, DATA, 3), 3);
    assert_eq!(sys_read(&mut k, 4, BUF, 10), 3);
    assert_eq!(user_bytes(&k, BUF, 3), b"012".to_vec());
}

#[test]
fn create_or_truncate_empties_an_existing_file() {
    let mut k = kernel();
    assert_eq!(sys_open(&mut k, HELLO, CREATE | WRONLY), 3);
    assert_eq!(sys_write(&mut k, 3, DATA, 10), 10);
    assert_eq!(sys_open(&mut k, HELLO, RDONLY), 4);
    assert_eq!(sys_read(&mut k, 4, BUF, 100), 10);
    assert_eq!(sys_open(&mut k, HELLO, TRUNC | RDWR), 5);
    assert_eq!(sys_read(&mut k, 5, BUF, 100), 0);
    assert_eq!(sys_write(&mut k, 3, DATA, 2), 2);
    assert_eq!(sys_open(&mut k, HELLO, CREATE), 6);
    assert_eq!(sys_read(&mut k, 6, BUF, 100), 0);
}

#[test]
fn write_past_the_end_fills_with_zeros() {
    let mut k = kernel();
    assert_eq!(sys_open(&mut k, HELLO, CREATE | RDWR), 3);
    assert_eq!(sys_write(&mut k, 3, DATA, 4), 4);
    assert_eq!(sys_open(&mut k, HELLO, TRUNC | WRONLY), 4);
    assert_eq!(sys_write(&mut k, 3, DATA, 2), 2);
    assert_eq!(sys_open(&mut k, HELLO, RDONLY), 5);
    assert_eq!(sys_read(&mut k, 5, BUF, 100), 6);
    assert_eq!(user_bytes(&k, BUF, 6), vec![0, 0, 0, 0, b'0', b'1']);
}

#[test]
fn rights_follow_the_open_flags() {
    let mut k = kernel();
    assert_eq!(sys_open(&mut k, HELLO, CREATE | WRONLY), 3);
    assert_eq!(sys_read(&mut k, 3, BUF, 1), -1);
    assert_eq!(sys_open(&mut k, HELLO, RDONLY), 4);
    assert_eq!(sys_write(&mut k, 4, DATA, 1), -1);
    match k.tm.inner.tasks[0].inner.fd_table[4] {
        Some(File::Inode(i)) => {
            assert!(i.readable);
            assert!(!i.writable);
            assert_eq!(i.offset, 0);
        }
        _ => panic!("descriptor 4 should hold a regular file"),
    }
}

#[test]
fn console_descriptors() {
    let mut k = kernel();
    assert_eq!(sys_write(&mut k, 1, HELLO, 5), 5);
    assert_eq!(sys_write(&mut k, 2, WORLD, 5), 5);
    assert_eq!(k.console.output, b"helloworld".to_vec());
    assert_eq!(sys_write(&mut k, 0, HELLO, 5), -1);
    assert_eq!(sys_read(&mut k, 1, BUF, 1), -1);
    k.console.input = b"xy".to_vec();
    assert_eq!(sys_read(&mut k, 0, BUF, 1), 1);
    assert_eq!(user_bytes(&k, BUF, 1), b"x".to_vec());
    assert_eq!(k.console.input, b"y".to_vec());
}

#[test]
fn bad_descriptors_fail() {
    let mut k = kernel();
    assert_eq!(sys_write(&mut k, 3, DATA, 1), -1);
    assert_eq!(sys_read(&mut k, 7, BUF, 1), -1);
    assert_eq!(sys_close(&mut k, 3), -1);
    assert_eq!(sys_fstat(&mut k, 9, BUF), -1);
    assert_eq!(sys_fstat(&mut k, 1, BUF), -1);
    assert_eq!(sys_close(&mut k, 0), 0);
    assert_eq!(sys_close(&mut k, 0), -1);
    assert_eq!(sys_read(&mut k, 0, BUF, 1), -1);
}

#[test]
fn fstat_reports_inode_kind_and_links() {
    let mut k = kernel();
    assert_eq!(sys_open(&mut k, HELLO, CREATE), 3);
    assert_eq!(sys_open(&mut k, WORLD, CREATE), 4);
    assert_eq!(sys_fstat(&mut k, 4, BUF), 0);
    let b = user_bytes(&k, BUF, 80);
    assert_eq!(&b[0..8], &0u64.to_le_bytes());
    assert_eq!(&b[8..16], &2u64.to_le_bytes());
    assert_eq!(&b[16..20], &0o100000u32.to_le_bytes());
    assert_eq!(&b[20..24], &1u32.to_le_bytes());
    assert!(b[24..80].iter().all(|x| *x == 0));
}

#[test]
fn link_then_unlink() {
    let mut k = kernel();
    assert_eq!(sys_open(&mut k, HELLO, CREATE | RDWR), 3);
    assert_eq!(sys_write(&mut k, 3, DATA, 5), 5);
    assert_eq!(nlink_of(&mut k, 3), 1);
    assert_eq!(sys_linkat(&mut k, HELLO, WORLD), 0);
    assert_eq!(nlink_of(&mut k, 3), 2);
    // the new name reaches the same data
    assert_eq!(sys_open(&mut k, WORLD, RDONLY), 4);
    assert_eq!(sys_read(&mut k, 4, BUF, 10), 5);
    assert_eq!(user_bytes(&k, BUF, 5), b"01234".to_vec());
    assert_eq!(sys_unlinkat(&mut k, HELLO), 0);
    assert_eq!(nlink_of(&mut k, 3), 1);
    assert_eq!(sys_open(&mut k, HELLO, RDONLY), -1);
    assert_eq!(sys_open(&mut k, WORLD, RDONLY), 5);
    assert_eq!(sys_read(&mut k, 5, BUF, 10), 5);
}

#[test]
fn link_errors() {
    let mut k = kernel();
    assert_eq!(sys_linkat(&mut k, HELLO, WORLD), -1);
    assert_eq!(sys_open(&mut k, HELLO, CREATE), 3);
    assert_eq!(sys_open(&mut k, WORLD, CREATE), 4);
    assert_eq!(sys_linkat(&mut k, HELLO, WORLD), -1);
    assert_eq!(sys_linkat(&mut k, HELLO, HELLO), -1);
    assert_eq!(nlink_of(&mut k, 3), 1);
}

#[test]
fn unlinking_the_last_name_empties_the_file() {
    let mut k = kernel();
    assert_eq!(sys_open(&mut k, HELLO, CREATE | RDWR), 3);
    assert_eq!(sys_write(&mut k, 3, DATA, 5), 5);
    assert_eq!(sys_unlinkat(&mut k, HELLO), 0);
    assert_eq!(sys_unlinkat(&mut k, HELLO), -1);
    assert_eq!(nlink_of(&mut k, 3), 0);
    assert_eq!(k.fs.size(1), 0);
    assert_eq!(k.fs.size(0), 0);
}

#[test]
fn fstat_on_unknown_name_link_count_after_recreate() {
    let mut k = kernel();
    assert_eq!(sys_open(&mut k, HELLO, CREATE), 3);
    assert_eq!(sys_unlinkat(&mut k, HELLO), 0);
    assert_eq!(sys_open(&mut k, HELLO, CREATE), 4);
    assert_eq!(nlink_of(&mut k, 4), 1);
    assert_eq!(nlink_of(&mut k, 3), 0);
    assert_eq!(sys_fstat(&mut k, 4, BUF), 0);
    let b = user_bytes(&k, BUF, 16);
    assert_eq!(&b[8..16], &2u64.to_le_bytes());
}
