//! File-system system calls.
use vstd::prelude::*;
use crate::fs::file::{File, OSInode, OpenFlags, open_file, open_target, opened, open_effect};
use crate::fs::inode::{FileSystem, find_index, link_count, written_at, read_from, MAX_FILE_SIZE};
use crate::fs::stat::{Stat, StatMode};
use crate::kernel::{Kernel, fds_valid, lemma_wf_keeps_fds};
use crate::mm::address::{VirtAddr, VA_LIMIT};
use crate::mm::frame::phys_written;
use crate::mm::memory_set::{va_mapped, va_to_pa, user_byte};
use crate::mm::page_table::PageTableEntry;
use crate::mm::user_access::{has_c_str, c_str, translated_str, user_range_mapped, user_bytes, user_written,
    read_user_bytes, write_user_bytes, translate_va};
use crate::syscall::process::va_of;
use crate::task::manager::lemma_wf_same_used;
use crate::task::task::{TaskControlBlock, TaskControlBlockInner};

verus! {

/// The running task's page table.
pub open spec fn cur_pt(k: Kernel) -> Map<u64, PageTableEntry> {
    k.cur().inner.memory_set.pt()
}

/// What file descriptor `fd` of the running task refers to, if anything.
pub open spec fn fd_entry(k: Kernel, fd: usize) -> Option<File> {
    if fd < k.cur().inner.fd_table@.len() { k.cur().inner.fd_table@[fd as int] } else { None }
}

/// The running task's descriptor table is `table`, and nothing else of the machine but
/// what `fs` and `console` say changed.
pub open spec fn only_fds_changed(k0: Kernel, k1: Kernel, table: Seq<Option<File>>) -> bool {
    &&& k1.cur().inner.fd_table@ == table
    &&& k1.tm.tasks() == k0.tm.tasks().update(k0.tm.current(), TaskControlBlock {
        inner: TaskControlBlockInner { fd_table: k1.cur().inner.fd_table, ..k0.cur().inner },
        ..k0.cur()
    })
    &&& k1.tm.num_app == k0.tm.num_app
    &&& k1.tm.inner.current_task == k0.tm.inner.current_task
    &&& k1.tm.inner.syscall_cnt == k0.tm.inner.syscall_cnt
    &&& k1.layout == k0.layout
}

/// Machine `k1` is what closing descriptor `fd` leaves of machine `k0`, and `r` is what
/// it returns.
pub open spec fn close_result(k0: Kernel, k1: Kernel, fd: usize, r: isize) -> bool {
    &&& fd_entry(k0, fd).is_some() ==> r == 0
        && only_fds_changed(k0, k1, k0.cur().inner.fd_table@.update(fd as int, None))
        && k1.phys == k0.phys && k1.fs == k0.fs && k1.console == k0.console
    &&& fd_entry(k0, fd).is_none() ==> r == -1 && k1 == k0
}

/// Closes file descriptor `fd` of the running task. Returns 0, or -1 when `fd` refers to
/// nothing.
pub fn sys_close(k: &mut Kernel, fd: usize) -> (r: isize)
    requires
        old(k).wf(),
    ensures
        final(k).wf(),
        close_result(*old(k), *final(k), fd, r),
{
    let cur = k.tm.inner.current_task;
    if fd >= k.tm.inner.tasks[cur].inner.fd_table.len() {
        return -1;
    }
    if k.tm.inner.tasks[cur].inner.fd_table[fd].is_none() {
        return -1;
    }
    k.set_fd(fd, None);
    0
}

/// Opens the file whose name is the zero-ended string at user address `path` of the
/// running task, with open flags `flags`, on the lowest free descriptor. Returns the
/// descriptor, or -1 when the file does not exist and is not to be created, or no inode
/// is left.
pub fn sys_open(k: &mut Kernel, path: usize, flags: u32) -> (r: isize)
    requires
        old(k).wf(),
        has_c_str(cur_pt(*old(k)), old(k).phys.mem(), va_of(path) as int),
        OpenFlags::valid_bits(flags),
        old(k).cur().inner.fd_table@.len() < isize::MAX,
    ensures
        final(k).wf(),
        ({
            let name = c_str(cur_pt(*old(k)), old(k).phys.mem(), va_of(path) as int);
            let fl = OpenFlags { bits: flags };
            let table = old(k).cur().inner.fd_table@;
            match open_target(old(k).fs, name, fl) {
                Some(id) => {
                    let fd = r as int;
                    &&& 0 <= fd <= table.len()
                    &&& forall|j: int| 0 <= j < fd ==> (#[trigger] table[j]).is_some()
                    &&& fd < table.len() ==> table[fd].is_none()
                    &&& only_fds_changed(*old(k), *final(k),
                        (if fd < table.len() { table } else { table.push(None) }).update(fd, Some(File::Inode(opened(fl, id)))))
                    &&& open_effect(old(k).fs, final(k).fs, name, fl, id)
                    &&& final(k).phys == old(k).phys
                    &&& final(k).console == old(k).console
                },
                None => r == -1 && *final(k) == *old(k),
            }
        }),
{
    let cur = k.tm.inner.current_task;
    let ghost k0 = *k;
    proof {
        assert(k.cur().wf_in(&k.phys));
    }
    let name = translated_str(&k.tm.inner.tasks[cur].inner.memory_set, &k.phys, VirtAddr::from_usize(path as u64).0);
    let fl = match OpenFlags::from_bits(flags) {
        Some(f) => f,
        None => { assert(false); OpenFlags { bits: 0 } },
    };
    match open_file(&mut k.fs, name.as_slice(), fl) {
        Some(inode) => {
            proof {
                lemma_wf_keeps_fds(k0, *k);
            }
            let ghost k1 = *k;
            let fd = k.alloc_fd();
            let ghost k2 = *k;
            k.set_fd(fd, Some(File::Inode(inode)));
            proof {
                assert(k1.cur() == k0.cur());
                let t = k.cur();
                assert(k.tm.tasks() =~= k0.tm.tasks().update(k0.tm.current(), TaskControlBlock {
                    inner: TaskControlBlockInner { fd_table: t.inner.fd_table, ..k0.cur().inner },
                    ..k0.cur()
                }));
            }
            fd as isize
        },
        None => -1,
    }
}

/// Writing `len` bytes from user address `buf` through file `f` is defined: the bytes, if
/// any, lie in mapped pages inside the Sv39 space, their count fits the result, and a
/// regular file stays within the largest file size.
pub open spec fn write_defined(k: Kernel, f: File, buf: usize, len: usize) -> bool {
    &&& len > 0 ==> buf + len <= VA_LIMIT
    &&& len <= isize::MAX
    &&& user_range_mapped(cur_pt(k), buf as int, len as int)
    &&& (f matches File::Inode(i) ==> i.offset + len <= MAX_FILE_SIZE)
}

/// Reading up to `len` bytes into user address `buf` through file `f` is defined: the
/// bytes, if any, lie in mapped pages inside the Sv39 space, and a read from the console asks for
/// one byte, which has been typed.
pub open spec fn read_defined(k: Kernel, f: File, buf: usize, len: usize) -> bool {
    &&& len > 0 ==> buf + len <= VA_LIMIT
    &&& user_range_mapped(cur_pt(k), buf as int, len as int)
    &&& (f == File::Stdin ==> len == 1 && k.console.input@.len() > 0)
}

/// Writes `len` bytes from user address `buf` of the running task to the file of
/// descriptor `fd`: to the console, or into a regular file at its position, which then
/// advances. Returns the number of bytes written, or -1 when `fd` refers to nothing or to
/// a file that may not be written.
pub fn sys_write(k: &mut Kernel, fd: usize, buf: usize, len: usize) -> (r: isize)
    requires
        old(k).wf(),
        fd_entry(*old(k), fd) matches Some(f) ==> (f.spec_writable() ==> write_defined(*old(k), f, buf, len)),
    ensures
        final(k).wf(),
        final(k).phys == old(k).phys,
        ({
            let data = user_bytes(cur_pt(*old(k)), old(k).phys.mem(), buf as int, len as nat);
            match fd_entry(*old(k), fd) {
                Some(File::Stdout) => {
                    &&& r == len
                    &&& final(k).console.output@ == old(k).console.output@ + data
                    &&& final(k).console.input == old(k).console.input
                    &&& final(k).tm == old(k).tm
                    &&& final(k).fs == old(k).fs
                },
                Some(File::Inode(i)) => if i.writable {
                    &&& r == len
                    &&& final(k).fs.data(i.inode_id) == written_at(old(k).fs.data(i.inode_id), i.offset as int, data)
                    &&& final(k).fs.dir() == old(k).fs.dir()
                    &&& final(k).fs.num_inodes() == old(k).fs.num_inodes()
                    &&& forall|j: u32| j < old(k).fs.num_inodes() && j != i.inode_id ==> #[trigger] final(k).fs.data(j) == old(k).fs.data(j)
                    &&& forall|j: u32| j < old(k).fs.num_inodes() ==> #[trigger] final(k).fs.is_dir(j) == old(k).fs.is_dir(j)
                    &&& only_fds_changed(*old(k), *final(k), old(k).cur().inner.fd_table@.update(fd as int,
                        Some(File::Inode(OSInode { offset: (i.offset + len) as u64, ..i }))))
                    &&& final(k).console == old(k).console
                } else {
                    r == -1 && *final(k) == *old(k)
                },
                _ => r == -1 && *final(k) == *old(k),
            }
        }),
        fd_entry(*old(k), fd) matches Some(File::Inode(i)) ==> (i.writable ==> {
            let d0 = old(k).fs.data(i.inode_id);
            let d1 = final(k).fs.data(i.inode_id);
            let o = i.offset as int;
            &&& d1.len() == (if o + len > d0.len() { o + len } else { d0.len() as int })
            &&& forall|j: int| 0 <= j < len ==> #[trigger] d1[o + j] == user_byte(cur_pt(*old(k)), old(k).phys.mem(), buf + j)
            &&& forall|j: int| 0 <= j < d0.len() && !(o <= j < o + len) ==> #[trigger] d1[j] == d0[j]
        }),
{
    let cur = k.tm.inner.current_task;
    if fd >= k.tm.inner.tasks[cur].inner.fd_table.len() {
        return -1;
    }
    match k.tm.inner.tasks[cur].inner.fd_table[fd] {
        Some(file) => {
            if !file.writable() {
                return -1;
            }
            proof {
                assert(k.cur().wf_in(&k.phys));
            }
            let data = if len == 0 {
                assert(user_bytes(cur_pt(*k), k.phys.mem(), buf as int, 0) =~= Seq::<u8>::empty());
                Vec::new()
            } else {
                read_user_bytes(&k.tm.inner.tasks[cur].inner.memory_set, &k.phys, buf as u64, len)
            };
            match file {
                File::Stdout => {
                    k.console.write(data.as_slice());
                    len as isize
                },
                File::Inode(i) => {
                    let ghost k0 = *k;
                    proof {
                        assert(fds_valid(k.cur(), k.fs));
                        assert(k.cur().inner.fd_table@[fd as int] == Some(File::Inode(i)));
                    }
                    k.fs.write_at(i.inode_id, i.offset, data.as_slice());
                    proof {
                        lemma_wf_keeps_fds(k0, *k);
                    }
                    let ghost k1 = *k;
                    k.set_fd(fd, Some(File::Inode(OSInode { offset: i.offset + len as u64, ..i })));
                    proof {
                        assert(k1.cur() == k0.cur());
                    }
                    len as isize
                },
                File::Stdin => -1,
            }
        },
        None => -1,
    }
}

/// Reads up to `len` bytes from the file of descriptor `fd` into user address `buf` of
/// the running task: one typed byte from the console, or the bytes of a regular file from
/// its position, which then advances. Returns the number of bytes read, or -1 when `fd`
/// refers to nothing or to a file that may not be read.
pub fn sys_read(k: &mut Kernel, fd: usize, buf: usize, len: usize) -> (r: isize)
    requires
        old(k).wf(),
        fd_entry(*old(k), fd) matches Some(f) ==> (f.spec_readable() ==> read_defined(*old(k), f, buf, len)),
    ensures
        final(k).wf(),
        final(k).phys.used() == old(k).phys.used(),
        final(k).phys.num_frames() == old(k).phys.num_frames(),
        match fd_entry(*old(k), fd) {
            Some(File::Stdin) => {
                &&& r == 1
                &&& final(k).console.input@ == old(k).console.input@.drop_first()
                &&& final(k).console.output == old(k).console.output
                &&& user_written(cur_pt(*old(k)), old(k).phys.mem(), final(k).phys.mem(), buf as int,
                    seq![old(k).console.input@[0]])
                &&& final(k).tm == old(k).tm
                &&& final(k).fs == old(k).fs
            },
            Some(File::Inode(i)) => if i.readable {
                let got = read_from(old(k).fs.data(i.inode_id), i.offset as int, len as int);
                &&& r == got.len()
                &&& user_written(cur_pt(*old(k)), old(k).phys.mem(), final(k).phys.mem(), buf as int, got)
                &&& only_fds_changed(*old(k), *final(k), old(k).cur().inner.fd_table@.update(fd as int,
                    Some(File::Inode(OSInode { offset: (i.offset + got.len()) as u64, ..i }))))
                &&& final(k).fs == old(k).fs
                &&& final(k).console == old(k).console
            } else {
                r == -1 && *final(k) == *old(k)
            },
            _ => r == -1 && *final(k) == *old(k),
        },
{
    let cur = k.tm.inner.current_task;
    if fd >= k.tm.inner.tasks[cur].inner.fd_table.len() {
        return -1;
    }
    match k.tm.inner.tasks[cur].inner.fd_table[fd] {
        Some(file) => {
            if !file.readable() {
                return -1;
            }
            proof {
                assert(k.cur().wf_in(&k.phys));
            }
            let ghost k0 = *k;
            match file {
                File::Stdin => {
                    let c = k.console.getchar();
                    let mut one: Vec<u8> = Vec::new();
                    one.push(c);
                    write_user_bytes(&k.tm.inner.tasks[cur].inner.memory_set, &mut k.phys, buf as u64, one.as_slice());
                    proof {
                        assert(one@ =~= seq![k0.console.input@[0]]);
                        lemma_wf_same_used(k.tm, &k0.phys, &k.phys);
                        lemma_wf_keeps_fds(k0, *k);
                    }
                    1
                },
                File::Inode(i) => {
                    proof {
                        assert(fds_valid(k.cur(), k.fs));
                        assert(k.cur().inner.fd_table@[fd as int] == Some(File::Inode(i)));
                    }
                    let got = k.fs.read_at(i.inode_id, i.offset, len);
                    proof {
                        assert(got@.len() <= len);
                    }
                    if got.len() > 0 {
                        write_user_bytes(&k.tm.inner.tasks[cur].inner.memory_set, &mut k.phys, buf as u64, got.as_slice());
                    }
                    proof {
                        lemma_wf_same_used(k.tm, &k0.phys, &k.phys);
                        lemma_wf_keeps_fds(k0, *k);
                    }
                    let ghost k1 = *k;
                    let n = got.len();
                    k.set_fd(fd, Some(File::Inode(OSInode { offset: i.offset + n as u64, ..i })));
                    proof {
                        assert(k1.cur() == k0.cur());
                    }
                    n as isize
                },
                File::Stdout => -1,
            }
        },
        None => -1,
    }
}

/// The status of inode `id` of file system `fs`: device 0, the inode's number, its kind,
/// and the number of links to it, truncated to 32 bits.
pub open spec fn stat_of(fs: FileSystem, id: u32) -> Stat {
    Stat {
        dev: 0,
        ino: id as u64,
        mode: if fs.is_dir(id) { StatMode::DIR } else { StatMode::FILE },
        nlink: link_count(fs.dir(), id) as u32,
    }
}

/// Writes the status of the regular file of descriptor `fd` at user address `st` of the
/// running task. Returns 0, or -1 when `fd` refers to nothing or to the console.
pub fn sys_fstat(k: &mut Kernel, fd: usize, st: usize) -> (r: isize)
    requires
        old(k).wf(),
        fd_entry(*old(k), fd) matches Some(File::Inode(_)) ==> va_mapped(cur_pt(*old(k)), va_of(st) as int),
    ensures
        final(k).wf(),
        final(k).tm == old(k).tm,
        final(k).fs == old(k).fs,
        final(k).console == old(k).console,
        match fd_entry(*old(k), fd) {
            Some(File::Inode(i)) => {
                &&& r == 0
                &&& final(k).phys.mem() == phys_written(old(k).phys.mem(), va_to_pa(cur_pt(*old(k)), va_of(st) as int),
                    stat_of(old(k).fs, i.inode_id).spec_bytes())
                &&& final(k).phys.used() == old(k).phys.used()
                &&& final(k).phys.num_frames() == old(k).phys.num_frames()
            },
            _ => r == -1 && *final(k) == *old(k),
        },
{
    let cur = k.tm.inner.current_task;
    if fd >= k.tm.inner.tasks[cur].inner.fd_table.len() {
        return -1;
    }
    match k.tm.inner.tasks[cur].inner.fd_table[fd] {
        Some(File::Inode(os_inode)) => {
            proof {
                assert(k.cur().wf_in(&k.phys));
                assert(fds_valid(k.cur(), k.fs));
                assert(k.cur().inner.fd_table@[fd as int] == Some(File::Inode(os_inode)));
            }
            let va = VirtAddr::from_usize(st as u64);
            let pa = match translate_va(&k.tm.inner.tasks[cur].inner.memory_set, &k.phys, va.0) {
                Some(pa) => pa,
                None => { assert(false); 0 },
            };
            let id = os_inode.inode_id;
            let link_count = k.fs.inode_count(id);
            let mode = if k.fs.inode_is_dir(id) { StatMode::DIR } else { StatMode::FILE };
            let stat = Stat::new(0, id as u64, mode, link_count as u32);
            let bytes = stat.to_bytes();
            let ghost k0 = *k;
            k.phys.write_bytes(pa, bytes.as_slice());
            proof {
                lemma_wf_same_used(k.tm, &k0.phys, &k.phys);
                lemma_wf_keeps_fds(k0, *k);
            }
            0
        },
        _ => -1,
    }
}

/// Machine `k1` is what linking name `n` to the file named `o` leaves of machine `k0`,
/// and `r` is what it returns.
pub open spec fn linkat_result(k0: Kernel, k1: Kernel, o: Seq<u8>, n: Seq<u8>, r: isize) -> bool {
    let dir = k0.fs.dir();
    &&& k1.tm == k0.tm
    &&& k1.phys == k0.phys
    &&& k1.console == k0.console
    &&& k1.layout == k0.layout
    &&& match find_index(dir, o) {
        Some(i) => {
            &&& r == (if find_index(dir, n).is_none() { 0isize } else { -1isize })
            &&& k1.fs.dir() == (if r == 0 { dir.push((n, dir[i].1)) } else { dir })
            &&& k1.fs.num_inodes() == k0.fs.num_inodes()
            &&& forall|j: u32| #[trigger] k1.fs.data(j) == k0.fs.data(j)
            &&& forall|j: u32| #[trigger] k1.fs.is_dir(j) == k0.fs.is_dir(j)
        },
        None => r == -1 && k1.fs == k0.fs,
    }
}

/// Machine `k1` is what removing name `nm` leaves of machine `k0`, and `r` is what it
/// returns.
pub open spec fn unlinkat_result(k0: Kernel, k1: Kernel, nm: Seq<u8>, r: isize) -> bool {
    let dir = k0.fs.dir();
    &&& k1.tm == k0.tm
    &&& k1.phys == k0.phys
    &&& k1.console == k0.console
    &&& k1.layout == k0.layout
    &&& match find_index(dir, nm) {
        Some(i) => {
            let id = dir[i].1;
            &&& r == 0
            &&& k1.fs.dir() == dir.remove(i)
            &&& k1.fs.num_inodes() == k0.fs.num_inodes()
            &&& k1.fs.data(id) == (if link_count(dir, id) == 1 { Seq::<u8>::empty() } else { k0.fs.data(id) })
            &&& forall|j: u32| j < k0.fs.num_inodes() && j != id ==> #[trigger] k1.fs.data(j) == k0.fs.data(j)
            &&& forall|j: u32| j < k0.fs.num_inodes() ==> #[trigger] k1.fs.is_dir(j) == k0.fs.is_dir(j)
        },
        None => r == -1 && k1.fs == k0.fs,
    }
}

/// Links the name held at user address `new_name` to the file named at `old_name`.
/// Returns 0, or -1 when no file has the old name or the new name is taken.
pub fn sys_linkat(k: &mut Kernel, old_name: usize, new_name: usize) -> (r: isize)
    requires
        old(k).wf(),
        has_c_str(cur_pt(*old(k)), old(k).phys.mem(), va_of(old_name) as int),
        has_c_str(cur_pt(*old(k)), old(k).phys.mem(), va_of(new_name) as int),
    ensures
        final(k).wf(),
        linkat_result(*old(k), *final(k),
            c_str(cur_pt(*old(k)), old(k).phys.mem(), va_of(old_name) as int),
            c_str(cur_pt(*old(k)), old(k).phys.mem(), va_of(new_name) as int), r),
{
    let cur = k.tm.inner.current_task;
    proof {
        assert(k.cur().wf_in(&k.phys));
    }
    let o = translated_str(&k.tm.inner.tasks[cur].inner.memory_set, &k.phys, VirtAddr::from_usize(old_name as u64).0);
    let n = translated_str(&k.tm.inner.tasks[cur].inner.memory_set, &k.phys, VirtAddr::from_usize(new_name as u64).0);
    let ghost k0 = *k;
    proof {
        assert(0u32 & 0x200u32 == 0) by (bit_vector);
        assert(0u32 & 0x400u32 == 0) by (bit_vector);
    }
    match open_file(&mut k.fs, o.as_slice(), OpenFlags { bits: 0 }) {
        Some(old_inode) => {
            proof {
                let i = find_index(k0.fs.dir(), o@).unwrap();
                assert(k0.fs.dir()[i].1 < k0.fs.num_inodes());
            }
            if k.fs.create_link(old_inode.inode_id, n.as_slice()) {
                proof { lemma_wf_keeps_fds(k0, *k); }
                0
            } else {
                proof { lemma_wf_keeps_fds(k0, *k); }
                -1
            }
        },
        None => -1,
    }
}

/// Removes the name held at user address `name`; the file it named is emptied when that
/// was its last link. Returns 0, or -1 when no file has that name.
pub fn sys_unlinkat(k: &mut Kernel, name: usize) -> (r: isize)
    requires
        old(k).wf(),
        has_c_str(cur_pt(*old(k)), old(k).phys.mem(), va_of(name) as int),
    ensures
        final(k).wf(),
        unlinkat_result(*old(k), *final(k), c_str(cur_pt(*old(k)), old(k).phys.mem(), va_of(name) as int), r),
{
    let cur = k.tm.inner.current_task;
    proof {
        assert(k.cur().wf_in(&k.phys));
    }
    let nm = translated_str(&k.tm.inner.tasks[cur].inner.memory_set, &k.phys, VirtAddr::from_usize(name as u64).0);
    let ghost k0 = *k;
    proof {
        assert(0u32 & 0x200u32 == 0) by (bit_vector);
        assert(0u32 & 0x400u32 == 0) by (bit_vector);
    }
    match open_file(&mut k.fs, nm.as_slice(), OpenFlags { bits: 0 }) {
        Some(os_inode) => {
            let id = os_inode.inode_id;
            proof {
                let i = find_index(k0.fs.dir(), nm@).unwrap();
                assert(k0.fs.dir()[i].1 < k0.fs.num_inodes());
            }
            if k.fs.inode_count(id) == 1 {
                k.fs.clear(id);
            }
            let removed = k.fs.remove_link(nm.as_slice());
            proof {
                lemma_wf_keeps_fds(k0, *k);
            }
            if removed { 0 } else { -1 }
        },
        None => -1,
    }
}

} // verus!
