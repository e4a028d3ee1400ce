# rcore_task

The task-management and system-call layer of a small RISC-V teaching kernel, written in
Verus: every function of the library carries a contract that Verus proves.

The kernel's hardware and global state are values here: physical memory is a byte array
with a frame allocator (`mm::frame`), an address space is a page table from virtual pages
to frames (`mm::memory_set`), the file system is a flat directory of inodes held in memory
(`fs::inode`), and the console is a queue of typed bytes and a log of written ones
(`fs::file`). `kernel::Kernel` gathers them with the task manager (`task::manager`), and the
system calls (`syscall::process`, `syscall::fs`) are functions from a machine to a machine.

Layout:

- `src/mm`: addresses, page-table entries, physical frames, address spaces, user-memory
  access and program loading.
- `src/task`: task control blocks, strides, process identifiers and kernel stacks, task
  contexts, and the round-robin task manager.
- `src/fs`: open flags, open files, the console, the in-memory file system and file status.
- `src/syscall`: the process and file system calls.
- `src/properties.rs`: laws that relate several operations (map then unmap, `mmap` then
  `munmap`, unmapping twice, write then read, link then unlink, link then stat, open then
  close, closing twice, grow then shrink the heap, counting system calls, the stride order,
  priorities and passes, distinct process identifiers, round-robin scheduling).
- The trap context of a task lives in its trap-context frame (`trap.rs`), word by word as
  the trap entry code reads it.
- `tests/`: tests of the library on concrete machines.
- `app/`: the host layer: the global machine behind a lock, the console on the host's
  standard streams, the clock, and the checks that callers of the library owe.
