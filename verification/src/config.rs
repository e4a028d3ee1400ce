use vstd::prelude::*;

verus! {

/// Size of a page in bytes.
pub const PAGE_SIZE: usize = 4096;

/// Number of bits of the offset inside a page.
pub const PAGE_SIZE_BITS: usize = 12;

/// Number of distinct syscall ids whose calls are counted.
pub const MAX_SYSCALL_ID: usize = 500;

/// The stride scale: a task of priority `p` advances its stride by `BIG_STRIDE / p` per slice.
pub const BIG_STRIDE: u8 = 255;

/// Size of each user stack in bytes.
pub const USER_STACK_SIZE: usize = 8192;

/// Size of each kernel stack in bytes.
pub const KERNEL_STACK_SIZE: usize = 8192;

} // verus!
