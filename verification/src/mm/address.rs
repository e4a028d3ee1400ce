//! Virtual and physical addresses of the Sv39 paging scheme.
use vstd::prelude::*;
use crate::config::PAGE_SIZE;

verus! {

/// Number of significant bits of an Sv39 virtual address.
pub const VA_WIDTH_SV39: u64 = 39;

/// Number of virtual pages of the Sv39 address space (`2^27`).
pub const VPN_LIMIT: u64 = 0x800_0000;

/// Number of virtual addresses of the Sv39 address space (`2^39`).
pub const VA_LIMIT: u64 = 0x80_0000_0000;

/// A virtual address.
#[derive(Clone, Copy, Debug, PartialEq, Eq)]
pub struct VirtAddr(pub u64);

/// A virtual page number.
#[derive(Clone, Copy, Debug, PartialEq, Eq)]
pub struct VirtPageNum(pub u64);

/// A physical page number.
#[derive(Clone, Copy, Debug, PartialEq, Eq)]
pub struct PhysPageNum(pub u64);

/// A physical address.
#[derive(Clone, Copy, Debug, PartialEq, Eq)]
pub struct PhysAddr(pub u64);

/// The page holding virtual address `va`.
pub open spec fn page_of(va: int) -> int {
    va / (PAGE_SIZE as int)
}

/// The first page at or above virtual address `va`.
pub open spec fn page_ceil(va: int) -> int {
    (va + PAGE_SIZE - 1) / (PAGE_SIZE as int)
}

/// Address `j` lies in page `p` exactly when it lies between the page's first address
/// and the next page's.
pub proof fn lemma_page_of(j: int, p: int)
    requires
        0 <= j,
        0 <= p,
    ensures
        (p * PAGE_SIZE <= j < p * PAGE_SIZE + PAGE_SIZE) == (j / (PAGE_SIZE as int) == p),
{
    assert((p * 4096 <= j < p * 4096 + 4096) == (j / 4096 == p)) by (nonlinear_arith)
        requires 0 <= j, 0 <= p;
}

impl VirtAddr {
    /// The virtual address made of the low 39 bits of `v`.
    pub fn from_usize(v: u64) -> (r: VirtAddr)
        ensures
            r.0 == v % VA_LIMIT,
    {
        assert(v & 0x7f_ffff_ffff == v % 0x80_0000_0000) by (bit_vector);
        VirtAddr(v & 0x7f_ffff_ffff)
    }

    /// The page that holds this address.
    pub fn floor(&self) -> (r: VirtPageNum)
        ensures
            r.0 == page_of(self.0 as int),
    {
        VirtPageNum(self.0 / (PAGE_SIZE as u64))
    }

    /// The first page boundary at or above this address, as a page number.
    pub fn ceil(&self) -> (r: VirtPageNum)
        ensures
            r.0 == page_ceil(self.0 as int),
    {
        if self.0 % (PAGE_SIZE as u64) == 0 {
            VirtPageNum(self.0 / (PAGE_SIZE as u64))
        } else {
            VirtPageNum(self.0 / (PAGE_SIZE as u64) + 1)
        }
    }

    /// The offset of this address inside its page.
    pub fn page_offset(&self) -> (r: u64)
        ensures
            r == self.0 % (PAGE_SIZE as u64),
    {
        let v = self.0;
        assert(v & 0xfff == v % 0x1000) by (bit_vector);
        v & 0xfff
    }

    /// Whether this address is the first of its page.
    pub fn aligned(&self) -> (r: bool)
        ensures
            r == (self.0 % (PAGE_SIZE as u64) == 0),
    {
        self.page_offset() == 0
    }
}

impl VirtPageNum {
    /// The first virtual address of this page.
    pub fn to_addr(&self) -> (r: VirtAddr)
        requires
            self.0 <= VPN_LIMIT,
        ensures
            r.0 == self.0 * PAGE_SIZE,
    {
        VirtAddr(self.0 * (PAGE_SIZE as u64))
    }
}

impl PhysPageNum {
    /// The first physical address of this frame.
    pub fn to_addr(&self) -> (r: PhysAddr)
        requires
            self.0 * PAGE_SIZE <= u64::MAX,
        ensures
            r.0 == self.0 * PAGE_SIZE,
    {
        PhysAddr(self.0 * (PAGE_SIZE as u64))
    }
}

} // verus!
