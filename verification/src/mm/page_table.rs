//! Page-table entries, their flags and the permissions of a mapped area.
use vstd::prelude::*;

verus! {

/// The flags of a page-table entry that the kernel reads or sets.
#[derive(Clone, Copy, Debug, PartialEq, Eq)]
pub struct PTEFlags {
    /// the entry is valid
    pub v: bool,
    /// the page may be read
    pub r: bool,
    /// the page may be written
    pub w: bool,
    /// the page may be executed
    pub x: bool,
    /// the page is reachable from user mode
    pub u: bool,
}

/// A leaf page-table entry: the frame a virtual page is mapped to, and its flags.
#[derive(Clone, Copy, Debug, PartialEq, Eq)]
pub struct PageTableEntry {
    /// the physical page number of the frame
    pub ppn: u64,
    /// the flags of the mapping
    pub flags: PTEFlags,
}

/// The access rights of a mapped area, as user code sees them.
#[derive(Clone, Copy, Debug, PartialEq, Eq)]
pub struct MapPermission {
    /// readable
    pub r: bool,
    /// writable
    pub w: bool,
    /// executable
    pub x: bool,
    /// accessible from user mode
    pub u: bool,
}

impl MapPermission {
    /// The flags of a valid page-table entry that grants exactly these rights.
    pub open spec fn spec_pte_flags(self) -> PTEFlags {
        PTEFlags { v: true, r: self.r, w: self.w, x: self.x, u: self.u }
    }

    /// The flags of a valid page-table entry that grants exactly these rights.
    pub fn pte_flags(&self) -> (r: PTEFlags)
        ensures
            r == self.spec_pte_flags(),
    {
        PTEFlags { v: true, r: self.r, w: self.w, x: self.x, u: self.u }
    }

    /// The user-mode permission whose read, write and execute rights are bits 0, 1 and 2
    /// of `port`, the encoding of the `mmap` system call.
    pub open spec fn spec_from_port(port: usize) -> MapPermission {
        MapPermission {
            r: port % 2 == 1,
            w: (port / 2) % 2 == 1,
            x: (port / 4) % 2 == 1,
            u: true,
        }
    }

    /// The user-mode permission whose read, write and execute rights are bits 0, 1 and 2
    /// of `port`, the encoding of the `mmap` system call.
    pub fn from_port(port: usize) -> (r: MapPermission)
        ensures
            r == Self::spec_from_port(port),
    {
        assert(port & 1 == port % 2) by (bit_vector);
        assert(port & 2 != 0 <==> (port / 2) % 2 == 1) by (bit_vector);
        assert(port & 4 != 0 <==> (port / 4) % 2 == 1) by (bit_vector);
        MapPermission { r: port & 1 == 1, w: port & 2 != 0, x: port & 4 != 0, u: true }
    }
}

} // verus!
