//! File status, and the byte layout in which it reaches user memory.
use vstd::prelude::*;

verus! {

/// The kind of a file, as `fstat` reports it.
#[derive(Clone, Copy, Debug, PartialEq, Eq)]
pub enum StatMode {
    /// no kind
    NULL,
    /// a directory
    DIR,
    /// a regular file
    FILE,
}

impl StatMode {
    /// The bits that stand for this kind.
    pub open spec fn spec_bits(self) -> u32 {
        match self {
            StatMode::NULL => 0,
            StatMode::DIR => 0o040000,
            StatMode::FILE => 0o100000,
        }
    }

    /// The bits that stand for this kind.
    pub fn bits(&self) -> (r: u32)
        ensures
            r == self.spec_bits(),
    {
        match self {
            StatMode::NULL => 0,
            StatMode::DIR => 0o040000,
            StatMode::FILE => 0o100000,
        }
    }
}

/// The status of a file.
#[derive(Clone, Copy, Debug)]
pub struct Stat {
    /// the device holding the file
    pub dev: u64,
    /// the inode number
    pub ino: u64,
    /// the kind of file
    pub mode: StatMode,
    /// the number of hard links to the file
    pub nlink: u32,
}

/// The size of a `Stat` in user memory: two 8-byte fields, two 4-byte fields and 56
/// bytes of padding.
pub const STAT_SIZE: usize = 80;

/// The `n` low bytes of `x`, least significant first.
pub open spec fn le_bytes(x: nat, n: nat) -> Seq<u8>
    decreases n,
{
    if n == 0 {
        Seq::empty()
    } else {
        seq![(x % 256) as u8] + le_bytes(x / 256, (n - 1) as nat)
    }
}

/// The little-endian encoding of `x` in `n` bytes has `n` bytes.
pub proof fn lemma_le_bytes_len(x: nat, n: nat)
    ensures
        le_bytes(x, n).len() == n,
    decreases n,
{
    if n > 0 {
        lemma_le_bytes_len(x / 256, (n - 1) as nat);
    }
}

/// Appends the `n` low bytes of `x` to `out`, least significant first.
pub fn push_le_bytes(out: &mut Vec<u8>, x: u64, n: usize)
    requires
        n <= 8,
    ensures
        final(out)@ == old(out)@ + le_bytes(x as nat, n as nat),
{
    let mut v = x;
    let mut k: usize = 0;
    while k < n
        invariant
            k <= n,
            out@ + le_bytes(v as nat, (n - k) as nat) == old(out)@ + le_bytes(x as nat, n as nat),
        decreases n - k,
    {
        let ghost before = out@;
        out.push((v % 256) as u8);
        proof {
            assert(le_bytes(v as nat, (n - k) as nat) == seq![(v % 256) as u8] + le_bytes((v / 256) as nat, (n - k - 1) as nat));
            assert(out@ + le_bytes((v / 256) as nat, (n - k - 1) as nat) =~= before + le_bytes(v as nat, (n - k) as nat));
        }
        v = v / 256;
        k = k + 1;
    }
    assert(le_bytes(v as nat, 0) =~= Seq::<u8>::empty());
    assert(out@ =~= out@ + le_bytes(v as nat, 0));
}

impl Stat {
    /// A status for inode `ino` of kind `mode` with `nlink` links.
    pub fn new(dev: u64, ino: u64, mode: StatMode, nlink: u32) -> (r: Stat)
        ensures
            r.dev == dev,
            r.ino == ino,
            r.mode == mode,
            r.nlink == nlink,
    {
        Stat { dev, ino, mode, nlink }
    }

    /// The bytes of this status as user memory holds it.
    pub open spec fn spec_bytes(self) -> Seq<u8> {
        le_bytes(self.dev as nat, 8) + le_bytes(self.ino as nat, 8) + le_bytes(self.mode.spec_bits() as nat, 4)
            + le_bytes(self.nlink as nat, 4) + Seq::new(56, |i: int| 0u8)
    }

    /// The bytes of this status as user memory holds it.
    pub fn to_bytes(&self) -> (r: Vec<u8>)
        ensures
            r@ == self.spec_bytes(),
    {
        let mut out: Vec<u8> = Vec::new();
        push_le_bytes(&mut out, self.dev, 8);
        push_le_bytes(&mut out, self.ino, 8);
        push_le_bytes(&mut out, self.mode.bits() as u64, 4);
        push_le_bytes(&mut out, self.nlink as u64, 4);
        let ghost head = out@;
        let mut i: usize = 0;
        while i < 56
            invariant
                i <= 56,
                out@ == head + Seq::new(i as nat, |j: int| 0u8),
            decreases 56 - i,
        {
            out.push(0u8);
            i = i + 1;
            assert(out@ =~= head + Seq::new(i as nat, |j: int| 0u8));
        }
        out
    }
}

} // verus!
