//! Open flags, the kinds of file a task may hold, the console, and opening files.
use vstd::prelude::*;
use crate::fs::inode::{FileSystem, find_index};

verus! {

/// The flags of the `open` system call.
#[derive(Clone, Copy, Debug, PartialEq, Eq)]
pub struct OpenFlags {
    /// the flag bits
    pub bits: u32,
}

/// The flag bits `open` knows: write-only (bit 0), read-write (bit 1), create (bit 9)
/// and truncate (bit 10).
pub const OPEN_FLAGS_MASK: u32 = 0x603;

impl OpenFlags {
    /// Whether `bits` holds only known flags.
    pub open spec fn valid_bits(bits: u32) -> bool {
        bits & !OPEN_FLAGS_MASK == 0
    }

    /// The flags `bits`, or `None` when `bits` holds an unknown flag.
    pub fn from_bits(bits: u32) -> (r: Option<OpenFlags>)
        ensures
            match r {
                Some(f) => Self::valid_bits(bits) && f.bits == bits,
                None => !Self::valid_bits(bits),
            },
    {
        if bits & !OPEN_FLAGS_MASK == 0 {
            Some(OpenFlags { bits })
        } else {
            None
        }
    }

    /// Whether the create flag is set.
    pub open spec fn spec_create(self) -> bool {
        self.bits & 0x200 != 0
    }

    /// Whether the truncate flag is set.
    pub open spec fn spec_trunc(self) -> bool {
        self.bits & 0x400 != 0
    }

    /// Whether the file opened with these flags may be read and may be written: read-only
    /// when no flag is set, write-only when the write-only flag is set, and both otherwise.
    pub open spec fn spec_read_write(self) -> (bool, bool) {
        if self.bits == 0 {
            (true, false)
        } else if self.bits & 1 != 0 {
            (false, true)
        } else {
            (true, true)
        }
    }

    /// Whether the file opened with these flags may be read and may be written.
    pub fn read_write(&self) -> (r: (bool, bool))
        ensures
            r == self.spec_read_write(),
    {
        if self.bits == 0 {
            (true, false)
        } else if self.bits & 1 != 0 {
            (false, true)
        } else {
            (true, true)
        }
    }

    /// Whether the create flag is set.
    pub fn create(&self) -> (r: bool)
        ensures
            r == self.spec_create(),
    {
        self.bits & 0x200 != 0
    }

    /// Whether the truncate flag is set.
    pub fn trunc(&self) -> (r: bool)
        ensures
            r == self.spec_trunc(),
    {
        self.bits & 0x400 != 0
    }
}

/// An open regular file: its rights, its inode and the position of the next read or write.
#[derive(Clone, Copy, Debug, PartialEq, Eq)]
pub struct OSInode {
    /// the file may be read
    pub readable: bool,
    /// the file may be written
    pub writable: bool,
    /// the inode of the file
    pub inode_id: u32,
    /// the position of the next read or write
    pub offset: u64,
}

/// What a file descriptor refers to.
#[derive(Clone, Copy, Debug, PartialEq, Eq)]
pub enum File {
    /// the console's input
    Stdin,
    /// the console's output
    Stdout,
    /// a regular file
    Inode(OSInode),
}

impl File {
    /// Whether the file may be read.
    pub open spec fn spec_readable(self) -> bool {
        match self {
            File::Stdin => true,
            File::Stdout => false,
            File::Inode(i) => i.readable,
        }
    }

    /// Whether the file may be written.
    pub open spec fn spec_writable(self) -> bool {
        match self {
            File::Stdin => false,
            File::Stdout => true,
            File::Inode(i) => i.writable,
        }
    }

    /// Whether the file may be read.
    pub fn readable(&self) -> (r: bool)
        ensures
            r == self.spec_readable(),
    {
        match self {
            File::Stdin => true,
            File::Stdout => false,
            File::Inode(i) => i.readable,
        }
    }

    /// Whether the file may be written.
    pub fn writable(&self) -> (r: bool)
        ensures
            r == self.spec_writable(),
    {
        match self {
            File::Stdin => false,
            File::Stdout => true,
            File::Inode(i) => i.writable,
        }
    }
}

/// The console: the bytes typed and not read yet, and the bytes written.
pub struct Console {
    /// bytes typed, oldest first
    pub input: Vec<u8>,
    /// bytes written, oldest first
    pub output: Vec<u8>,
}

impl Console {
    /// A console with nothing typed and nothing written.
    pub fn new() -> (r: Console)
        ensures
            r.input@ == Seq::<u8>::empty(),
            r.output@ == Seq::<u8>::empty(),
    {
        Console { input: Vec::new(), output: Vec::new() }
    }

    /// Writes `data` to the console.
    pub fn write(&mut self, data: &[u8])
        ensures
            final(self).output@ == old(self).output@ + data@,
            final(self).input == old(self).input,
    {
        let mut i: usize = 0;
        while i < data.len()
            invariant
                i <= data@.len(),
                self.output@ == old(self).output@ + data@.take(i as int),
                self.input == old(self).input,
            decreases data@.len() - i,
        {
            self.output.push(data[i]);
            i = i + 1;
            assert(self.output@ =~= old(self).output@ + data@.take(i as int));
        }
        assert(data@.take(data@.len() as int) =~= data@);
    }

    /// Takes the oldest byte typed.
    pub fn getchar(&mut self) -> (r: u8)
        requires
            old(self).input@.len() > 0,
        ensures
            r == old(self).input@[0],
            final(self).input@ == old(self).input@.drop_first(),
            final(self).output == old(self).output,
    {
        self.input.remove(0)
    }
}

/// The outcome of opening `name` with `flags` on file system `fs`, by inode: with the
/// create flag, the inode `name` links to, or else a new one; without it, the inode
/// `name` links to, if any.
pub open spec fn open_target(fs: FileSystem, name: Seq<u8>, flags: OpenFlags) -> Option<u32> {
    match find_index(fs.dir(), name) {
        Some(i) => Some(fs.dir()[i].1),
        None => if flags.spec_create() && fs.num_inodes() < u32::MAX {
            Some(fs.num_inodes() as u32)
        } else {
            None
        },
    }
}

/// The open file that opening inode `id` with `flags` yields: its rights from the flags,
/// positioned at the start.
pub open spec fn opened(flags: OpenFlags, id: u32) -> OSInode {
    OSInode { readable: flags.spec_read_write().0, writable: flags.spec_read_write().1, inode_id: id, offset: 0 }
}

/// File system `fs1` is what opening `name` with `flags` on `fs0` leaves, having opened
/// inode `id`: emptied when it existed and the create or truncate flag is set, newly
/// linked under `name` and empty when it did not.
pub open spec fn open_effect(fs0: FileSystem, fs1: FileSystem, name: Seq<u8>, flags: OpenFlags, id: u32) -> bool {
    &&& id < fs1.num_inodes()
    &&& if find_index(fs0.dir(), name).is_some() {
        &&& fs1.dir() == fs0.dir()
        &&& fs1.num_inodes() == fs0.num_inodes()
        &&& fs1.data(id) == if flags.spec_create() || flags.spec_trunc() { Seq::<u8>::empty() } else { fs0.data(id) }
    } else {
        &&& fs1.dir() == fs0.dir().push((name, id))
        &&& fs1.num_inodes() == fs0.num_inodes() + 1
        &&& fs1.data(id) == Seq::<u8>::empty()
        &&& !fs1.is_dir(id)
    }
    &&& forall|j: u32| j < fs0.num_inodes() && j != id ==> #[trigger] fs1.data(j) == fs0.data(j)
    &&& forall|j: u32| j < fs0.num_inodes() ==> #[trigger] fs1.is_dir(j) == fs0.is_dir(j)
}

/// Opens `name` with `flags`: with the create flag, empties the file `name` links to,
/// or else creates it; without it, opens the file `name` links to, if any, emptying it
/// when the truncate flag is set.
pub fn open_file(fs: &mut FileSystem, name: &[u8], flags: OpenFlags) -> (r: Option<OSInode>)
    requires
        old(fs).wf(),
    ensures
        final(fs).wf(),
        match open_target(*old(fs), name@, flags) {
            Some(id) => r == Some(opened(flags, id)) && open_effect(*old(fs), *final(fs), name@, flags, id),
            None => r.is_none() && *final(fs) == *old(fs),
        },
        !flags.spec_create() && !flags.spec_trunc() ==> *final(fs) == *old(fs),
{
    let (readable, writable) = flags.read_write();
    if flags.create() {
        match fs.find(name) {
            Some(id) => {
                proof {
                    let i = find_index(old(fs).dir(), name@).unwrap();
                    assert(old(fs).dir()[i].1 < old(fs).num_inodes());
                }
                fs.clear(id);
                Some(OSInode { readable, writable, inode_id: id, offset: 0 })
            },
            None => match fs.create(name) {
                Some(id) => Some(OSInode { readable, writable, inode_id: id, offset: 0 }),
                None => None,
            },
        }
    } else {
        match fs.find(name) {
            Some(id) => {
                proof {
                    let i = find_index(old(fs).dir(), name@).unwrap();
                    assert(old(fs).dir()[i].1 < old(fs).num_inodes());
                }
                if flags.trunc() {
                    fs.clear(id);
                }
                Some(OSInode { readable, writable, inode_id: id, offset: 0 })
            },
            None => None,
        }
    }
}

} // verus!
