//! A flat file system: one root directory of named links to inodes.
use vstd::prelude::*;

verus! {

/// A directory entry: a name and the inode it links to.
pub struct DirEntry {
    /// the name of the link
    pub name: Vec<u8>,
    /// the inode it links to
    pub inode_id: u32,
}

/// An inode: whether it is a directory, and its bytes.
pub struct InodeData {
    /// whether the inode is a directory
    pub is_dir: bool,
    /// the contents of the inode
    pub data: Vec<u8>,
}

/// The file system: the root directory, inode 0, and the entries that link names in it
/// to inodes.
pub struct FileSystem {
    entries: Vec<DirEntry>,
    inodes: Vec<InodeData>,
}

/// The first entry of `dir` whose name is `name`, as its index.
pub open spec fn find_index(dir: Seq<(Seq<u8>, u32)>, name: Seq<u8>) -> Option<int> {
    if exists|i: int| 0 <= i < dir.len() && (#[trigger] dir[i]).0 == name {
        Some(choose|i: int| 0 <= i < dir.len() && (#[trigger] dir[i]).0 == name && forall|j: int|
            0 <= j < i ==> (#[trigger] dir[j]).0 != name)
    } else {
        None
    }
}

/// The number of entries of `dir` that link to inode `id`.
pub open spec fn link_count(dir: Seq<(Seq<u8>, u32)>, id: u32) -> nat
    decreases dir.len(),
{
    if dir.len() == 0 {
        0
    } else {
        link_count(dir.drop_last(), id) + (if dir.last().1 == id { 1nat } else { 0nat })
    }
}

/// The largest size of a file in bytes.
pub const MAX_FILE_SIZE: u64 = 0x7fff_ffff;

/// The contents `data` after writing `buf` at `offset`, zero-filling any gap.
pub open spec fn written_at(data: Seq<u8>, offset: int, buf: Seq<u8>) -> Seq<u8> {
    let len = if offset + buf.len() > data.len() { offset + buf.len() } else { data.len() as int };
    Seq::new(len as nat, |i: int|
        if offset <= i < offset + buf.len() { buf[i - offset] } else if i < data.len() { data[i] } else { 0u8 })
}

/// The bytes of `data` from `offset` on, at most `len` of them.
pub open spec fn read_from(data: Seq<u8>, offset: int, len: int) -> Seq<u8> {
    if offset >= data.len() {
        Seq::empty()
    } else if offset + len <= data.len() {
        data.subrange(offset, offset + len)
    } else {
        data.subrange(offset, data.len() as int)
    }
}

/// Whether two byte strings are equal.
pub fn bytes_eq(a: &[u8], b: &[u8]) -> (r: bool)
    ensures
        r == (a@ == b@),
{
    if a.len() != b.len() {
        return false;
    }
    let mut i: usize = 0;
    while i < a.len()
        invariant
            a@.len() == b@.len(),
            i <= a@.len(),
            forall|j: int| 0 <= j < i ==> a@[j] == b@[j],
        decreases a@.len() - i,
    {
        if a[i] != b[i] {
            return false;
        }
        i = i + 1;
    }
    assert(a@ =~= b@);
    true
}

impl FileSystem {
    /// The root directory: each entry's name and inode.
    pub closed spec fn dir(&self) -> Seq<(Seq<u8>, u32)> {
        self.entries@.map(|i: int, e: DirEntry| (e.name@, e.inode_id))
    }

    /// The number of inodes.
    pub closed spec fn num_inodes(&self) -> nat {
        self.inodes@.len()
    }

    /// The contents of inode `id`.
    pub closed spec fn data(&self, id: u32) -> Seq<u8> {
        self.inodes@[id as int].data@
    }

    /// Whether inode `id` is a directory.
    pub closed spec fn is_dir(&self, id: u32) -> bool {
        self.inodes@[id as int].is_dir
    }

    /// Entries link to existing inodes, names are distinct, inode 0 is the root directory,
    /// inode numbers fit in 32 bits and no inode exceeds the largest file size.
    pub open spec fn wf(&self) -> bool {
        &&& 0 < self.num_inodes() <= u32::MAX
        &&& self.is_dir(0)
        &&& forall|i: int| 0 <= i < self.dir().len() ==> (#[trigger] self.dir()[i]).1 < self.num_inodes()
        &&& forall|i: int, j: int| 0 <= i < j < self.dir().len() ==> (#[trigger] self.dir()[i]).0 != (#[trigger] self.dir()[j]).0
        &&& forall|j: u32| j < self.num_inodes() ==> (#[trigger] self.data(j)).len() <= MAX_FILE_SIZE
    }

    /// An empty file system: the root directory and no entry.
    pub fn new() -> (r: FileSystem)
        ensures
            r.wf(),
            r.dir() == Seq::<(Seq<u8>, u32)>::empty(),
            r.num_inodes() == 1,
            r.data(0) == Seq::<u8>::empty(),
    {
        let mut inodes: Vec<InodeData> = Vec::new();
        inodes.push(InodeData { is_dir: true, data: Vec::new() });
        let r = FileSystem { entries: Vec::new(), inodes };
        assert(r.dir() =~= Seq::<(Seq<u8>, u32)>::empty());
        r
    }

    /// The inode that `name` links to, if any.
    pub fn find(&self, name: &[u8]) -> (r: Option<u32>)
        requires
            self.wf(),
        ensures
            match find_index(self.dir(), name@) {
                Some(i) => r == Some(self.dir()[i].1),
                None => r.is_none(),
            },
    {
        let mut i: usize = 0;
        while i < self.entries.len()
            invariant
                i <= self.entries@.len(),
                self.dir().len() == self.entries@.len(),
                forall|j: int| 0 <= j < i ==> (#[trigger] self.dir()[j]).0 != name@,
            decreases self.entries@.len() - i,
        {
            let e = &self.entries[i];
            if bytes_eq(e.name.as_slice(), name) {
                proof {
                    assert(self.dir()[i as int].0 == name@);
                    let k = find_index(self.dir(), name@).unwrap();
                    assert(k == i as int) by {
                        if k < i as int { assert(self.dir()[k].0 != name@); }
                        if k > i as int { assert(self.dir()[i as int].0 == name@); }
                    }
                }
                return Some(e.inode_id);
            }
            i = i + 1;
        }
        None
    }

    /// Whether inode `id` is a directory.
    pub fn inode_is_dir(&self, id: u32) -> (r: bool)
        requires
            id < self.num_inodes(),
        ensures
            r == self.is_dir(id),
    {
        self.inodes[id as usize].is_dir
    }

    /// The size of inode `id` in bytes.
    pub fn size(&self, id: u32) -> (r: usize)
        requires
            id < self.num_inodes(),
        ensures
            r == self.data(id).len(),
    {
        self.inodes[id as usize].data.len()
    }

    /// Creates an empty regular file linked under `name`, which links to nothing yet.
    /// Returns its inode, or `None` when inode numbers are exhausted.
    pub fn create(&mut self, name: &[u8]) -> (r: Option<u32>)
        requires
            old(self).wf(),
            find_index(old(self).dir(), name@).is_none(),
        ensures
            final(self).wf(),
            match r {
                Some(id) => {
                    &&& id == old(self).num_inodes()
                    &&& final(self).num_inodes() == old(self).num_inodes() + 1
                    &&& final(self).dir() == old(self).dir().push((name@, id))
                    &&& final(self).data(id) == Seq::<u8>::empty()
                    &&& !final(self).is_dir(id)
                    &&& forall|j: u32| j < old(self).num_inodes() ==> #[trigger] final(self).data(j) == old(self).data(j)
                    &&& forall|j: u32| j < old(self).num_inodes() ==> #[trigger] final(self).is_dir(j) == old(self).is_dir(j)
                },
                None => *final(self) == *old(self) && old(self).num_inodes() == u32::MAX,
            },
    {
        let n = self.inodes.len();
        if n as u64 >= u32::MAX as u64 {
            return None;
        }
        let id = n as u32;
        self.inodes.push(InodeData { is_dir: false, data: Vec::new() });
        let mut nm: Vec<u8> = Vec::new();
        let mut k: usize = 0;
        while k < name.len()
            invariant
                k <= name@.len(),
                nm@ == name@.take(k as int),
            decreases name@.len() - k,
        {
            nm.push(name[k]);
            k = k + 1;
            assert(nm@ =~= name@.take(k as int));
        }
        assert(name@.take(name@.len() as int) =~= name@);
        self.entries.push(DirEntry { name: nm, inode_id: id });
        proof {
            assert(self.dir() =~= old(self).dir().push((name@, id)));
            assert forall|i: int, j: int| 0 <= i < j < self.dir().len() implies (#[trigger] self.dir()[i]).0 != (#[trigger] self.dir()[j]).0 by {
                if j == self.dir().len() - 1 {
                    assert(old(self).dir()[i].0 != name@);
                }
            }
            assert forall|j: u32| j < old(self).num_inodes() implies #[trigger] self.data(j) == old(self).data(j) by {
                assert(self.inodes@[j as int] == old(self).inodes@[j as int]);
            }
            assert forall|j: u32| j < old(self).num_inodes() implies #[trigger] self.is_dir(j) == old(self).is_dir(j) by {
                assert(self.inodes@[j as int] == old(self).inodes@[j as int]);
            }
        }
        Some(id)
    }

    /// Empties inode `id`.
    pub fn clear(&mut self, id: u32)
        requires
            old(self).wf(),
            id < old(self).num_inodes(),
        ensures
            final(self).wf(),
            final(self).dir() == old(self).dir(),
            final(self).num_inodes() == old(self).num_inodes(),
            final(self).data(id) == Seq::<u8>::empty(),
            forall|j: u32| j < old(self).num_inodes() && j != id ==> #[trigger] final(self).data(j) == old(self).data(j),
            forall|j: u32| j < old(self).num_inodes() ==> #[trigger] final(self).is_dir(j) == old(self).is_dir(j),
    {
        let d = self.inodes[id as usize].is_dir;
        self.inodes.set(id as usize, InodeData { is_dir: d, data: Vec::new() });
        proof {
            assert(self.dir() =~= old(self).dir());
            assert forall|j: u32| j < old(self).num_inodes() implies #[trigger] self.is_dir(j) == old(self).is_dir(j) by {
                if j != id {
                    assert(self.inodes@[j as int] == old(self).inodes@[j as int]);
                }
            }
            assert forall|j: u32| j < old(self).num_inodes() && j != id implies #[trigger] self.data(j) == old(self).data(j) by {
                assert(self.inodes@[j as int] == old(self).inodes@[j as int]);
            }
        }
    }

    /// The number of links to inode `id`.
    pub fn inode_count(&self, id: u32) -> (r: usize)
        ensures
            r == link_count(self.dir(), id),
    {
        let mut c: usize = 0;
        let mut i: usize = 0;
        while i < self.entries.len()
            invariant
                i <= self.entries@.len(),
                self.dir().len() == self.entries@.len(),
                c == link_count(self.dir().take(i as int), id),
                c <= i,
            decreases self.entries@.len() - i,
        {
            proof {
                assert(self.dir().take(i + 1).drop_last() =~= self.dir().take(i as int));
            }
            if self.entries[i].inode_id == id {
                c = c + 1;
            }
            i = i + 1;
        }
        assert(self.dir().take(i as int) =~= self.dir());
        c
    }

    /// Links `name`, which must not link to anything yet, to inode `id`. Returns whether
    /// it did.
    pub fn create_link(&mut self, id: u32, name: &[u8]) -> (r: bool)
        requires
            old(self).wf(),
            id < old(self).num_inodes(),
        ensures
            final(self).wf(),
            r == find_index(old(self).dir(), name@).is_none(),
            r ==> final(self).dir() == old(self).dir().push((name@, id)),
            !r ==> final(self).dir() == old(self).dir(),
            final(self).num_inodes() == old(self).num_inodes(),
            forall|j: u32| #[trigger] final(self).data(j) == old(self).data(j),
            forall|j: u32| #[trigger] final(self).is_dir(j) == old(self).is_dir(j),
    {
        if self.find(name).is_some() {
            return false;
        }
        let mut nm: Vec<u8> = Vec::new();
        let mut k: usize = 0;
        while k < name.len()
            invariant
                k <= name@.len(),
                nm@ == name@.take(k as int),
            decreases name@.len() - k,
        {
            nm.push(name[k]);
            k = k + 1;
            assert(nm@ =~= name@.take(k as int));
        }
        assert(name@.take(name@.len() as int) =~= name@);
        self.entries.push(DirEntry { name: nm, inode_id: id });
        proof {
            assert forall|j: u32| j < self.num_inodes() implies (#[trigger] self.data(j)).len() <= MAX_FILE_SIZE by {
                assert(self.data(j) == old(self).data(j));
            }
            assert(self.dir() =~= old(self).dir().push((name@, id)));
            assert forall|i: int, j: int| 0 <= i < j < self.dir().len() implies (#[trigger] self.dir()[i]).0 != (#[trigger] self.dir()[j]).0 by {
                if j == self.dir().len() - 1 {
                    if old(self).dir()[i].0 == name@ {
                        assert(exists|i: int| 0 <= i < old(self).dir().len() && (#[trigger] old(self).dir()[i]).0 == name@);
                    }
                }
            }
        }
        true
    }

    /// Removes the link `name`. Returns whether there was one.
    pub fn remove_link(&mut self, name: &[u8]) -> (r: bool)
        requires
            old(self).wf(),
        ensures
            final(self).wf(),
            r == find_index(old(self).dir(), name@).is_some(),
            r ==> final(self).dir() == old(self).dir().remove(find_index(old(self).dir(), name@).unwrap()),
            !r ==> final(self).dir() == old(self).dir(),
            final(self).num_inodes() == old(self).num_inodes(),
            forall|j: u32| #[trigger] final(self).data(j) == old(self).data(j),
            forall|j: u32| #[trigger] final(self).is_dir(j) == old(self).is_dir(j),
    {
        let mut i: usize = 0;
        while i < self.entries.len()
            invariant
                i <= self.entries@.len(),
                self.entries == old(self).entries,
                self.inodes == old(self).inodes,
                old(self).wf(),
                self.dir().len() == self.entries@.len(),
                forall|j: int| 0 <= j < i ==> (#[trigger] self.dir()[j]).0 != name@,
            decreases self.entries@.len() - i,
        {
            if bytes_eq(self.entries[i].name.as_slice(), name) {
                proof {
                    assert(self.dir()[i as int].0 == name@);
                    let k = find_index(self.dir(), name@).unwrap();
                    assert(k == i as int) by {
                        if k < i as int { assert(self.dir()[k].0 != name@); }
                        if k > i as int { assert(self.dir()[i as int].0 == name@); }
                    }
                }
                self.entries.remove(i);
                proof {
                    assert forall|j: u32| j < self.num_inodes() implies (#[trigger] self.data(j)).len() <= MAX_FILE_SIZE by {
                        assert(self.data(j) == old(self).data(j));
                    }
                    assert(self.dir() =~= old(self).dir().remove(i as int));
                    let od = old(self).dir();
                    assert forall|a: int, b: int| 0 <= a < b < self.dir().len() implies (#[trigger] self.dir()[a]).0 != (#[trigger] self.dir()[b]).0 by {
                        let a2 = if a < i { a } else { a + 1 };
                        let b2 = if b < i { b } else { b + 1 };
                        assert(od.remove(i as int)[a] == od[a2] && od.remove(i as int)[b] == od[b2]);
                        assert(self.dir()[a] == od[a2] && self.dir()[b] == od[b2]);
                    }
                    assert forall|a: int| 0 <= a < self.dir().len() implies (#[trigger] self.dir()[a]).1 < self.num_inodes() by {
                        let a2 = if a < i { a } else { a + 1 };
                        assert(od.remove(i as int)[a] == od[a2]);
                        assert(self.dir()[a] == od[a2]);
                    }
                }
                return true;
            }
            i = i + 1;
        }
        false
    }

    /// At most `len` bytes of inode `id` from `offset` on.
    pub fn read_at(&self, id: u32, offset: u64, len: usize) -> (r: Vec<u8>)
        requires
            id < self.num_inodes(),
        ensures
            r@ == read_from(self.data(id), offset as int, len as int),
    {
        let data = &self.inodes[id as usize].data;
        let size = data.len();
        let mut out: Vec<u8> = Vec::new();
        if offset >= size as u64 {
            return out;
        }
        let start = offset as usize;
        let end = if len <= size - start { start + len } else { size };
        let mut k = start;
        while k < end
            invariant
                start <= k <= end <= size,
                size == data@.len(),
                out@ == data@.subrange(start as int, k as int),
            decreases end - k,
        {
            out.push(data[k]);
            k = k + 1;
            assert(out@ =~= data@.subrange(start as int, k as int));
        }
        out
    }

    /// Writes `buf` into inode `id` at `offset`, growing the inode as needed and filling
    /// any gap with zeros.
    pub fn write_at(&mut self, id: u32, offset: u64, buf: &[u8])
        requires
            old(self).wf(),
            id < old(self).num_inodes(),
            offset + buf@.len() <= MAX_FILE_SIZE,
        ensures
            final(self).wf(),
            final(self).dir() == old(self).dir(),
            final(self).num_inodes() == old(self).num_inodes(),
            final(self).data(id) == written_at(old(self).data(id), offset as int, buf@),
            final(self).data(id).len() == (if offset + buf@.len() > old(self).data(id).len() { offset + buf@.len() }
                else { old(self).data(id).len() as int }),
            forall|i: int| 0 <= i < buf@.len() ==> #[trigger] final(self).data(id)[offset + i] == buf@[i],
            forall|i: int| 0 <= i < old(self).data(id).len() && !(offset <= i < offset + buf@.len())
                ==> #[trigger] final(self).data(id)[i] == old(self).data(id)[i],
            forall|i: int| old(self).data(id).len() <= i < offset ==> #[trigger] final(self).data(id)[i] == 0,
            forall|j: u32| j < old(self).num_inodes() && j != id ==> #[trigger] final(self).data(j) == old(self).data(j),
            forall|j: u32| j < old(self).num_inodes() ==> #[trigger] final(self).is_dir(j) == old(self).is_dir(j),
    {
        let d = self.inodes[id as usize].is_dir;
        let old_data = &self.inodes[id as usize].data;
        let size = old_data.len();
        let start = offset as usize;
        let total: usize = if start + buf.len() > size { start + buf.len() } else { size };
        let mut out: Vec<u8> = Vec::new();
        let mut k: usize = 0;
        let ghost target = written_at(old_data@, offset as int, buf@);
        assert(target.len() == total);
        while k < total
            invariant
                k <= total,
                total == target.len(),
                size == old_data@.len(),
                start == offset,
                target == written_at(old_data@, offset as int, buf@),
                out@ == target.take(k as int),
            decreases total - k,
        {
            let b = if start <= k && k - start < buf.len() {
                buf[k - start]
            } else if k < size {
                old_data[k]
            } else {
                0u8
            };
            out.push(b);
            k = k + 1;
            assert(out@ =~= target.take(k as int));
        }
        assert(target.take(total as int) =~= target);
        self.inodes.set(id as usize, InodeData { is_dir: d, data: out });
        proof {
            assert(self.dir() =~= old(self).dir());
            assert forall|j: u32| j < old(self).num_inodes() implies #[trigger] self.is_dir(j) == old(self).is_dir(j) by {
                if j != id {
                    assert(self.inodes@[j as int] == old(self).inodes@[j as int]);
                }
            }
            assert forall|j: u32| j < old(self).num_inodes() && j != id implies #[trigger] self.data(j) == old(self).data(j) by {
                assert(self.inodes@[j as int] == old(self).inodes@[j as int]);
            }
        }
    }
}

} // verus!
