//! Physical memory: the bytes of every frame, and the allocator that hands frames out.
use vstd::prelude::*;
use crate::config::PAGE_SIZE;

verus! {

/// The largest number of frames a physical memory may have.
pub const MAX_FRAMES: u64 = 0x8_0000;

/// The machine's physical memory and its frame allocator.
///
/// Frames are numbered from 0; frame `p` holds the bytes
/// `p * PAGE_SIZE .. (p + 1) * PAGE_SIZE`. The allocator hands out frames
/// that were returned to it first, most recent first, and otherwise the
/// lowest frame never handed out.
pub struct PhysMemory {
    bytes: Vec<u8>,
    current: u64,
    end: u64,
    recycled: Vec<u64>,
}

impl PhysMemory {
    /// The allocator's bookkeeping is consistent with the size of memory.
    pub closed spec fn wf(&self) -> bool {
        &&& self.end <= MAX_FRAMES
        &&& self.bytes@.len() == self.end * PAGE_SIZE
        &&& self.current <= self.end
        &&& self.recycled@.no_duplicates()
        &&& forall|i: int| 0 <= i < self.recycled@.len() ==> #[trigger] self.recycled@[i] < self.current
    }

    /// The contents of physical memory, byte by byte.
    pub closed spec fn mem(&self) -> Seq<u8> {
        self.bytes@
    }

    /// The number of frames of physical memory.
    pub closed spec fn num_frames(&self) -> nat {
        self.end as nat
    }

    /// The frames that are handed out and not returned.
    pub closed spec fn used(&self) -> Set<u64> {
        Set::new(|p: u64| p < self.current && !self.recycled@.contains(p))
    }

    /// The number of frames the allocator can still hand out.
    pub closed spec fn free_count(&self) -> nat {
        ((self.end - self.current) + self.recycled@.len()) as nat
    }

    /// The size of memory in bytes, and its bound.
    pub proof fn lemma_mem_len(&self)
        requires
            self.wf(),
        ensures
            self.mem().len() == self.num_frames() * PAGE_SIZE,
            self.num_frames() <= MAX_FRAMES,
    {
    }

    /// Every used frame lies inside physical memory.
    pub proof fn lemma_used_in_range(&self, p: u64)
        requires
            self.wf(),
            self.used().contains(p),
        ensures
            p < self.num_frames(),
    {
    }

    /// A physical memory of `num_frames` zeroed frames, none of them in use.
    pub fn new(num_frames: u64) -> (r: PhysMemory)
        requires
            num_frames <= MAX_FRAMES,
        ensures
            r.wf(),
            r.num_frames() == num_frames,
            r.used() == Set::<u64>::empty(),
            r.free_count() == num_frames,
            r.mem() == Seq::new((num_frames * PAGE_SIZE) as nat, |i: int| 0u8),
    {
        let total: usize = (num_frames as usize) * PAGE_SIZE;
        let mut bytes: Vec<u8> = Vec::new();
        let mut i: usize = 0;
        while i < total
            invariant
                i <= total,
                bytes@ == Seq::new(i as nat, |j: int| 0u8),
            decreases total - i,
        {
            bytes.push(0u8);
            i = i + 1;
        }
        let r = PhysMemory { bytes, current: 0, end: num_frames, recycled: Vec::new() };
        assert(r.used() =~= Set::<u64>::empty());
        r
    }

    /// The number of frames the allocator can still hand out.
    pub fn free_frames(&self) -> (r: u64)
        requires
            self.wf(),
        ensures
            r == self.free_count(),
    {
        proof { self.lemma_free_count_bound(); }
        (self.end - self.current) + self.recycled.len() as u64
    }

    /// The recycled frames are fewer than the frames handed out so far.
    proof fn lemma_free_count_bound(&self)
        requires
            self.wf(),
        ensures
            self.recycled@.len() <= self.current,
            self.free_count() <= self.end,
    {
        let s = self.recycled@.to_set();
        assert(s.subset_of(Set::new(|p: u64| p < self.current)));
        self.recycled@.unique_seq_to_set();
        let full = Set::<u64>::range(0, self.current);
        vstd::set_lib::range_set_properties::<u64>(0, self.current);
        assert(s.subset_of(full));
        vstd::set_lib::lemma_len_subset(s, full);
    }

    /// The byte at physical address `pa`.
    pub fn read_byte(&self, pa: u64) -> (r: u8)
        requires
            pa < self.mem().len(),
        ensures
            r == self.mem()[pa as int],
    {
        let n = self.bytes.len();
        assert(pa < n);
        self.bytes[pa as usize]
    }

    /// Stores `v` at physical address `pa`.
    pub fn write_byte(&mut self, pa: u64, v: u8)
        requires
            pa < old(self).mem().len(),
        ensures
            final(self).mem() == old(self).mem().update(pa as int, v),
            final(self).used() == old(self).used(),
            final(self).num_frames() == old(self).num_frames(),
            final(self).free_count() == old(self).free_count(),
            old(self).wf() ==> final(self).wf(),
    {
        let n = self.bytes.len();
        assert(pa < n);
        self.bytes.set(pa as usize, v);
    }

    /// Hands out a frame that was not in use and fills it with zeros; `None` when
    /// no frame is left.
    pub fn frame_alloc(&mut self) -> (r: Option<u64>)
        requires
            old(self).wf(),
        ensures
            final(self).wf(),
            final(self).num_frames() == old(self).num_frames(),
            match r {
                Some(p) => {
                    &&& !old(self).used().contains(p)
                    &&& p < old(self).num_frames()
                    &&& final(self).used() == old(self).used().insert(p)
                    &&& final(self).free_count() + 1 == old(self).free_count()
                    &&& final(self).mem() == zero_frame(old(self).mem(), p)
                },
                None => {
                    &&& old(self).free_count() == 0
                    &&& *final(self) == *old(self)
                },
            },
    {
        let p: u64;
        if self.recycled.len() > 0 {
            p = self.recycled.pop().unwrap();
            proof {
                let old_r = old(self).recycled@;
                assert(old_r =~= self.recycled@.push(p));
                assert(old_r[old_r.len() - 1] == p);
                assert forall|q: u64| #[trigger] self.used().contains(q) == old(self).used().insert(p).contains(q) by {
                    if q != p {
                        if self.recycled@.contains(q) {
                            let j = choose|j: int| 0 <= j < self.recycled@.len() && self.recycled@[j] == q;
                            assert(old_r[j] == q);
                        }
                        if old_r.contains(q) {
                            let j = choose|j: int| 0 <= j < old_r.len() && old_r[j] == q;
                            assert(j != old_r.len() - 1);
                            assert(self.recycled@[j] == q);
                        }
                    } else {
                        assert(!self.recycled@.contains(p)) by {
                            if self.recycled@.contains(p) {
                                let j = choose|j: int| 0 <= j < self.recycled@.len() && self.recycled@[j] == p;
                                assert(old_r[j] == p);
                                assert(old_r[old_r.len() - 1] == p);
                            }
                        }
                    }
                }
                assert(self.used() =~= old(self).used().insert(p));
                assert(old_r.contains(p));
                assert(p < old(self).current);
            }
        } else if self.current < self.end {
            p = self.current;
            self.current = self.current + 1;
            proof {
                assert(self.used() =~= old(self).used().insert(p));
            }
        } else {
            return None;
        }
        self.zero(p);
        Some(p)
    }

    /// Fills frame `p` with zeros.
    fn zero(&mut self, p: u64)
        requires
            old(self).wf(),
            p < old(self).end,
        ensures
            final(self).wf(),
            final(self).mem() == zero_frame(old(self).mem(), p),
            final(self).current == old(self).current,
            final(self).end == old(self).end,
            final(self).recycled == old(self).recycled,
    {
        let base: usize = (p as usize) * PAGE_SIZE;
        let mut i: usize = 0;
        while i < PAGE_SIZE
            invariant
                i <= PAGE_SIZE,
                base == p * PAGE_SIZE,
                p < self.end,
                self.bytes@.len() == old(self).bytes@.len(),
                self.bytes@.len() == self.end * PAGE_SIZE,
                self.current == old(self).current,
                self.end == old(self).end,
                self.recycled == old(self).recycled,
                forall|j: int| 0 <= j < self.bytes@.len() ==> #[trigger] self.bytes@[j] == (
                    if base <= j < base + i { 0u8 } else { old(self).bytes@[j] }),
            decreases PAGE_SIZE - i,
        {
            proof {
                assert(base + i < self.bytes@.len()) by (nonlinear_arith)
                    requires base == p * 4096, p < self.end, i < 4096, self.bytes@.len() == self.end * 4096;
            }
            self.bytes.set(base + i, 0u8);
            i = i + 1;
        }
        assert forall|j: int| 0 <= j < self.bytes@.len() implies #[trigger] self.bytes@[j] == zero_frame(old(self).mem(), p)[j] by {
            crate::mm::address::lemma_page_of(j, p as int);
        }
        assert(self.bytes@ =~= zero_frame(old(self).mem(), p));
    }

    /// Returns frame `p` to the allocator.
    pub fn frame_dealloc(&mut self, p: u64)
        requires
            old(self).wf(),
            old(self).used().contains(p),
        ensures
            final(self).wf(),
            final(self).num_frames() == old(self).num_frames(),
            final(self).mem() == old(self).mem(),
            final(self).used() == old(self).used().remove(p),
            final(self).free_count() == old(self).free_count() + 1,
    {
        self.recycled.push(p);
        proof {
            let old_r = old(self).recycled@;
            assert(self.recycled@ == old_r.push(p));
            assert forall|i: int, j: int| 0 <= i < j < self.recycled@.len() implies
                self.recycled@[i] != self.recycled@[j] by {
                if j == old_r.len() {
                    assert(old_r[i] == self.recycled@[i]);
                }
            }
            assert forall|q: u64| self.recycled@.contains(q) <==> (old_r.contains(q) || q == p) by {
                if self.recycled@.contains(q) {
                    let j = choose|j: int| 0 <= j < self.recycled@.len() && self.recycled@[j] == q;
                    if j < old_r.len() { assert(old_r[j] == q); }
                }
                if old_r.contains(q) {
                    let j = choose|j: int| 0 <= j < old_r.len() && old_r[j] == q;
                    assert(self.recycled@[j] == q);
                }
                if q == p { assert(self.recycled@[old_r.len() as int] == p); }
            }
            assert(self.used() =~= old(self).used().remove(p));
        }
    }

    /// Copies the bytes of frame `src` into frame `dst`.
    pub fn copy_frame(&mut self, src: u64, dst: u64)
        requires
            old(self).wf(),
            src < old(self).num_frames(),
            dst < old(self).num_frames(),
            src != dst,
        ensures
            final(self).wf(),
            final(self).mem() == frame_copied(old(self).mem(), src, dst),
            final(self).used() == old(self).used(),
            final(self).num_frames() == old(self).num_frames(),
            final(self).free_count() == old(self).free_count(),
    {
        let ghost m0 = self.bytes@;
        assert(src * 4096 + 4096 <= self.end * 4096 && dst * 4096 + 4096 <= self.end * 4096) by (nonlinear_arith)
            requires src < self.end, dst < self.end;
        let s: usize = (src as usize) * PAGE_SIZE;
        let d: usize = (dst as usize) * PAGE_SIZE;
        let mut k: usize = 0;
        while k < PAGE_SIZE
            invariant
                self.wf(),
                k <= PAGE_SIZE,
                s == src * 4096,
                d == dst * 4096,
                s + 4096 <= m0.len(),
                d + 4096 <= m0.len(),
                src != dst,
                self.end == old(self).end,
                self.current == old(self).current,
                self.recycled == old(self).recycled,
                self.bytes@.len() == m0.len(),
                forall|j: int| 0 <= j < m0.len() ==> #[trigger] self.bytes@[j] ==
                    (if d <= j < d + k { m0[s + (j - d)] } else { m0[j] }),
            decreases PAGE_SIZE - k,
        {
            assert(!(d <= s + k < d + 4096)) by (nonlinear_arith)
                requires s == src * 4096, d == dst * 4096, src != dst, k < 4096;
            let b = self.bytes[s + k];
            self.bytes.set(d + k, b);
            k = k + 1;
        }
        assert forall|j: int| 0 <= j < m0.len() implies #[trigger] self.bytes@[j] == frame_copied(m0, src, dst)[j] by {
            if d <= j < d + 4096 {
                assert(j / 4096 == dst && j % 4096 == j - d) by (nonlinear_arith)
                    requires d == dst * 4096, d <= j < d + 4096;
            } else {
                assert(j / 4096 != dst) by (nonlinear_arith)
                    requires d == dst * 4096, !(d <= j < d + 4096), j >= 0;
            }
        }
        assert(self.bytes@ =~= frame_copied(m0, src, dst));
    }

    /// The 64-bit little-endian word at physical address `a`.
    pub fn read_word(&self, a: u64) -> (r: u64)
        requires
            self.wf(),
            a + 8 <= self.mem().len(),
        ensures
            r == word_at(self.mem(), a as int),
    {
        proof { self.lemma_mem_len(); }
        let b0 = self.read_byte(a) as u64;
        let b1 = self.read_byte(a + 1) as u64;
        let b2 = self.read_byte(a + 2) as u64;
        let b3 = self.read_byte(a + 3) as u64;
        let b4 = self.read_byte(a + 4) as u64;
        let b5 = self.read_byte(a + 5) as u64;
        let b6 = self.read_byte(a + 6) as u64;
        let b7 = self.read_byte(a + 7) as u64;
        b0 | (b1 << 8u64) | (b2 << 16u64) | (b3 << 24u64) | (b4 << 32u64) | (b5 << 40u64) | (b6 << 48u64) | (b7 << 56u64)
    }

    /// Stores the word `v` at physical address `a`, little-endian.
    pub fn write_word(&mut self, a: u64, v: u64)
        requires
            old(self).wf(),
            a + 8 <= old(self).mem().len(),
        ensures
            final(self).wf(),
            final(self).mem() == word_written(old(self).mem(), a as int, v),
            word_at(final(self).mem(), a as int) == v,
            final(self).used() == old(self).used(),
            final(self).num_frames() == old(self).num_frames(),
            final(self).free_count() == old(self).free_count(),
    {
        let ghost m0 = self.mem();
        proof { self.lemma_mem_len(); }
        self.write_byte(a, (v & 0xff) as u8);
        self.write_byte(a + 1, ((v >> 8u64) & 0xff) as u8);
        self.write_byte(a + 2, ((v >> 16u64) & 0xff) as u8);
        self.write_byte(a + 3, ((v >> 24u64) & 0xff) as u8);
        self.write_byte(a + 4, ((v >> 32u64) & 0xff) as u8);
        self.write_byte(a + 5, ((v >> 40u64) & 0xff) as u8);
        self.write_byte(a + 6, ((v >> 48u64) & 0xff) as u8);
        self.write_byte(a + 7, ((v >> 56u64) & 0xff) as u8);
        proof {
            assert(byte_of(v, 0) == (v & 0xff) as u8) by (bit_vector);
            assert(byte_of(v, 1) == ((v >> 8u64) & 0xff) as u8) by (bit_vector);
            assert(byte_of(v, 2) == ((v >> 16u64) & 0xff) as u8) by (bit_vector);
            assert(byte_of(v, 3) == ((v >> 24u64) & 0xff) as u8) by (bit_vector);
            assert(byte_of(v, 4) == ((v >> 32u64) & 0xff) as u8) by (bit_vector);
            assert(byte_of(v, 5) == ((v >> 40u64) & 0xff) as u8) by (bit_vector);
            assert(byte_of(v, 6) == ((v >> 48u64) & 0xff) as u8) by (bit_vector);
            assert(byte_of(v, 7) == ((v >> 56u64) & 0xff) as u8) by (bit_vector);
            assert(self.mem() =~= word_written(m0, a as int, v));
            assert((((v & 0xff) as u8) as u64) | ((((v >> 8u64) & 0xff) as u8) as u64) << 8u64
                | ((((v >> 16u64) & 0xff) as u8) as u64) << 16u64 | ((((v >> 24u64) & 0xff) as u8) as u64) << 24u64
                | ((((v >> 32u64) & 0xff) as u8) as u64) << 32u64 | ((((v >> 40u64) & 0xff) as u8) as u64) << 40u64
                | ((((v >> 48u64) & 0xff) as u8) as u64) << 48u64 | ((((v >> 56u64) & 0xff) as u8) as u64) << 56u64
                == v) by (bit_vector);
        }
    }

    /// Stores `data` at the physical addresses from `pa` on; the bytes that would lie
    /// past the end of physical memory are dropped.
    pub fn write_bytes(&mut self, pa: u64, data: &[u8])
        requires
            old(self).wf(),
        ensures
            final(self).wf(),
            final(self).mem() == phys_written(old(self).mem(), pa as int, data@),
            final(self).used() == old(self).used(),
            final(self).num_frames() == old(self).num_frames(),
            final(self).free_count() == old(self).free_count(),
    {
        let n = self.bytes.len();
        let mut k: usize = 0;
        while k < data.len()
            invariant
                self.wf(),
                n == self.bytes@.len(),
                k <= data@.len(),
                self.used() == old(self).used(),
                self.end == old(self).end,
                self.current == old(self).current,
                self.recycled == old(self).recycled,
                self.bytes@ == phys_written(old(self).mem(), pa as int, data@.take(k as int)),
            decreases data@.len() - k,
        {
            if pa < n as u64 && (k as u64) < n as u64 - pa {
                self.bytes.set((pa as usize) + k, data[k]);
            }
            k = k + 1;
            assert(self.bytes@ =~= phys_written(old(self).mem(), pa as int, data@.take(k as int)));
        }
        assert(data@.take(data@.len() as int) =~= data@);
    }
}

/// The 64-bit little-endian word that `mem` holds at address `a`.
pub open spec fn word_at(mem: Seq<u8>, a: int) -> u64 {
    (mem[a] as u64) | ((mem[a + 1] as u64) << 8u64) | ((mem[a + 2] as u64) << 16u64)
        | ((mem[a + 3] as u64) << 24u64) | ((mem[a + 4] as u64) << 32u64) | ((mem[a + 5] as u64) << 40u64)
        | ((mem[a + 6] as u64) << 48u64) | ((mem[a + 7] as u64) << 56u64)
}

/// Byte `i` of the little-endian encoding of `v`.
pub open spec fn byte_of(v: u64, i: int) -> u8 {
    ((v >> (8 * i) as u64) & 0xff) as u8
}

/// `mem` with the word `v` stored at address `a`, little-endian.
pub open spec fn word_written(mem: Seq<u8>, a: int, v: u64) -> Seq<u8> {
    Seq::new(mem.len(), |j: int| if a <= j < a + 8 { byte_of(v, j - a) } else { mem[j] })
}

/// `mem` with frame `dst` holding the bytes of frame `src`.
pub open spec fn frame_copied(mem: Seq<u8>, src: u64, dst: u64) -> Seq<u8> {
    Seq::new(mem.len(), |j: int|
        if j / (PAGE_SIZE as int) == dst { mem[src * PAGE_SIZE + j % (PAGE_SIZE as int)] } else { mem[j] })
}

/// `mem` with the bytes of frame `p` set to zero.
pub open spec fn zero_frame(mem: Seq<u8>, p: u64) -> Seq<u8> {
    Seq::new(mem.len(), |j: int| if j / (PAGE_SIZE as int) == p { 0u8 } else { mem[j] })
}


/// `mem` with `data` stored at the addresses from `pa` on, as far as `mem` reaches.
pub open spec fn phys_written(mem: Seq<u8>, pa: int, data: Seq<u8>) -> Seq<u8> {
    Seq::new(mem.len(), |j: int| if pa <= j < pa + data.len() { data[j - pa] } else { mem[j] })
}

} // verus!
