//! Address spaces: a page table from virtual pages to frames, and the heap area.
use vstd::prelude::*;
use std::collections::HashMap;
use crate::config::PAGE_SIZE;
use crate::mm::address::{VirtAddr, VirtPageNum, VPN_LIMIT, page_of, page_ceil};
use crate::mm::frame::{PhysMemory, zero_frame, frame_copied};
use crate::mm::elf::frames_kept;
use crate::mm::page_table::{PageTableEntry, PTEFlags, MapPermission};

verus! {

broadcast use vstd::std_specs::hash::group_hash_axioms;

/// An address space.
///
/// Each mapped virtual page owns a frame of its own, which the address space
/// returns to the allocator when the page is unmapped. The page table itself
/// owns one more frame, its root, whose number makes up the address space's token.
pub struct MemorySet {
    page_table: HashMap<u64, PageTableEntry>,
    mapped: Vec<u64>,
    root_ppn: u64,
    heap_start: u64,
    heap_end: u64,
}

/// The frames that the entries of page table `pt` point to.
pub open spec fn frames_of(pt: Map<u64, PageTableEntry>) -> Set<u64> {
    Set::new(|p: u64| exists|v: u64| pt.contains_key(v) && #[trigger] pt[v].ppn == p)
}

/// Every page of `s .. e` is mapped in `pt`.
pub open spec fn range_mapped(pt: Map<u64, PageTableEntry>, s: int, e: int) -> bool {
    forall|v: u64| s <= v < e ==> #[trigger] pt.contains_key(v)
}

/// No page of `s .. e` is mapped in `pt`.
pub open spec fn range_unmapped(pt: Map<u64, PageTableEntry>, s: int, e: int) -> bool {
    forall|v: u64| s <= v < e ==> !#[trigger] pt.contains_key(v)
}

/// Whether virtual address `va` lies in a page that `pt` maps.
pub open spec fn va_mapped(pt: Map<u64, PageTableEntry>, va: int) -> bool {
    0 <= va && pt.contains_key(page_of(va) as u64) && page_of(va) <= u64::MAX
}

/// The physical address that virtual address `va` stands for under `pt`.
pub open spec fn va_to_pa(pt: Map<u64, PageTableEntry>, va: int) -> int {
    pt[page_of(va) as u64].ppn * PAGE_SIZE + va % (PAGE_SIZE as int)
}

/// The byte that user code reads at `va` under `pt`, with physical memory `mem`.
pub open spec fn user_byte(pt: Map<u64, PageTableEntry>, mem: Seq<u8>, va: int) -> u8 {
    mem[va_to_pa(pt, va)]
}

/// The frames of the pages `s .. e` in `pt`.
pub open spec fn frames_in(pt: Map<u64, PageTableEntry>, s: int, e: int) -> Set<u64> {
    Set::new(|p: u64| exists|v: u64| s <= v < e && pt.contains_key(v) && #[trigger] pt[v].ppn == p)
}

/// Address space `dst`, with physical memory `m1`, is a copy of `src`, with physical
/// memory `m0`: the same pages with the same flags, each holding the same bytes, and the
/// same heap area.
pub open spec fn space_copied(src: MemorySet, m0: Seq<u8>, dst: MemorySet, m1: Seq<u8>) -> bool {
    &&& forall|v: u64| #[trigger] dst.pt().contains_key(v) <==> src.pt().contains_key(v)
    &&& forall|v: u64| src.pt().contains_key(v) ==> (#[trigger] dst.pt()[v]).flags == src.pt()[v].flags
    &&& forall|va: int| va_mapped(src.pt(), va) ==> #[trigger] user_byte(dst.pt(), m1, va) == user_byte(src.pt(), m0, va)
    &&& dst.heap_start_vpn() == src.heap_start_vpn()
    &&& dst.heap_end_vpn() == src.heap_end_vpn()
}

/// Address space `dst`, with physical memory `m1`, is a copy of `src`, with physical
/// memory `m0`, but for the user addresses `lo .. hi`: the same pages with the same
/// flags, each holding the same bytes outside that range, and the same heap area.
pub open spec fn space_copied_except(src: MemorySet, m0: Seq<u8>, dst: MemorySet, m1: Seq<u8>, lo: int, hi: int) -> bool {
    &&& forall|v: u64| #[trigger] dst.pt().contains_key(v) <==> src.pt().contains_key(v)
    &&& forall|v: u64| src.pt().contains_key(v) ==> (#[trigger] dst.pt()[v]).flags == src.pt()[v].flags
    &&& forall|va: int| va_mapped(src.pt(), va) && !(lo <= va < hi) ==>
        #[trigger] user_byte(dst.pt(), m1, va) == user_byte(src.pt(), m0, va)
    &&& dst.heap_start_vpn() == src.heap_start_vpn()
    &&& dst.heap_end_vpn() == src.heap_end_vpn()
}

/// In a copied address space, each byte of a copied page is the byte at the same offset
/// of the original page.
pub proof fn lemma_copied_page_byte(src: MemorySet, m0: Seq<u8>, dst: MemorySet, m1: Seq<u8>, vpn: u64, off: int)
    requires
        src.wf(),
        space_copied(src, m0, dst, m1),
        src.pt().contains_key(vpn),
        0 <= off < PAGE_SIZE,
    ensures
        m1[dst.pt()[vpn].ppn * PAGE_SIZE + off] == m0[src.pt()[vpn].ppn * PAGE_SIZE + off],
{
    let va = vpn * PAGE_SIZE + off;
    assert(page_of(va) == vpn && va % (PAGE_SIZE as int) == off) by (nonlinear_arith)
        requires va == vpn * 4096 + off, 0 <= off < 4096, vpn >= 0;
    assert(vpn < VPN_LIMIT);
    assert(va_mapped(src.pt(), va));
    assert(user_byte(dst.pt(), m1, va) == user_byte(src.pt(), m0, va));
}

/// The byte at offset `o` of frame `p` of `mem`.
pub open spec fn frame_byte(mem: Seq<u8>, p: u64, o: int) -> u8 {
    mem[p * PAGE_SIZE + o]
}

/// `new_pt` is `old_pt` without the pages `s .. e`.
pub open spec fn range_removed(
    old_pt: Map<u64, PageTableEntry>,
    new_pt: Map<u64, PageTableEntry>,
    s: int,
    e: int,
) -> bool {
    &&& forall|v: u64| #[trigger] new_pt.contains_key(v) <==> (old_pt.contains_key(v) && !(s <= v < e))
    &&& forall|v: u64| #[trigger] new_pt.contains_key(v) ==> new_pt[v] == old_pt[v]
}

/// `new_mem` is `old_mem` with the frames `fs` filled with zeros.
pub open spec fn frames_zeroed(old_mem: Seq<u8>, new_mem: Seq<u8>, fs: Set<u64>) -> bool {
    &&& new_mem.len() == old_mem.len()
    &&& forall|j: int| 0 <= j < new_mem.len() ==> #[trigger] new_mem[j] == (
        if exists|p: u64| fs.contains(p) && j / (PAGE_SIZE as int) == p { 0u8 } else { old_mem[j] })
}

/// `new_pt` is `old_pt` with the pages `s .. e`, unmapped in `old_pt`, mapped with `flags`
/// to frames that `used` does not hold.
pub open spec fn range_added(
    old_pt: Map<u64, PageTableEntry>,
    new_pt: Map<u64, PageTableEntry>,
    s: int,
    e: int,
    flags: PTEFlags,
    used: Set<u64>,
) -> bool {
    &&& forall|v: u64| #[trigger] new_pt.contains_key(v) <==> (old_pt.contains_key(v) || s <= v < e)
    &&& forall|v: u64| #[trigger] old_pt.contains_key(v) ==> new_pt[v] == old_pt[v]
    &&& forall|v: u64| s <= v < e ==> (#[trigger] new_pt[v]).flags == flags && !used.contains(new_pt[v].ppn)
    &&& range_unmapped(old_pt, s, e)
}

impl MemorySet {
    /// The page table, from virtual page numbers to entries.
    pub closed spec fn pt(&self) -> Map<u64, PageTableEntry> {
        self.page_table@
    }

    /// The frame of the page table's root.
    pub closed spec fn root(&self) -> u64 {
        self.root_ppn
    }

    /// The first page of the heap area.
    pub closed spec fn heap_start_vpn(&self) -> u64 {
        self.heap_start
    }

    /// The page just past the heap area.
    pub closed spec fn heap_end_vpn(&self) -> u64 {
        self.heap_end
    }

    /// The list of mapped pages agrees with the page table.
    pub closed spec fn list_matches(&self) -> bool {
        &&& forall|i: int| 0 <= i < self.mapped@.len() ==> self.page_table@.contains_key(#[trigger] self.mapped@[i])
        &&& forall|v: u64| #[trigger] self.page_table@.contains_key(v) ==> self.mapped@.contains(v)
        &&& self.mapped@.no_duplicates()
    }

    /// The address space is consistent: pages lie in the Sv39 range, distinct pages own
    /// distinct frames, none of them the root's, and the heap area is a range of pages.
    pub open spec fn wf(&self) -> bool {
        &&& self.list_matches()
        &&& forall|v: u64| #[trigger] self.pt().contains_key(v) ==> v < VPN_LIMIT
        &&& forall|v: u64, w: u64| #[trigger] self.pt().contains_key(v) && #[trigger] self.pt().contains_key(w)
            && v != w ==> self.pt()[v].ppn != self.pt()[w].ppn
        &&& forall|v: u64| #[trigger] self.pt().contains_key(v) ==> self.pt()[v].ppn != self.root()
        &&& self.heap_start_vpn() <= self.heap_end_vpn() <= VPN_LIMIT
    }

    /// The frames this address space owns: its root and the frames of its pages.
    pub open spec fn owned(&self) -> Set<u64> {
        frames_of(self.pt()).insert(self.root())
    }

    /// The address space is consistent and every frame it owns is in use in `phys`.
    pub open spec fn wf_in(&self, phys: &PhysMemory) -> bool {
        &&& self.wf()
        &&& phys.wf()
        &&& self.owned().subset_of(phys.used())
    }

    /// Every page of a consistent address space maps to a frame inside physical memory.
    pub proof fn lemma_entry_in_range(&self, phys: &PhysMemory, v: u64)
        requires
            self.wf_in(phys),
            self.pt().contains_key(v),
        ensures
            self.pt()[v].ppn < phys.num_frames(),
            phys.num_frames() <= crate::mm::frame::MAX_FRAMES,
    {
        assert(frames_of(self.pt()).contains(self.pt()[v].ppn));
        phys.lemma_used_in_range(self.pt()[v].ppn);
        phys.lemma_mem_len();
    }

    /// The root of a consistent address space lies inside physical memory.
    pub proof fn lemma_root_in_range(&self, phys: &PhysMemory)
        requires
            self.wf_in(phys),
        ensures
            self.root() < phys.num_frames(),
            phys.num_frames() <= crate::mm::frame::MAX_FRAMES,
    {
        assert(self.owned().contains(self.root()));
        phys.lemma_used_in_range(self.root());
        phys.lemma_mem_len();
    }

    /// An address space with no page mapped and an empty heap at page 0; `None` when no
    /// frame is left for the root.
    pub fn new_bare(phys: &mut PhysMemory) -> (r: Option<MemorySet>)
        requires
            old(phys).wf(),
        ensures
            final(phys).wf(),
            final(phys).num_frames() == old(phys).num_frames(),
            match r {
                Some(ms) => {
                    &&& ms.wf_in(final(phys))
                    &&& ms.pt() == Map::<u64, PageTableEntry>::empty()
                    &&& !old(phys).used().contains(ms.root())
                    &&& final(phys).used() == old(phys).used().insert(ms.root())
                    &&& final(phys).mem() == zero_frame(old(phys).mem(), ms.root())
                    &&& final(phys).free_count() + 1 == old(phys).free_count()
                    &&& ms.heap_start_vpn() == 0 && ms.heap_end_vpn() == 0
                },
                None => old(phys).free_count() == 0 && *final(phys) == *old(phys),
            },
    {
        match phys.frame_alloc() {
            Some(p) => {
                let ms = MemorySet {
                    page_table: HashMap::new(),
                    mapped: Vec::new(),
                    root_ppn: p,
                    heap_start: 0,
                    heap_end: 0,
                };
                assert(frames_of(ms.pt()) =~= Set::<u64>::empty());
                Some(ms)
            },
            None => None,
        }
    }

    /// The value of the `satp` register that selects this address space: Sv39 mode
    /// (8 in the top four bits) and the root frame.
    pub fn token(&self) -> (r: u64)
        requires
            self.root() < 0x1000_0000_0000,
        ensures
            r == 0x8000_0000_0000_0000u64 + self.root(),
    {
        let p = self.root_ppn;
        assert((8u64 << 60u64) | p == 0x8000_0000_0000_0000u64 + p) by (bit_vector)
            requires p < 0x1000_0000_0000u64;
        (8u64 << 60u64) | p
    }

    /// The entry of page `vpn`, if it is mapped. As in a walk of the three-level Sv39 page
    /// table, only the low 27 bits of `vpn` select the entry.
    pub fn translate(&self, vpn: VirtPageNum) -> (r: Option<PageTableEntry>)
        ensures
            match r {
                Some(e) => self.pt().contains_key(vpn.0 % VPN_LIMIT) && self.pt()[vpn.0 % VPN_LIMIT] == e,
                None => !self.pt().contains_key(vpn.0 % VPN_LIMIT),
            },
    {
        let key = vpn.0 % VPN_LIMIT;
        match self.page_table.get(&key) {
            Some(e) => Some(*e),
            None => None,
        }
    }

    /// Maps page `vpn` to a fresh zeroed frame with `flags`.
    fn map_one(&mut self, phys: &mut PhysMemory, vpn: u64, flags: PTEFlags) -> (p: u64)
        requires
            old(self).wf_in(old(phys)),
            !old(self).pt().contains_key(vpn),
            vpn < VPN_LIMIT,
            old(phys).free_count() > 0,
        ensures
            final(self).wf_in(final(phys)),
            !old(phys).used().contains(p),
            p < old(phys).num_frames(),
            final(self).pt() == old(self).pt().insert(vpn, PageTableEntry { ppn: p, flags }),
            final(self).root() == old(self).root(),
            final(self).owned() == old(self).owned().insert(p),
            final(self).heap_start_vpn() == old(self).heap_start_vpn(),
            final(self).heap_end_vpn() == old(self).heap_end_vpn(),
            final(phys).used() == old(phys).used().insert(p),
            final(phys).mem() == zero_frame(old(phys).mem(), p),
            final(phys).num_frames() == old(phys).num_frames(),
            final(phys).free_count() + 1 == old(phys).free_count(),
    {
        let p = match phys.frame_alloc() {
            Some(p) => p,
            None => { assert(false); 0 },
        };
        let e = PageTableEntry { ppn: p, flags };
        self.page_table.insert(vpn, e);
        self.mapped.push(vpn);
        proof {
            let opt = old(self).pt();
            let npt = self.pt();
            assert(npt == opt.insert(vpn, e));
            assert forall|v: u64| #[trigger] npt.contains_key(v) implies self.mapped@.contains(v) by {
                if v == vpn {
                    assert(self.mapped@[self.mapped@.len() - 1] == vpn);
                } else {
                    assert(old(self).mapped@.contains(v));
                    let j = choose|j: int| 0 <= j < old(self).mapped@.len() && old(self).mapped@[j] == v;
                    assert(self.mapped@[j] == v);
                }
            }
            assert forall|i: int| 0 <= i < self.mapped@.len() implies npt.contains_key(#[trigger] self.mapped@[i]) by {
                if i < old(self).mapped@.len() {
                    assert(self.mapped@[i] == old(self).mapped@[i]);
                }
            }
            assert forall|i: int, j: int| 0 <= i < j < self.mapped@.len() implies self.mapped@[i] != self.mapped@[j] by {
                if j == old(self).mapped@.len() {
                    assert(opt.contains_key(old(self).mapped@[i]));
                }
            }
            assert forall|v: u64| opt.contains_key(v) implies opt[v].ppn != p by {
                assert(frames_of(opt).contains(opt[v].ppn));
            }
            assert(frames_of(npt) =~= frames_of(opt).insert(p)) by {
                assert(npt[vpn].ppn == p);
                assert forall|q: u64| frames_of(opt).contains(q) implies frames_of(npt).contains(q) by {
                    let v = choose|v: u64| opt.contains_key(v) && opt[v].ppn == q;
                    assert(npt.contains_key(v) && npt[v].ppn == q);
                }
            }
        }
        p
    }

    /// Maps every page of `s .. e`, none of them mapped yet, to fresh zeroed frames with
    /// `flags`.
    pub(crate) fn map_range(&mut self, phys: &mut PhysMemory, s: u64, e: u64, flags: PTEFlags)
        requires
            old(self).wf_in(old(phys)),
            s <= e <= VPN_LIMIT,
            range_unmapped(old(self).pt(), s as int, e as int),
            old(phys).free_count() >= e - s,
        ensures
            final(self).wf_in(final(phys)),
            range_added(old(self).pt(), final(self).pt(), s as int, e as int, flags, old(phys).used()),
            final(self).root() == old(self).root(),
            final(self).heap_start_vpn() == old(self).heap_start_vpn(),
            final(self).heap_end_vpn() == old(self).heap_end_vpn(),
            final(phys).used() == old(phys).used().union(frames_in(final(self).pt(), s as int, e as int)),
            frames_zeroed(old(phys).mem(), final(phys).mem(), frames_in(final(self).pt(), s as int, e as int)),
            final(phys).num_frames() == old(phys).num_frames(),
            final(phys).free_count() + (e - s) == old(phys).free_count(),
    {
        let mut cur = s;
        proof {
            assert(frames_in(self.pt(), s as int, s as int) =~= Set::<u64>::empty());
            assert(phys.used() =~= old(phys).used().union(Set::<u64>::empty()));
        }
        while cur < e
            invariant
                self.wf_in(phys),
                s <= cur <= e <= VPN_LIMIT,
                range_unmapped(old(self).pt(), s as int, e as int),
                range_added(old(self).pt(), self.pt(), s as int, cur as int, flags, old(phys).used()),
                self.root() == old(self).root(),
                self.heap_start_vpn() == old(self).heap_start_vpn(),
                self.heap_end_vpn() == old(self).heap_end_vpn(),
                phys.used() == old(phys).used().union(frames_in(self.pt(), s as int, cur as int)),
                frames_zeroed(old(phys).mem(), phys.mem(), frames_in(self.pt(), s as int, cur as int)),
                phys.num_frames() == old(phys).num_frames(),
                phys.free_count() + (cur - s) == old(phys).free_count(),
                old(phys).free_count() >= e - s,
            decreases e - cur,
        {
            let ghost pt0 = self.pt();
            let ghost mem0 = phys.mem();
            let ghost used0 = phys.used();
            let p = self.map_one(phys, cur, flags);
            proof {
                let pt1 = self.pt();
                let f0 = frames_in(pt0, s as int, cur as int);
                let f1 = frames_in(pt1, s as int, cur + 1);
                assert forall|q: u64| #[trigger] f1.contains(q) <==> f0.insert(p).contains(q) by {
                    if f1.contains(q) {
                        let v = choose|v: u64| s <= v < cur + 1 && pt1.contains_key(v) && pt1[v].ppn == q;
                        if v != cur {
                            assert(pt0.contains_key(v) && pt0[v].ppn == q);
                        }
                    }
                    if f0.contains(q) {
                        let v = choose|v: u64| s <= v < cur && pt0.contains_key(v) && pt0[v].ppn == q;
                        assert(pt1.contains_key(v) && pt1[v].ppn == q);
                    }
                    if q == p {
                        assert(pt1.contains_key(cur) && pt1[cur].ppn == p);
                    }
                }
                assert(f1 =~= f0.insert(p));
                assert(phys.used() =~= old(phys).used().union(f1));
                assert forall|v: u64| s <= v < cur + 1 implies (#[trigger] pt1[v]).flags == flags
                    && !old(phys).used().contains(pt1[v].ppn) by {
                    if v != cur {
                        assert(pt0[v].ppn != p || !pt0.contains_key(v));
                    }
                }
                let mem1 = phys.mem();
                assert forall|j: int| 0 <= j < mem1.len() implies #[trigger] mem1[j] == (
                    if exists|r: u64| f1.contains(r) && j / (PAGE_SIZE as int) == r { 0u8 } else { old(phys).mem()[j] }) by {
                    assert(mem1[j] == zero_frame(mem0, p)[j]);
                    if j / (PAGE_SIZE as int) == p {
                        assert(f1.contains(p) && j / (PAGE_SIZE as int) == p);
                    } else {
                        assert(mem1[j] == mem0[j]);
                        assert(mem0[j] == (if exists|r: u64| f0.contains(r) && j / (PAGE_SIZE as int) == r { 0u8 } else { old(phys).mem()[j] }));
                        if exists|r: u64| f0.contains(r) && j / (PAGE_SIZE as int) == r {
                            let r = choose|r: u64| f0.contains(r) && j / (PAGE_SIZE as int) == r;
                            assert(f1.contains(r));
                        }
                        if exists|r: u64| f1.contains(r) && j / (PAGE_SIZE as int) == r {
                            let r = choose|r: u64| f1.contains(r) && j / (PAGE_SIZE as int) == r;
                            assert(f0.contains(r));
                        }
                    }
                }
            }
            cur = cur + 1;
        }
    }

    /// Unmaps page `vpn` and returns its frame to the allocator.
    fn unmap_one(&mut self, phys: &mut PhysMemory, vpn: u64)
        requires
            old(self).wf_in(old(phys)),
            old(self).pt().contains_key(vpn),
        ensures
            final(self).wf_in(final(phys)),
            final(self).pt() == old(self).pt().remove(vpn),
            final(self).root() == old(self).root(),
            final(self).heap_start_vpn() == old(self).heap_start_vpn(),
            final(self).heap_end_vpn() == old(self).heap_end_vpn(),
            final(phys).used() == old(phys).used().remove(old(self).pt()[vpn].ppn),
            final(phys).mem() == old(phys).mem(),
            final(phys).num_frames() == old(phys).num_frames(),
            final(phys).free_count() == old(phys).free_count() + 1,
    {
        let e = *self.page_table.get(&vpn).unwrap();
        self.page_table.remove(&vpn);
        let mut i: usize = 0;
        let n = self.mapped.len();
        proof {
            assert(old(self).mapped@.contains(vpn));
        }
        while i < n && self.mapped[i] != vpn
            invariant
                n == self.mapped@.len(),
                self.mapped == old(self).mapped,
                old(self).mapped@.contains(vpn),
                i <= n,
                forall|j: int| 0 <= j < i ==> self.mapped@[j] != vpn,
            decreases n - i,
        {
            i = i + 1;
        }
        proof {
            if i == n {
                let j = choose|j: int| 0 <= j < n && old(self).mapped@[j] == vpn;
                assert(false);
            }
        }
        self.mapped.remove(i);
        phys.frame_dealloc(e.ppn);
        proof {
            let opt = old(self).pt();
            let npt = self.pt();
            let om = old(self).mapped@;
            let nm = self.mapped@;
            assert(npt == opt.remove(vpn));
            assert forall|v: u64| #[trigger] npt.contains_key(v) implies nm.contains(v) by {
                let j = choose|j: int| 0 <= j < om.len() && om[j] == v;
                if j < i { assert(nm[j] == v); } else { assert(j != i); assert(nm[j - 1] == v); }
            }
            assert forall|k: int| 0 <= k < nm.len() implies npt.contains_key(#[trigger] nm[k]) by {
                if k < i { assert(nm[k] == om[k]); } else { assert(nm[k] == om[k + 1]); }
                assert(om[i as int] == vpn);
            }
            assert forall|a: int, b: int| 0 <= a < b < nm.len() implies nm[a] != nm[b] by {
                let a2 = if a < i { a } else { a + 1 };
                let b2 = if b < i { b } else { b + 1 };
                assert(nm[a] == om[a2] && nm[b] == om[b2]);
            }
            assert(frames_of(npt).subset_of(frames_of(opt).remove(e.ppn))) by {
                assert forall|q: u64| frames_of(npt).contains(q) implies frames_of(opt).remove(e.ppn).contains(q) by {
                    let v = choose|v: u64| npt.contains_key(v) && npt[v].ppn == q;
                    assert(opt.contains_key(v) && opt[v].ppn == q);
                    assert(v != vpn);
                }
            }
        }
    }

    /// Unmaps every page of `s .. e`, all of them mapped, and returns their frames.
    pub(crate) fn unmap_range(&mut self, phys: &mut PhysMemory, s: u64, e: u64)
        requires
            old(self).wf_in(old(phys)),
            s <= e,
            range_mapped(old(self).pt(), s as int, e as int),
        ensures
            final(self).wf_in(final(phys)),
            range_removed(old(self).pt(), final(self).pt(), s as int, e as int),
            final(self).root() == old(self).root(),
            final(self).heap_start_vpn() == old(self).heap_start_vpn(),
            final(self).heap_end_vpn() == old(self).heap_end_vpn(),
            final(phys).used() == old(phys).used().difference(frames_in(old(self).pt(), s as int, e as int)),
            final(phys).mem() == old(phys).mem(),
            final(phys).num_frames() == old(phys).num_frames(),
            final(phys).free_count() == old(phys).free_count() + (e - s),
    {
        let mut cur = s;
        proof {
            assert(frames_in(old(self).pt(), s as int, s as int) =~= Set::<u64>::empty());
            assert(phys.used() =~= old(phys).used().difference(Set::<u64>::empty()));
        }
        while cur < e
            invariant
                self.wf_in(phys),
                s <= cur <= e,
                range_mapped(old(self).pt(), s as int, e as int),
                range_removed(old(self).pt(), self.pt(), s as int, cur as int),
                self.root() == old(self).root(),
                self.heap_start_vpn() == old(self).heap_start_vpn(),
                self.heap_end_vpn() == old(self).heap_end_vpn(),
                phys.used() == old(phys).used().difference(frames_in(old(self).pt(), s as int, cur as int)),
                phys.mem() == old(phys).mem(),
                phys.num_frames() == old(phys).num_frames(),
                phys.free_count() == old(phys).free_count() + (cur - s),
            decreases e - cur,
        {
            let ghost pt0 = self.pt();
            proof {
                assert(old(self).pt().contains_key(cur));
            }
            self.unmap_one(phys, cur);
            proof {
                let opt = old(self).pt();
                let q = opt[cur].ppn;
                assert(pt0[cur] == opt[cur]);
                let f0 = frames_in(opt, s as int, cur as int);
                let f1 = frames_in(opt, s as int, cur + 1);
                assert forall|r: u64| #[trigger] f1.contains(r) <==> f0.insert(q).contains(r) by {
                    if f1.contains(r) {
                        let v = choose|v: u64| s <= v < cur + 1 && opt.contains_key(v) && opt[v].ppn == r;
                        if v != cur {
                            assert(f0.contains(r));
                        }
                    }
                    if f0.contains(r) {
                        let v = choose|v: u64| s <= v < cur && opt.contains_key(v) && opt[v].ppn == r;
                        assert(f1.contains(r));
                    }
                    if r == q {
                        assert(opt.contains_key(cur) && opt[cur].ppn == q);
                    }
                }
                assert(f1 =~= f0.insert(q));
                assert(phys.used() =~= old(phys).used().difference(f1));
            }
            cur = cur + 1;
        }
    }

    /// The number of mapped pages is the length of the list of mapped pages.
    proof fn lemma_page_count(&self)
        requires
            self.wf(),
        ensures
            self.mapped@.len() == self.pt().dom().len(),
            self.pt().dom().finite(),
    {
        assert(self.mapped@.to_set() =~= self.pt().dom()) by {
            assert forall|v: u64| self.pt().dom().contains(v) implies self.mapped@.to_set().contains(v) by {}
            assert forall|v: u64| self.mapped@.to_set().contains(v) implies self.pt().dom().contains(v) by {
                let i = choose|i: int| 0 <= i < self.mapped@.len() && self.mapped@[i] == v;
            }
        }
        self.mapped@.unique_seq_to_set();
    }

    /// A copy of address space `src`: each of its pages mapped, with the same flags, to a
    /// fresh frame holding the bytes of the page, and the same heap area.
    pub fn from_existed_user(src: &MemorySet, phys: &mut PhysMemory) -> (r: MemorySet)
        requires
            src.wf_in(old(phys)),
            old(phys).free_count() > src.pt().dom().len(),
        ensures
            r.wf_in(final(phys)),
            space_copied(*src, old(phys).mem(), r, final(phys).mem()),
            r.owned().disjoint(old(phys).used()),
            final(phys).used() == old(phys).used().union(r.owned()),
            frames_kept(old(phys).mem(), final(phys).mem(), old(phys).used()),
            final(phys).num_frames() == old(phys).num_frames(),
            final(phys).free_count() + src.pt().dom().len() + 1 == old(phys).free_count(),
    {
        let ghost p0 = *phys;
        proof {
            src.lemma_page_count();
        }
        let mut ms = MemorySet::new_bare(phys).unwrap();
        ms.heap_start = src.heap_start;
        ms.heap_end = src.heap_end;
        let n = src.mapped.len();
        let mut i: usize = 0;
        proof {
            assert(ms.owned() =~= set![ms.root()]);
            assert(phys.used() =~= p0.used().union(ms.owned()));
            assert forall|j: int| 0 <= j < p0.mem().len() && p0.used().contains((j / (PAGE_SIZE as int)) as u64)
                implies #[trigger] phys.mem()[j] == p0.mem()[j] by {
                assert(j / (PAGE_SIZE as int) != ms.root());
            }
        }
        while i < n
            invariant
                src.wf_in(&p0),
                n == src.mapped@.len(),
                n == src.pt().dom().len(),
                p0.free_count() > n,
                i <= n,
                ms.wf_in(phys),
                !p0.used().contains(ms.root()),
                forall|v: u64| #[trigger] ms.pt().contains_key(v) <==> src.mapped@.take(i as int).contains(v),
                forall|v: u64| #[trigger] ms.pt().contains_key(v) ==> ms.pt()[v].flags == src.pt()[v].flags
                    && !p0.used().contains(ms.pt()[v].ppn),
                forall|v: u64, o: int| ms.pt().contains_key(v) && 0 <= o < PAGE_SIZE ==>
                    #[trigger] frame_byte(phys.mem(), ms.pt()[v].ppn, o) == frame_byte(p0.mem(), src.pt()[v].ppn, o),
                ms.heap_start_vpn() == src.heap_start_vpn(),
                ms.heap_end_vpn() == src.heap_end_vpn(),
                phys.used() == p0.used().union(ms.owned()),
                frames_kept(p0.mem(), phys.mem(), p0.used()),
                phys.num_frames() == p0.num_frames(),
                phys.free_count() + i + 1 == p0.free_count(),
            decreases n - i,
        {
            let vpn = src.mapped[i];
            proof {
                assert(src.pt().contains_key(vpn));
                assert(!ms.pt().contains_key(vpn)) by {
                    if src.mapped@.take(i as int).contains(vpn) {
                        let j = choose|j: int| 0 <= j < i && src.mapped@.take(i as int)[j] == vpn;
                        assert(src.mapped@[j] == src.mapped@[i as int]);
                    }
                }
                src.lemma_entry_in_range(&p0, vpn);
                assert(frames_of(src.pt()).contains(src.pt()[vpn].ppn));
            }
            let e = *src.page_table.get(&vpn).unwrap();
            let ghost pt0 = ms.pt();
            let ghost mem0 = phys.mem();
            let p = ms.map_one(phys, vpn, e.flags);
            phys.copy_frame(e.ppn, p);
            proof {
                let pt1 = ms.pt();
                let mem1 = phys.mem();
                let t0 = src.mapped@.take(i as int);
                let t1 = src.mapped@.take(i + 1);
                assert(t1 =~= t0.push(vpn));
                assert forall|v: u64| #[trigger] pt1.contains_key(v) <==> t1.contains(v) by {
                    if v == vpn {
                        assert(t1[i as int] == vpn);
                    } else {
                        if t0.contains(v) {
                            let j = choose|j: int| 0 <= j < t0.len() && t0[j] == v;
                            assert(t1[j] == v);
                        }
                        if t1.contains(v) {
                            let j = choose|j: int| 0 <= j < t1.len() && t1[j] == v;
                            assert(j < i);
                            assert(t0[j] == v);
                        }
                    }
                }
                assert forall|v: u64| #[trigger] pt1.contains_key(v) implies pt1[v].flags == src.pt()[v].flags
                    && !p0.used().contains(pt1[v].ppn) by {
                    if v != vpn { assert(pt0.contains_key(v)); }
                }
                assert forall|v: u64, o: int| pt1.contains_key(v) && 0 <= o < PAGE_SIZE implies
                    #[trigger] frame_byte(mem1, pt1[v].ppn, o) == frame_byte(p0.mem(), src.pt()[v].ppn, o) by {
                    let q = pt1[v].ppn;
                    let nf = p0.num_frames();
                    p0.lemma_mem_len();
                    phys.lemma_mem_len();
                    ms.lemma_entry_in_range(phys, v);
                    assert((q * 4096 + o) / 4096 == q && (q * 4096 + o) % 4096 == o
                        && q * 4096 + o < nf * 4096) by (nonlinear_arith)
                        requires 0 <= o < 4096, 0 <= q < nf;
                    if v == vpn {
                        let sp = e.ppn;
                        assert((sp * 4096 + o) / 4096 == sp && sp * 4096 + o < nf * 4096) by (nonlinear_arith)
                            requires 0 <= o < 4096, 0 <= sp < nf;
                        assert(mem1[q * 4096 + o] == zero_frame(mem0, p)[sp * 4096 + o]);
                        assert(mem0[sp * 4096 + o] == p0.mem()[sp * 4096 + o]);
                    } else {
                        assert(pt0.contains_key(v));
                        assert(q != p);
                        assert(mem1[q * 4096 + o] == mem0[q * 4096 + o]);
                        assert(frame_byte(mem0, pt0[v].ppn, o) == frame_byte(p0.mem(), src.pt()[v].ppn, o));
                    }
                }
                assert forall|j: int| 0 <= j < p0.mem().len() && p0.used().contains((j / (PAGE_SIZE as int)) as u64)
                    implies #[trigger] mem1[j] == p0.mem()[j] by {
                    assert(mem1[j] == mem0[j]);
                }
                assert(phys.used() =~= p0.used().union(ms.owned()));
            }
            i = i + 1;
        }
        proof {
            assert(src.mapped@.take(n as int) =~= src.mapped@);
            assert forall|v: u64| #[trigger] ms.pt().contains_key(v) <==> src.pt().contains_key(v) by {
                if src.pt().contains_key(v) { assert(src.mapped@.contains(v)); }
            }
            assert forall|v: u64| src.pt().contains_key(v) implies (#[trigger] ms.pt()[v]).flags == src.pt()[v].flags by {
                assert(ms.pt().contains_key(v));
            }
            assert forall|va: int| va_mapped(src.pt(), va) implies
                #[trigger] user_byte(ms.pt(), phys.mem(), va) == user_byte(src.pt(), p0.mem(), va) by {
                let v = page_of(va) as u64;
                assert(ms.pt().contains_key(v));
                let o = va % (PAGE_SIZE as int);
                assert(frame_byte(phys.mem(), ms.pt()[v].ppn, o) == frame_byte(p0.mem(), src.pt()[v].ppn, o));
            }
            assert forall|q: u64| ms.owned().contains(q) implies !p0.used().contains(q) by {
                if q != ms.root() {
                    let v = choose|v: u64| ms.pt().contains_key(v) && #[trigger] ms.pt()[v].ppn == q;
                }
            }
        }
        ms
    }

    /// Whether shrinking the heap that starts at the page of `start` to `new_end` is
    /// defined.
    pub fn heap_can_shrink(&self, start: VirtAddr, new_end: VirtAddr) -> (r: bool)
        requires
            self.wf(),
        ensures
            r == heap_shrink_allowed(*self, start, new_end),
    {
        if start.floor().0 != self.heap_start {
            return true;
        }
        let ne = new_end.ceil().0;
        self.heap_start <= ne && ne <= self.heap_end && self.range_is_mapped(ne, self.heap_end)
    }

    /// Whether growing the heap that starts at the page of `start` to `new_end`, with
    /// `free` frames left, is defined.
    pub fn heap_can_append(&self, free: u64, start: VirtAddr, new_end: VirtAddr) -> (r: bool)
        requires
            self.wf(),
        ensures
            r == heap_append_allowed(*self, free as nat, start, new_end),
    {
        if start.floor().0 != self.heap_start {
            return true;
        }
        let ne = new_end.ceil().0;
        self.heap_end <= ne && ne <= VPN_LIMIT && self.range_is_unmapped(self.heap_end, ne)
            && free >= ne - self.heap_end
    }

    /// Whether no page of `s .. e` is mapped.
    pub fn range_is_unmapped(&self, s: u64, e: u64) -> (r: bool)
        ensures
            r == range_unmapped(self.pt(), s as int, e as int),
    {
        let mut cur = s;
        while cur < e
            invariant
                s <= cur || e <= s,
                cur >= s,
                range_unmapped(self.pt(), s as int, cur as int),
            decreases e - cur,
        {
            if self.page_table.contains_key(&cur) {
                return false;
            }
            cur = cur + 1;
        }
        true
    }

    /// Whether every page of `s .. e` is mapped.
    pub fn range_is_mapped(&self, s: u64, e: u64) -> (r: bool)
        ensures
            r == range_mapped(self.pt(), s as int, e as int),
    {
        let mut cur = s;
        while cur < e
            invariant
                cur >= s,
                range_mapped(self.pt(), s as int, cur as int),
            decreases e - cur,
        {
            if !self.page_table.contains_key(&cur) {
                return false;
            }
            cur = cur + 1;
        }
        true
    }

    /// Maps the pages from the one holding `start` up to the first page boundary at or
    /// above `end`, each to a fresh zeroed frame, with permission `perm`. Fails, and
    /// changes nothing, when the range is reversed or leaves the Sv39 space, when one of
    /// its pages is mapped already, or when too few frames are free.
    pub fn map_frame(&mut self, phys: &mut PhysMemory, start: VirtAddr, end: VirtAddr, perm: MapPermission) -> (r: bool)
        requires
            old(self).wf_in(old(phys)),
        ensures
            final(self).wf_in(final(phys)),
            final(self).root() == old(self).root(),
            final(self).heap_start_vpn() == old(self).heap_start_vpn(),
            final(self).heap_end_vpn() == old(self).heap_end_vpn(),
            final(phys).num_frames() == old(phys).num_frames(),
            r == map_frame_ok(old(self).pt(), old(phys).free_count(), page_of(start.0 as int), page_ceil(end.0 as int)),
            r ==> {
                let s = page_of(start.0 as int);
                let e = page_ceil(end.0 as int);
                &&& range_added(old(self).pt(), final(self).pt(), s, e, perm.spec_pte_flags(), old(phys).used())
                &&& final(phys).used() == old(phys).used().union(frames_in(final(self).pt(), s, e))
                &&& frames_zeroed(old(phys).mem(), final(phys).mem(), frames_in(final(self).pt(), s, e))
                &&& final(phys).free_count() + (e - s) == old(phys).free_count()
            },
            !r ==> *final(self) == *old(self) && *final(phys) == *old(phys),
    {
        let s = start.floor().0;
        let e = end.ceil().0;
        if s > e || e > VPN_LIMIT {
            return false;
        }
        if !self.range_is_unmapped(s, e) {
            return false;
        }
        if phys.free_frames() < e - s {
            return false;
        }
        let flags = perm.pte_flags();
        self.map_range(phys, s, e, flags);
        true
    }

    /// Unmaps the pages from the one holding `start` up to the first page boundary at or
    /// above `end`, returning their frames. Fails, and changes nothing, when the range is
    /// reversed or one of its pages is not mapped.
    pub fn unmap_frame(&mut self, phys: &mut PhysMemory, start: VirtAddr, end: VirtAddr) -> (r: bool)
        requires
            old(self).wf_in(old(phys)),
        ensures
            final(self).wf_in(final(phys)),
            final(self).root() == old(self).root(),
            final(self).heap_start_vpn() == old(self).heap_start_vpn(),
            final(self).heap_end_vpn() == old(self).heap_end_vpn(),
            final(phys).num_frames() == old(phys).num_frames(),
            final(phys).mem() == old(phys).mem(),
            r == unmap_frame_ok(old(self).pt(), page_of(start.0 as int), page_ceil(end.0 as int)),
            r ==> {
                let s = page_of(start.0 as int);
                let e = page_ceil(end.0 as int);
                &&& range_removed(old(self).pt(), final(self).pt(), s, e)
                &&& final(phys).used() == old(phys).used().difference(frames_in(old(self).pt(), s, e))
                &&& final(phys).free_count() == old(phys).free_count() + (e - s)
            },
            !r ==> *final(self) == *old(self) && *final(phys) == *old(phys),
    {
        let s = start.floor().0;
        let e = end.ceil().0;
        if s > e {
            return false;
        }
        if !self.range_is_mapped(s, e) {
            return false;
        }
        self.unmap_range(phys, s, e);
        true
    }

    /// Sets the heap area to the empty range at page `vpn`.
    pub fn set_heap(&mut self, vpn: u64)
        requires
            old(self).wf(),
            vpn <= VPN_LIMIT,
        ensures
            final(self).wf(),
            final(self).pt() == old(self).pt(),
            final(self).root() == old(self).root(),
            final(self).heap_start_vpn() == vpn,
            final(self).heap_end_vpn() == vpn,
    {
        self.heap_start = vpn;
        self.heap_end = vpn;
        assert(self.list_matches());
        assert(self.pt() == old(self).pt());
    }

    /// Shrinks the heap area that starts at the page holding `start` so that it ends at
    /// the first page boundary at or above `new_end`, unmapping the pages it gives up.
    /// Returns `false`, changing nothing, when no heap area starts at that page.
    pub fn shrink_to(&mut self, phys: &mut PhysMemory, start: VirtAddr, new_end: VirtAddr) -> (r: bool)
        requires
            old(self).wf_in(old(phys)),
            heap_shrink_allowed(*old(self), start, new_end),
        ensures
            final(self).wf_in(final(phys)),
            final(self).root() == old(self).root(),
            final(phys).num_frames() == old(phys).num_frames(),
            final(phys).mem() == old(phys).mem(),
            r == (page_of(start.0 as int) == old(self).heap_start_vpn()),
            r ==> {
                let ne = page_ceil(new_end.0 as int);
                let he = old(self).heap_end_vpn() as int;
                &&& range_removed(old(self).pt(), final(self).pt(), ne, he)
                &&& final(phys).used() == old(phys).used().difference(frames_in(old(self).pt(), ne, he))
                &&& final(phys).free_count() == old(phys).free_count() + (he - ne)
                &&& final(self).heap_start_vpn() == old(self).heap_start_vpn()
                &&& final(self).heap_end_vpn() == ne
            },
            !r ==> *final(self) == *old(self) && *final(phys) == *old(phys),
    {
        if start.floor().0 != self.heap_start {
            return false;
        }
        let ne = new_end.ceil().0;
        let he = self.heap_end;
        self.unmap_range(phys, ne, he);
        self.heap_end = ne;
        true
    }

    /// Grows the heap area that starts at the page holding `start` so that it ends at
    /// the first page boundary at or above `new_end`, mapping each new page to a fresh
    /// zeroed frame, readable and writable from user mode. Returns `false`, changing
    /// nothing, when no heap area starts at that page.
    pub fn append_to(&mut self, phys: &mut PhysMemory, start: VirtAddr, new_end: VirtAddr) -> (r: bool)
        requires
            old(self).wf_in(old(phys)),
            heap_append_allowed(*old(self), old(phys).free_count(), start, new_end),
        ensures
            final(self).wf_in(final(phys)),
            final(self).root() == old(self).root(),
            final(phys).num_frames() == old(phys).num_frames(),
            r == (page_of(start.0 as int) == old(self).heap_start_vpn()),
            r ==> {
                let ne = page_ceil(new_end.0 as int);
                let he = old(self).heap_end_vpn() as int;
                &&& range_added(old(self).pt(), final(self).pt(), he, ne, heap_flags(), old(phys).used())
                &&& forall|v: u64| he <= v < ne ==> #[trigger] final(self).pt().contains_key(v)
                    && final(self).pt()[v].flags == (PTEFlags { v: true, r: true, w: true, x: false, u: true })
                &&& final(phys).used() == old(phys).used().union(frames_in(final(self).pt(), he, ne))
                &&& frames_zeroed(old(phys).mem(), final(phys).mem(), frames_in(final(self).pt(), he, ne))
                &&& final(phys).free_count() + (ne - he) == old(phys).free_count()
                &&& final(self).heap_start_vpn() == old(self).heap_start_vpn()
                &&& final(self).heap_end_vpn() == ne
            },
            !r ==> *final(self) == *old(self) && *final(phys) == *old(phys),
    {
        if start.floor().0 != self.heap_start {
            return false;
        }
        let ne = new_end.ceil().0;
        let he = self.heap_end;
        let flags = PTEFlags { v: true, r: true, w: true, x: false, u: true };
        self.map_range(phys, he, ne, flags);
        self.heap_end = ne;
        true
    }

    /// Returns every frame of this address space, its pages' and its root's, to the
    /// allocator.
    pub fn release(self, phys: &mut PhysMemory)
        requires
            self.wf_in(old(phys)),
        ensures
            final(phys).wf(),
            final(phys).used() == old(phys).used().difference(self.owned()),
            final(phys).mem() == old(phys).mem(),
            final(phys).num_frames() == old(phys).num_frames(),
    {
        let ghost orig = self;
        let mut ms = self;
        while ms.mapped.len() > 0
            invariant
                ms.wf_in(phys),
                ms.root() == orig.root(),
                orig.wf(),
                forall|v: u64| #[trigger] ms.pt().contains_key(v) ==> orig.pt().contains_key(v) && ms.pt()[v] == orig.pt()[v],
                phys.used() == old(phys).used().difference(frames_of(orig.pt()).difference(frames_of(ms.pt()))),
                frames_of(ms.pt()).subset_of(frames_of(orig.pt())),
                phys.mem() == old(phys).mem(),
                phys.num_frames() == old(phys).num_frames(),
            decreases ms.pt().dom().len(),
        {
            let last = ms.mapped.len() - 1;
            let v = ms.mapped[last];
            let ghost pt0 = ms.pt();
            let ghost used0 = phys.used();
            ms.unmap_one(phys, v);
            proof {
                let q = pt0[v].ppn;
                let pt1 = ms.pt();
                assert(pt1.dom() =~= pt0.dom().remove(v));
                assert(frames_of(pt1) =~= frames_of(pt0).remove(q)) by {
                    assert forall|r: u64| frames_of(pt1).contains(r) <==> frames_of(pt0).remove(q).contains(r) by {
                        if frames_of(pt1).contains(r) {
                            let w = choose|w: u64| pt1.contains_key(w) && #[trigger] pt1[w].ppn == r;
                            assert(pt0.contains_key(w) && pt0[w].ppn == r);
                            assert(w != v);
                        }
                        if frames_of(pt0).contains(r) && r != q {
                            let w = choose|w: u64| pt0.contains_key(w) && #[trigger] pt0[w].ppn == r;
                            assert(w != v);
                            assert(pt1.contains_key(w) && pt1[w].ppn == r);
                        }
                    }
                }
                assert(frames_of(orig.pt()).contains(q)) by {
                    assert(orig.pt().contains_key(v) && orig.pt()[v].ppn == q);
                }
                assert(phys.used() =~= old(phys).used().difference(frames_of(orig.pt()).difference(frames_of(pt1))));
            }
        }
        proof {
            assert(ms.pt().dom() =~= Set::<u64>::empty()) by {
                assert forall|v: u64| !ms.pt().contains_key(v) by {
                    if ms.pt().contains_key(v) {
                        assert(ms.mapped@.contains(v));
                    }
                }
            }
            assert(frames_of(ms.pt()) =~= Set::<u64>::empty());
            assert(ms.owned().contains(ms.root()));
        }
        phys.frame_dealloc(ms.root_ppn);
        proof {
            assert(!frames_of(orig.pt()).contains(orig.root())) by {
                if frames_of(orig.pt()).contains(orig.root()) {
                    let w = choose|w: u64| orig.pt().contains_key(w) && #[trigger] orig.pt()[w].ppn == orig.root();
                }
            }
            assert(phys.used() =~= old(phys).used().difference(orig.owned()));
        }
    }
}

/// Whether mapping the pages `s .. e` succeeds on page table `pt` with `free` frames left.
pub open spec fn map_frame_ok(pt: Map<u64, PageTableEntry>, free: nat, s: int, e: int) -> bool {
    &&& s <= e <= VPN_LIMIT
    &&& range_unmapped(pt, s, e)
    &&& free >= e - s
}

/// The flags of heap pages: valid, readable, writable and reachable from user mode.
pub open spec fn heap_flags() -> PTEFlags {
    PTEFlags { v: true, r: true, w: true, x: false, u: true }
}

/// Shrinking the heap that starts at the page of `start` to `new_end` is defined: the new
/// end lies inside the heap area and every page it gives up is mapped.
pub open spec fn heap_shrink_allowed(ms: MemorySet, start: VirtAddr, new_end: VirtAddr) -> bool {
    page_of(start.0 as int) == ms.heap_start_vpn() ==> {
        let ne = page_ceil(new_end.0 as int);
        &&& ms.heap_start_vpn() <= ne <= ms.heap_end_vpn()
        &&& range_mapped(ms.pt(), ne, ms.heap_end_vpn() as int)
    }
}

/// Growing the heap that starts at the page of `start` to `new_end` is defined: the new
/// end lies at or above the heap's end inside the Sv39 space, none of the new pages is
/// mapped yet, and `free` frames suffice.
pub open spec fn heap_append_allowed(ms: MemorySet, free: nat, start: VirtAddr, new_end: VirtAddr) -> bool {
    page_of(start.0 as int) == ms.heap_start_vpn() ==> {
        let ne = page_ceil(new_end.0 as int);
        &&& ms.heap_end_vpn() <= ne <= VPN_LIMIT
        &&& range_unmapped(ms.pt(), ms.heap_end_vpn() as int, ne)
        &&& free >= ne - ms.heap_end_vpn()
    }
}

/// Whether unmapping the pages `s .. e` succeeds on page table `pt`.
pub open spec fn unmap_frame_ok(pt: Map<u64, PageTableEntry>, s: int, e: int) -> bool {
    &&& s <= e
    &&& range_mapped(pt, s, e)
}

/// Mapping fresh pages adds their frames to the frames an address space owns.
pub proof fn lemma_owned_after_map(ms0: MemorySet, ms1: MemorySet, s: int, e: int, flags: PTEFlags, used: Set<u64>)
    requires
        range_added(ms0.pt(), ms1.pt(), s, e, flags, used),
        ms1.root() == ms0.root(),
    ensures
        ms1.owned() == ms0.owned().union(frames_in(ms1.pt(), s, e)),
{
    let f = frames_in(ms1.pt(), s, e);
    let opt = ms0.pt();
    let npt = ms1.pt();
    assert forall|q: u64| #[trigger] ms1.owned().contains(q) <==> ms0.owned().union(f).contains(q) by {
        if frames_of(npt).contains(q) {
            let v = choose|v: u64| npt.contains_key(v) && #[trigger] npt[v].ppn == q;
            if s <= v < e {
                assert(f.contains(q));
            } else {
                assert(opt.contains_key(v) && opt[v].ppn == q);
                assert(frames_of(opt).contains(q));
            }
        }
        if frames_of(opt).contains(q) {
            let v = choose|v: u64| opt.contains_key(v) && #[trigger] opt[v].ppn == q;
            assert(npt.contains_key(v) && npt[v].ppn == q);
            assert(frames_of(npt).contains(q));
        }
        if f.contains(q) {
            let v = choose|v: u64| s <= v < e && npt.contains_key(v) && #[trigger] npt[v].ppn == q;
            assert(frames_of(npt).contains(q));
        }
    }
    assert(ms1.owned() =~= ms0.owned().union(f));
}

/// Removing pages leaves an address space owning a subset of its frames; the frames of the
/// removed pages are among those it owned.
pub proof fn lemma_owned_after_unmap(ms0: MemorySet, ms1: MemorySet, s: int, e: int)
    requires
        range_removed(ms0.pt(), ms1.pt(), s, e),
        ms1.root() == ms0.root(),
    ensures
        ms1.owned().subset_of(ms0.owned()),
        frames_in(ms0.pt(), s, e).subset_of(ms0.owned()),
{
    assert forall|q: u64| ms1.owned().contains(q) implies ms0.owned().contains(q) by {
        if frames_of(ms1.pt()).contains(q) {
            let v = choose|v: u64| ms1.pt().contains_key(v) && #[trigger] ms1.pt()[v].ppn == q;
            assert(ms0.pt().contains_key(v) && ms0.pt()[v].ppn == q);
            assert(frames_of(ms0.pt()).contains(q));
        }
    }
    assert forall|q: u64| frames_in(ms0.pt(), s, e).contains(q) implies ms0.owned().contains(q) by {
        let v = choose|v: u64| s <= v < e && ms0.pt().contains_key(v) && #[trigger] ms0.pt()[v].ppn == q;
        assert(frames_of(ms0.pt()).contains(q));
    }
}

} // verus!
