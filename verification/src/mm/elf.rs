//! Building a user address space from a loaded program image.
use vstd::prelude::*;
use crate::config::{PAGE_SIZE, USER_STACK_SIZE};
use crate::mm::address::{VirtAddr, VPN_LIMIT, VA_LIMIT, page_of, page_ceil};
use crate::mm::frame::PhysMemory;
use crate::mm::memory_set::{MemorySet, lemma_owned_after_map, heap_flags, range_unmapped, range_added, frames_in, frames_zeroed, va_mapped, va_to_pa, user_byte};
use crate::mm::page_table::{MapPermission, PTEFlags};
use crate::mm::user_access::{write_user_bytes, user_bytes, user_range_mapped, lemma_va_to_pa_injective,
    lemma_va_to_pa_in_range};

verus! {

/// The page that holds the trap context of a user address space.
pub const TRAP_CONTEXT_VPN: u64 = 0x7ff_fffe;

/// The page number of the trap context, as a virtual address.
pub const TRAP_CONTEXT_BASE: u64 = 0x7f_ffff_e000;

/// A loadable segment of a program: where it goes, how large it is in memory, with
/// which rights, and the bytes it starts with.
pub struct ProgramSegment {
    /// first virtual address of the segment
    pub start_va: u64,
    /// size of the segment in memory, in bytes
    pub mem_size: u64,
    /// access rights of the segment (user access is always granted)
    pub perm: MapPermission,
    /// the bytes copied to the start of the segment's first page
    pub data: Vec<u8>,
}

/// A program, as its loadable segments and its entry point.
pub struct AppImage {
    /// the segments, in ascending address order
    pub segments: Vec<ProgramSegment>,
    /// the address of the first instruction
    pub entry_point: u64,
}

/// The first page of segment `seg`.
pub open spec fn seg_start(seg: ProgramSegment) -> int {
    page_of(seg.start_va as int)
}

/// The page just past segment `seg`.
pub open spec fn seg_end(seg: ProgramSegment) -> int {
    page_ceil(seg.start_va + seg.mem_size)
}

/// The flags of the pages of segment `seg`.
pub open spec fn seg_flags(seg: ProgramSegment) -> PTEFlags {
    PTEFlags { v: true, r: seg.perm.r, w: seg.perm.w, x: seg.perm.x, u: true }
}

/// The number of pages the segments `segs` occupy.
pub open spec fn pages_of(segs: Seq<ProgramSegment>) -> int
    decreases segs.len(),
{
    if segs.len() == 0 {
        0
    } else {
        pages_of(segs.drop_last()) + (seg_end(segs.last()) - seg_start(segs.last()))
    }
}

/// The page just past the last segment of `segs`, or 0 when there is none.
pub open spec fn segs_end(segs: Seq<ProgramSegment>) -> int {
    if segs.len() == 0 { 0 } else { seg_end(segs.last()) }
}

/// The first page of the user stack of an image whose segments are `segs`: one guard page
/// above the last segment.
pub open spec fn stack_bottom_vpn(segs: Seq<ProgramSegment>) -> int {
    segs_end(segs) + 1
}

/// The page just past the user stack of an image whose segments are `segs`.
pub open spec fn stack_top_vpn(segs: Seq<ProgramSegment>) -> int {
    stack_bottom_vpn(segs) + USER_STACK_SIZE / PAGE_SIZE
}

/// The number of frames that loading `img` takes: the root, the segments' pages, the
/// user stack and the trap context.
pub open spec fn frames_needed(img: AppImage) -> int {
    1 + pages_of(img.segments@) + USER_STACK_SIZE / PAGE_SIZE + 1
}

/// The image can be loaded: its segments lie in ascending order on pages of their own,
/// each segment's bytes fit in its pages, and the user stack ends below the trap context.
pub open spec fn image_wf(img: AppImage) -> bool {
    let segs = img.segments@;
    &&& forall|k: int| 0 <= k < segs.len() ==> (#[trigger] segs[k]).start_va + segs[k].mem_size <= VA_LIMIT
    &&& forall|k: int| 0 <= k < segs.len() ==> (#[trigger] segs[k]).data@.len()
        <= (seg_end(segs[k]) - seg_start(segs[k])) * PAGE_SIZE
    &&& forall|i: int, j: int| 0 <= i < j < segs.len() ==> seg_end(#[trigger] segs[i]) <= seg_start(#[trigger] segs[j])
    &&& stack_top_vpn(segs) <= TRAP_CONTEXT_VPN
}

/// The address space that loading `img` yields: exactly the segments' pages with their
/// flags and their bytes, the user stack and the trap-context page, readable and
/// writable, and an empty heap at the top of the stack.
pub open spec fn loaded_image(ms: MemorySet, mem: Seq<u8>, img: AppImage) -> bool {
    let segs = img.segments@;
    let sb = stack_bottom_vpn(segs);
    let st = stack_top_vpn(segs);
    &&& forall|v: u64| #[trigger] ms.pt().contains_key(v) <==> (
        (exists|k: int| 0 <= k < segs.len() && seg_start(#[trigger] segs[k]) <= v < seg_end(segs[k]))
        || (sb <= v < st) || v == TRAP_CONTEXT_VPN)
    &&& forall|k: int, v: u64| 0 <= k < segs.len() && seg_start(#[trigger] segs[k]) <= v < seg_end(segs[k])
        ==> (#[trigger] ms.pt()[v]).flags == seg_flags(segs[k])
    &&& forall|k: int| 0 <= k < segs.len() ==>
        user_bytes(ms.pt(), mem, seg_start(#[trigger] segs[k]) * PAGE_SIZE, segs[k].data@.len()) == segs[k].data@
    &&& forall|v: u64| sb <= v < st ==> (#[trigger] ms.pt()[v]).flags == heap_flags()
    &&& ms.pt()[TRAP_CONTEXT_VPN].flags == (PTEFlags { v: true, r: true, w: true, x: false, u: false })
    &&& ms.heap_start_vpn() == st && ms.heap_end_vpn() == st
}


/// The physical address of a mapped user address lies in the frame of its page.
pub proof fn lemma_va_to_pa_frame(pt: Map<u64, crate::mm::page_table::PageTableEntry>, va: int)
    requires
        va_mapped(pt, va),
    ensures
        va_to_pa(pt, va) / (PAGE_SIZE as int) == pt[page_of(va) as u64].ppn,
{
    let q = pt[page_of(va) as u64].ppn as int;
    let o = va % (PAGE_SIZE as int);
    assert((q * 4096 + o) / 4096 == q) by (nonlinear_arith)
        requires 0 <= o < 4096, q >= 0;
}

/// The user address `s * PAGE_SIZE + i`, for `i` below `n * PAGE_SIZE`, lies in one of the
/// pages `s .. s + n`.
pub proof fn lemma_page_of_offset(s: int, n: int, i: int)
    requires
        0 <= s,
        0 <= i < n * PAGE_SIZE,
    ensures
        s <= page_of(s * PAGE_SIZE + i) < s + n,
{
    assert(s <= (s * 4096 + i) / 4096 < s + n) by (nonlinear_arith)
        requires 0 <= s, 0 <= i < n * 4096;
}

/// Mapping fresh pages leaves what user code reads at already mapped addresses unchanged.
proof fn lemma_map_keeps_bytes(
    ms0: MemorySet, ms1: MemorySet, phys0: &PhysMemory, mem1: Seq<u8>, s: int, e: int, flags: PTEFlags, va: int)
    requires
        ms0.wf_in(phys0),
        range_added(ms0.pt(), ms1.pt(), s, e, flags, phys0.used()),
        frames_zeroed(phys0.mem(), mem1, frames_in(ms1.pt(), s, e)),
        va_mapped(ms0.pt(), va),
    ensures
        va_mapped(ms1.pt(), va),
        user_byte(ms1.pt(), mem1, va) == user_byte(ms0.pt(), phys0.mem(), va),
{
    let v = page_of(va) as u64;
    assert(ms1.pt()[v] == ms0.pt()[v]);
    let q = ms0.pt()[v].ppn;
    assert(crate::mm::memory_set::frames_of(ms0.pt()).contains(q));
    assert(phys0.used().contains(q));
    lemma_va_to_pa_frame(ms0.pt(), va);
    lemma_va_to_pa_in_range(&ms0, phys0, va);
    let j = va_to_pa(ms0.pt(), va);
    if exists|r: u64| frames_in(ms1.pt(), s, e).contains(r) && j / (PAGE_SIZE as int) == r {
        let r = choose|r: u64| frames_in(ms1.pt(), s, e).contains(r) && j / (PAGE_SIZE as int) == r;
        let w = choose|w: u64| s <= w < e && ms1.pt().contains_key(w) && #[trigger] ms1.pt()[w].ppn == r;
        assert(!phys0.used().contains(ms1.pt()[w].ppn));
        assert(false);
    }
}


/// A loaded image stays loaded when the frames in use keep their bytes.
pub proof fn lemma_loaded_image_kept(ms: MemorySet, phys0: &PhysMemory, mem1: Seq<u8>, img: AppImage)
    requires
        image_wf(img),
        ms.wf_in(phys0),
        loaded_image(ms, phys0.mem(), img),
        frames_kept(phys0.mem(), mem1, phys0.used()),
    ensures
        loaded_image(ms, mem1, img),
{
    let segs = img.segments@;
    let pt = ms.pt();
    assert forall|k: int| 0 <= k < segs.len() implies
        user_bytes(pt, mem1, seg_start(#[trigger] segs[k]) * PAGE_SIZE, segs[k].data@.len())
            == segs[k].data@ by {
        let s = seg_start(segs[k]);
        let n = seg_end(segs[k]) - s;
        let len = segs[k].data@.len();
        assert(user_bytes(pt, phys0.mem(), s * PAGE_SIZE, len) == segs[k].data@);
        assert forall|i: int| 0 <= i < len implies
            #[trigger] user_byte(pt, mem1, s * PAGE_SIZE + i) == user_byte(pt, phys0.mem(), s * PAGE_SIZE + i) by {
            let va = s * PAGE_SIZE + i;
            lemma_seg_ordered(segs[k]);
            assert(len <= n * PAGE_SIZE);
            lemma_page_of_offset(s, n, i);
            let v = page_of(va) as u64;
            assert(s <= v < seg_end(segs[k]));
            assert(pt.contains_key(v));
            assert(0 <= s * PAGE_SIZE + i) by (nonlinear_arith) requires s >= 0, i >= 0;
            assert(va_mapped(pt, va));
            lemma_va_to_pa_frame(pt, va);
            lemma_va_to_pa_in_range(&ms, phys0, va);
            assert(crate::mm::memory_set::frames_of(pt).contains(pt[v].ppn));
            assert(phys0.used().contains(pt[v].ppn));
            let j = va_to_pa(pt, va);
            assert(mem1[j] == phys0.mem()[j]);
        }
        assert(user_bytes(pt, mem1, s * PAGE_SIZE, len) =~= user_bytes(pt, phys0.mem(), s * PAGE_SIZE, len));
    }
}

/// A loaded image stays loaded when every frame but that of the trap-context page keeps
/// its bytes.
pub proof fn lemma_loaded_image_kept_but_trap(ms: MemorySet, phys0: &PhysMemory, mem1: Seq<u8>, img: AppImage)
    requires
        image_wf(img),
        ms.wf_in(phys0),
        loaded_image(ms, phys0.mem(), img),
        ms.pt().contains_key(TRAP_CONTEXT_VPN),
        frames_kept(phys0.mem(), mem1, Set::new(|q: u64| q != ms.pt()[TRAP_CONTEXT_VPN].ppn)),
    ensures
        loaded_image(ms, mem1, img),
{
    let segs = img.segments@;
    let pt = ms.pt();
    let tp = pt[TRAP_CONTEXT_VPN].ppn;
    assert forall|k: int| 0 <= k < segs.len() implies
        user_bytes(pt, mem1, seg_start(#[trigger] segs[k]) * PAGE_SIZE, segs[k].data@.len())
            == segs[k].data@ by {
        let s = seg_start(segs[k]);
        let n = seg_end(segs[k]) - s;
        let len = segs[k].data@.len();
        assert(user_bytes(pt, phys0.mem(), s * PAGE_SIZE, len) == segs[k].data@);
        assert forall|i: int| 0 <= i < len implies
            #[trigger] user_byte(pt, mem1, s * PAGE_SIZE + i) == user_byte(pt, phys0.mem(), s * PAGE_SIZE + i) by {
            let va = s * PAGE_SIZE + i;
            lemma_seg_ordered(segs[k]);
            assert(len <= n * PAGE_SIZE);
            lemma_page_of_offset(s, n, i);
            let v = page_of(va) as u64;
            assert(s <= v < seg_end(segs[k]));
            lemma_pages_of_bound(segs);
            assert(seg_end(segs[k]) <= segs_end(segs)) by {
                if k < segs.len() - 1 {
                    lemma_seg_ordered(segs.last());
                    assert(seg_end(segs[k]) <= seg_start(segs[segs.len() - 1]));
                }
            }
            assert(v != TRAP_CONTEXT_VPN);
            assert(pt.contains_key(v));
            assert(pt[v].ppn != tp);
            assert(0 <= s * PAGE_SIZE + i) by (nonlinear_arith) requires s >= 0, i >= 0;
            assert(va_mapped(pt, va));
            lemma_va_to_pa_frame(pt, va);
            lemma_va_to_pa_in_range(&ms, phys0, va);
            let j = va_to_pa(pt, va);
            assert(mem1[j] == phys0.mem()[j]);
        }
        assert(user_bytes(pt, mem1, s * PAGE_SIZE, len) =~= user_bytes(pt, phys0.mem(), s * PAGE_SIZE, len));
    }
}

/// `new_mem` agrees with `old_mem` on every frame of `keep`.
pub open spec fn frames_kept(old_mem: Seq<u8>, new_mem: Seq<u8>, keep: Set<u64>) -> bool {
    &&& new_mem.len() == old_mem.len()
    &&& forall|j: int| 0 <= j < old_mem.len() && keep.contains((j / (PAGE_SIZE as int)) as u64)
        ==> #[trigger] new_mem[j] == old_mem[j]
}

/// Maps the pages of `seg`, all unmapped, to fresh frames with the segment's flags and
/// copies the segment's bytes to the start of its first page.
fn map_segment(ms: &mut MemorySet, phys: &mut PhysMemory, seg: &ProgramSegment)
    requires
        old(ms).wf_in(old(phys)),
        seg.start_va + seg.mem_size <= VA_LIMIT,
        seg.data@.len() <= (seg_end(*seg) - seg_start(*seg)) * PAGE_SIZE,
        range_unmapped(old(ms).pt(), seg_start(*seg), seg_end(*seg)),
        old(phys).free_count() >= seg_end(*seg) - seg_start(*seg),
    ensures
        final(ms).wf_in(final(phys)),
        range_added(old(ms).pt(), final(ms).pt(), seg_start(*seg), seg_end(*seg), seg_flags(*seg), old(phys).used()),
        final(ms).root() == old(ms).root(),
        final(ms).heap_start_vpn() == old(ms).heap_start_vpn(),
        final(ms).heap_end_vpn() == old(ms).heap_end_vpn(),
        final(ms).owned() == old(ms).owned().union(frames_in(final(ms).pt(), seg_start(*seg), seg_end(*seg))),
        final(phys).used() == old(phys).used().union(frames_in(final(ms).pt(), seg_start(*seg), seg_end(*seg))),
        frames_kept(old(phys).mem(), final(phys).mem(), old(phys).used()),
        user_bytes(final(ms).pt(), final(phys).mem(), seg_start(*seg) * PAGE_SIZE, seg.data@.len()) == seg.data@,
        forall|va: int| va_mapped(old(ms).pt(), va) ==> #[trigger] user_byte(final(ms).pt(), final(phys).mem(), va)
            == user_byte(old(ms).pt(), old(phys).mem(), va),
        final(phys).num_frames() == old(phys).num_frames(),
        final(phys).free_count() + (seg_end(*seg) - seg_start(*seg)) == old(phys).free_count(),
{
    let ghost ms0 = *ms;
    let ghost phys0 = *phys;
    let s = VirtAddr(seg.start_va).floor().0;
    let e = VirtAddr(seg.start_va + seg.mem_size).ceil().0;
    proof {
        assert(page_of(seg.start_va as int) <= page_ceil(seg.start_va + seg.mem_size)) by (nonlinear_arith)
            requires seg.mem_size >= 0, seg.start_va >= 0;
        assert(e <= VPN_LIMIT) by (nonlinear_arith)
            requires e == (seg.start_va + seg.mem_size + 4095) / 4096, seg.start_va + seg.mem_size <= 0x80_0000_0000;
    }
    let flags = PTEFlags { v: true, r: seg.perm.r, w: seg.perm.w, x: seg.perm.x, u: true };
    ms.map_range(phys, s, e, flags);
    let ghost ms1 = *ms;
    let ghost phys1 = *phys;
    proof {
        let f = frames_in(ms1.pt(), s as int, e as int);
        assert forall|q: u64| #[trigger] ms1.owned().contains(q) <==> ms0.owned().union(f).contains(q) by {
            let opt = ms0.pt();
            let npt = ms1.pt();
            if crate::mm::memory_set::frames_of(npt).contains(q) {
                let v = choose|v: u64| npt.contains_key(v) && #[trigger] npt[v].ppn == q;
                if s <= v < e {
                    assert(f.contains(q));
                } else {
                    assert(opt.contains_key(v) && opt[v].ppn == q);
                    assert(crate::mm::memory_set::frames_of(opt).contains(q));
                }
            }
            if crate::mm::memory_set::frames_of(opt).contains(q) {
                let v = choose|v: u64| opt.contains_key(v) && #[trigger] opt[v].ppn == q;
                assert(npt.contains_key(v) && npt[v].ppn == q);
                assert(crate::mm::memory_set::frames_of(npt).contains(q));
            }
            if f.contains(q) {
                let v = choose|v: u64| s <= v < e && npt.contains_key(v) && #[trigger] npt[v].ppn == q;
                assert(crate::mm::memory_set::frames_of(npt).contains(q));
            }
        }
        assert(ms1.owned() =~= ms0.owned().union(f));
        assert forall|va: int| va_mapped(ms0.pt(), va) implies #[trigger] user_byte(ms1.pt(), phys1.mem(), va)
            == user_byte(ms0.pt(), phys0.mem(), va) by {
            lemma_map_keeps_bytes(ms0, ms1, &phys0, phys1.mem(), s as int, e as int, flags, va);
        }
        assert forall|k: int| 0 <= k < seg.data@.len() implies #[trigger] va_mapped(ms1.pt(), s * PAGE_SIZE + k) by {
            lemma_page_of_offset(s as int, e - s, k);
        }
        assert(s * 4096 + seg.data@.len() <= 0x80_0000_0000) by (nonlinear_arith)
            requires s <= 0x800_0000, seg.data@.len() <= (e - s) * 4096, e <= 0x800_0000, s <= e;
    }
    write_user_bytes(ms, phys, s * (PAGE_SIZE as u64), seg.data.as_slice());
    proof {
        let phys2 = *phys;
        let pt = ms1.pt();
        let va0 = s * PAGE_SIZE;
        let n = seg.data@.len();
        assert(user_bytes(pt, phys2.mem(), va0 as int, n) =~= seg.data@);
        assert forall|va: int| va_mapped(ms0.pt(), va) implies #[trigger] user_byte(pt, phys2.mem(), va)
            == user_byte(ms0.pt(), phys0.mem(), va) by {
            lemma_map_keeps_bytes(ms0, ms1, &phys0, phys1.mem(), s as int, e as int, flags, va);
            lemma_va_to_pa_in_range(&ms1, &phys1, va);
            assert forall|k: int| 0 <= k < n implies va_to_pa(pt, va) != #[trigger] va_to_pa(pt, va0 + k) by {
                lemma_page_of_offset(s as int, e - s, k);
                assert(!ms0.pt().contains_key(page_of(va0 + k) as u64));
                lemma_va_to_pa_injective(&ms1, va, va0 + k);
            }
        }
        assert forall|j: int| 0 <= j < phys0.mem().len() && phys0.used().contains((j / (PAGE_SIZE as int)) as u64)
            implies #[trigger] phys2.mem()[j] == phys0.mem()[j] by {
            assert forall|k: int| 0 <= k < n implies j != #[trigger] va_to_pa(pt, va0 + k) by {
                lemma_page_of_offset(s as int, e - s, k);
                lemma_va_to_pa_frame(pt, va0 + k);
                let v = page_of(va0 + k) as u64;
                assert(!phys0.used().contains(pt[v].ppn));
            }
            let q = (j / (PAGE_SIZE as int)) as u64;
            if exists|r: u64| frames_in(pt, s as int, e as int).contains(r) && j / (PAGE_SIZE as int) == r {
                let r = choose|r: u64| frames_in(pt, s as int, e as int).contains(r) && j / (PAGE_SIZE as int) == r;
                let w = choose|w: u64| s <= w < e && pt.contains_key(w) && #[trigger] pt[w].ppn == r;
                assert(false);
            }
            assert(phys1.mem()[j] == phys0.mem()[j]);
        }
    }
}


/// Builds the address space of `img`: each segment on fresh frames holding its bytes,
/// a guard page, the user stack, an empty heap area at the top of the stack, and the
/// trap-context page. Returns the address space, the top of the user stack and the
/// entry point.
pub fn from_elf(img: &AppImage, phys: &mut PhysMemory) -> (r: (MemorySet, u64, u64))
    requires
        old(phys).wf(),
        image_wf(*img),
        old(phys).free_count() >= frames_needed(*img),
    ensures
        r.0.wf_in(final(phys)),
        loaded_image(r.0, final(phys).mem(), *img),
        forall|v: u64| stack_bottom_vpn(img.segments@) <= v < stack_top_vpn(img.segments@) ==>
            #[trigger] r.0.pt().contains_key(v)
            && r.0.pt()[v].flags == (PTEFlags { v: true, r: true, w: true, x: false, u: true }),
        r.1 == stack_top_vpn(img.segments@) * PAGE_SIZE,
        r.2 == img.entry_point,
        r.0.owned().disjoint(old(phys).used()),
        final(phys).used() == old(phys).used().union(r.0.owned()),
        frames_kept(old(phys).mem(), final(phys).mem(), old(phys).used()),
        final(phys).num_frames() == old(phys).num_frames(),
        final(phys).free_count() + frames_needed(*img) == old(phys).free_count(),
{
    let ghost phys0 = *phys;
    let ghost segs = img.segments@;
    proof {
        pages_of_nonneg(segs);
    }
    let opt = MemorySet::new_bare(phys);
    let mut ms = opt.unwrap();
    let n = img.segments.len();
    let mut k: usize = 0;
    let mut end_vpn: u64 = 0;
    proof {
        assert(segs.take(0) =~= Seq::<ProgramSegment>::empty());
        assert(pages_of(segs.take(0)) == 0);
        assert(ms.owned() =~= set![ms.root()]);
    }
    while k < n
        invariant
            n == segs.len(),
            segs == img.segments@,
            image_wf(*img),
            0 <= k <= n,
            ms.wf_in(phys),
            ms.heap_start_vpn() == 0 && ms.heap_end_vpn() == 0,
            !phys0.used().contains(ms.root()),
            ms.owned().disjoint(phys0.used()),
            phys.used() == phys0.used().union(ms.owned()),
            frames_kept(phys0.mem(), phys.mem(), phys0.used()),
            phys.num_frames() == phys0.num_frames(),
            phys.free_count() + 1 + pages_of(segs.take(k as int)) == phys0.free_count(),
            phys0.free_count() >= frames_needed(*img),
            end_vpn == segs_end(segs.take(k as int)),
            forall|v: u64| #[trigger] ms.pt().contains_key(v) <==>
                (exists|i: int| 0 <= i < k && seg_start(#[trigger] segs[i]) <= v < seg_end(segs[i])),
            forall|i: int, v: u64| 0 <= i < k && seg_start(#[trigger] segs[i]) <= v < seg_end(segs[i])
                ==> (#[trigger] ms.pt()[v]).flags == seg_flags(segs[i]),
            forall|i: int| 0 <= i < k ==>
                user_bytes(ms.pt(), phys.mem(), seg_start(#[trigger] segs[i]) * PAGE_SIZE, segs[i].data@.len()) == segs[i].data@,
        decreases n - k,
    {
        let seg = &img.segments[k];
        let ghost ms0 = ms;
        let ghost p0 = *phys;
        proof {
            assert(segs[k as int] == *seg);
            assert forall|v: u64| seg_start(*seg) <= v < seg_end(*seg) implies !ms.pt().contains_key(v) by {
                if ms.pt().contains_key(v) {
                    let i = choose|i: int| 0 <= i < k && seg_start(#[trigger] segs[i]) <= v < seg_end(segs[i]);
                    assert(seg_end(segs[i]) <= seg_start(segs[k as int]));
                }
            }
            pages_of_take_step(segs, k as int);
            pages_of_take_bound(segs, k as int + 1);
        }
        map_segment(&mut ms, phys, seg);
        proof {
            let f = frames_in(ms.pt(), seg_start(*seg), seg_end(*seg));
            assert(ms.owned().disjoint(phys0.used())) by {
                assert forall|q: u64| f.contains(q) implies !phys0.used().contains(q) by {
                    let v = choose|v: u64| seg_start(*seg) <= v < seg_end(*seg) && ms.pt().contains_key(v) && #[trigger] ms.pt()[v].ppn == q;
                    assert(!p0.used().contains(ms.pt()[v].ppn));
                }
            }
            assert(phys.used() =~= phys0.used().union(ms.owned()));
            assert forall|i: int, v: u64| 0 <= i < k + 1 && seg_start(#[trigger] segs[i]) <= v < seg_end(segs[i])
                implies (#[trigger] ms.pt()[v]).flags == seg_flags(segs[i]) by {
                if i < k {
                    assert(ms0.pt().contains_key(v));
                }
            }
            assert forall|v: u64| #[trigger] ms.pt().contains_key(v) <==>
                (exists|i: int| 0 <= i < k + 1 && seg_start(#[trigger] segs[i]) <= v < seg_end(segs[i])) by {
                if ms.pt().contains_key(v) && !ms0.pt().contains_key(v) {
                    assert(seg_start(segs[k as int]) <= v < seg_end(segs[k as int]));
                }
                if exists|i: int| 0 <= i < k + 1 && seg_start(#[trigger] segs[i]) <= v < seg_end(segs[i]) {
                    let i = choose|i: int| 0 <= i < k + 1 && seg_start(#[trigger] segs[i]) <= v < seg_end(segs[i]);
                    if i < k {
                        assert(ms0.pt().contains_key(v));
                    }
                }
            }
            assert forall|i: int| 0 <= i < k + 1 implies
                user_bytes(ms.pt(), phys.mem(), seg_start(#[trigger] segs[i]) * PAGE_SIZE, segs[i].data@.len()) == segs[i].data@ by {
                if i < k {
                    let va0 = seg_start(segs[i]) * PAGE_SIZE;
                    assert forall|t: int| 0 <= t < segs[i].data@.len() implies
                        #[trigger] user_bytes(ms.pt(), phys.mem(), va0, segs[i].data@.len())[t] == segs[i].data@[t] by {
                        lemma_page_of_offset(seg_start(segs[i]), seg_end(segs[i]) - seg_start(segs[i]), t);
                        assert(ms0.pt().contains_key(page_of(va0 + t) as u64));
                        assert(user_bytes(ms0.pt(), p0.mem(), va0, segs[i].data@.len())[t] == segs[i].data@[t]);
                    }
                    assert(user_bytes(ms.pt(), phys.mem(), va0, segs[i].data@.len()) =~= segs[i].data@);
                }
            }
            assert(segs.take(k as int + 1).last() == segs[k as int]);
        }
        end_vpn = VirtAddr(seg.start_va + seg.mem_size).ceil().0;
        k = k + 1;
    }
    proof {
        assert(segs.take(n as int) =~= segs);
    }
    let sb = end_vpn + 1;
    let st = sb + (USER_STACK_SIZE / PAGE_SIZE) as u64;
    let ghost ms1 = ms;
    let ghost p1 = *phys;
    let stack_flags = PTEFlags { v: true, r: true, w: true, x: false, u: true };
    proof {
        assert forall|v: u64| sb <= v < st implies !ms.pt().contains_key(v) by {
            if ms.pt().contains_key(v) {
                let i = choose|i: int| 0 <= i < n && seg_start(#[trigger] segs[i]) <= v < seg_end(segs[i]);
                if i < n - 1 {
                    assert(seg_end(segs[i]) <= seg_start(segs[n - 1]));
                }
                assert(segs.last() == segs[n - 1]);
            }
        }
    }
    ms.map_range(phys, sb, st, stack_flags);
    ms.set_heap(st);
    let ghost ms2 = ms;
    let ghost p2 = *phys;
    let trap_flags = PTEFlags { v: true, r: true, w: true, x: false, u: false };
    proof {
        assert forall|v: u64| TRAP_CONTEXT_VPN <= v < TRAP_CONTEXT_VPN + 1 implies !ms.pt().contains_key(v) by {
            if ms1.pt().contains_key(v) {
                let i = choose|i: int| 0 <= i < n && seg_start(#[trigger] segs[i]) <= v < seg_end(segs[i]);
                if i < n - 1 {
                    assert(seg_end(segs[i]) <= seg_start(segs[n - 1]));
                }
                assert(segs.last() == segs[n - 1]);
            }
        }
    }
    ms.map_range(phys, TRAP_CONTEXT_VPN, TRAP_CONTEXT_VPN + 1, trap_flags);
    proof {
        let ms3 = ms;
        let p3 = *phys;
        lemma_owned_after_map(ms1, ms2, sb as int, st as int, stack_flags, p1.used());
        lemma_owned_after_map(ms2, ms3, TRAP_CONTEXT_VPN as int, TRAP_CONTEXT_VPN + 1, trap_flags, p2.used());
        assert(ms3.owned().disjoint(phys0.used()));
        assert(p3.used() =~= phys0.used().union(ms3.owned()));
        lemma_zeroed_keeps_used(ms2.pt(), p1.mem(), p2.mem(), sb as int, st as int, p1.used());
        lemma_zeroed_keeps_used(ms3.pt(), p2.mem(), p3.mem(), TRAP_CONTEXT_VPN as int, TRAP_CONTEXT_VPN + 1, p2.used());
        assert forall|i: int| 0 <= i < n implies
            user_bytes(ms3.pt(), p3.mem(), seg_start(#[trigger] segs[i]) * PAGE_SIZE, segs[i].data@.len()) == segs[i].data@ by {
            let va0 = seg_start(segs[i]) * PAGE_SIZE;
            assert forall|t: int| 0 <= t < segs[i].data@.len() implies
                #[trigger] user_bytes(ms3.pt(), p3.mem(), va0, segs[i].data@.len())[t] == segs[i].data@[t] by {
                lemma_page_of_offset(seg_start(segs[i]), seg_end(segs[i]) - seg_start(segs[i]), t);
                assert(ms1.pt().contains_key(page_of(va0 + t) as u64));
                assert(user_bytes(ms1.pt(), p1.mem(), va0, segs[i].data@.len())[t] == segs[i].data@[t]);
                lemma_map_keeps_bytes(ms1, ms2, &p1, p2.mem(), sb as int, st as int, stack_flags, va0 + t);
                lemma_map_keeps_bytes(ms2, ms3, &p2, p3.mem(), TRAP_CONTEXT_VPN as int, TRAP_CONTEXT_VPN + 1, trap_flags, va0 + t);
            }
            assert(user_bytes(ms3.pt(), p3.mem(), va0, segs[i].data@.len()) =~= segs[i].data@);
        }
        assert forall|k: int, v: u64| 0 <= k < segs.len() && seg_start(#[trigger] segs[k]) <= v < seg_end(segs[k])
            implies (#[trigger] ms3.pt()[v]).flags == seg_flags(segs[k]) by {
            assert(ms1.pt().contains_key(v));
            assert(ms2.pt().contains_key(v));
        }
        assert forall|v: u64| sb <= v < st implies (#[trigger] ms3.pt()[v]).flags == heap_flags() by {
            assert(ms2.pt().contains_key(v));
        }
        assert forall|v: u64| #[trigger] ms3.pt().contains_key(v) <==> (
            (exists|k: int| 0 <= k < segs.len() && seg_start(#[trigger] segs[k]) <= v < seg_end(segs[k]))
            || (sb <= v < st) || v == TRAP_CONTEXT_VPN) by {
            if exists|k: int| 0 <= k < segs.len() && seg_start(#[trigger] segs[k]) <= v < seg_end(segs[k]) {
                assert(ms1.pt().contains_key(v));
            }
        }
        assert(loaded_image(ms3, p3.mem(), *img));
    }
    (ms, st * (PAGE_SIZE as u64), img.entry_point)
}

/// Zeroing fresh frames keeps every frame that was in use.
proof fn lemma_zeroed_keeps_used(pt: Map<u64, crate::mm::page_table::PageTableEntry>, old_mem: Seq<u8>, new_mem: Seq<u8>,
    s: int, e: int, used: Set<u64>)
    requires
        frames_zeroed(old_mem, new_mem, frames_in(pt, s, e)),
        forall|v: u64| s <= v < e && pt.contains_key(v) ==> !used.contains(#[trigger] pt[v].ppn),
    ensures
        frames_kept(old_mem, new_mem, used),
{
    assert forall|j: int| 0 <= j < old_mem.len() && used.contains((j / (PAGE_SIZE as int)) as u64)
        implies #[trigger] new_mem[j] == old_mem[j] by {
        if exists|r: u64| frames_in(pt, s, e).contains(r) && j / (PAGE_SIZE as int) == r {
            let r = choose|r: u64| frames_in(pt, s, e).contains(r) && j / (PAGE_SIZE as int) == r;
            let w = choose|w: u64| s <= w < e && pt.contains_key(w) && #[trigger] pt[w].ppn == r;
            assert(false);
        }
    }
}

/// A segment starts no later than it ends.
proof fn lemma_seg_ordered(sg: ProgramSegment)
    ensures
        0 <= seg_start(sg) <= seg_end(sg),
{
    assert(0 <= page_of(sg.start_va as int) <= page_ceil(sg.start_va + sg.mem_size)) by (nonlinear_arith)
        requires sg.mem_size >= 0, sg.start_va >= 0;
}

/// Segments in ascending order, each on pages of its own, occupy no more pages than the
/// page just past the last of them.
proof fn lemma_pages_of_bound(segs: Seq<ProgramSegment>)
    requires
        forall|i: int, j: int| 0 <= i < j < segs.len() ==> seg_end(#[trigger] segs[i]) <= seg_start(#[trigger] segs[j]),
    ensures
        pages_of(segs) <= segs_end(segs),
    decreases segs.len(),
{
    if segs.len() > 0 {
        let init = segs.drop_last();
        assert forall|i: int, j: int| 0 <= i < j < init.len() implies seg_end(#[trigger] init[i]) <= seg_start(#[trigger] init[j]) by {
            assert(init[i] == segs[i] && init[j] == segs[j]);
        }
        lemma_pages_of_bound(init);
        lemma_seg_ordered(segs.last());
        if init.len() > 0 {
            assert(init.last() == segs[segs.len() - 2]);
            assert(seg_end(segs[segs.len() - 2]) <= seg_start(segs[segs.len() - 1]));
        }
    }
}

/// Whether `img` can be loaded: the executable test of `image_wf`.
pub fn image_is_loadable(img: &AppImage) -> (r: bool)
    ensures
        r == image_wf(*img),
{
    let ghost segs = img.segments@;
    let n = img.segments.len();
    let mut k: usize = 0;
    let mut end_vpn: u64 = 0;
    while k < n
        invariant
            n == segs.len(),
            segs == img.segments@,
            k <= n,
            end_vpn == segs_end(segs.take(k as int)),
            end_vpn <= VPN_LIMIT,
            forall|i: int| 0 <= i < k ==> (#[trigger] segs[i]).start_va + segs[i].mem_size <= VA_LIMIT,
            forall|i: int| 0 <= i < k ==> (#[trigger] segs[i]).data@.len() <= (seg_end(segs[i]) - seg_start(segs[i])) * PAGE_SIZE,
            forall|i: int, j: int| 0 <= i < j < k ==> seg_end(#[trigger] segs[i]) <= seg_start(#[trigger] segs[j]),
            k > 0 ==> end_vpn == seg_end(segs[k - 1]),
        decreases n - k,
    {
        let sg = &img.segments[k];
        if sg.start_va > VA_LIMIT || sg.mem_size > VA_LIMIT - sg.start_va {
            return false;
        }
        let s = VirtAddr(sg.start_va).floor().0;
        let e = VirtAddr(sg.start_va + sg.mem_size).ceil().0;
        proof {
            lemma_seg_ordered(segs[k as int]);
            assert(e <= VPN_LIMIT) by (nonlinear_arith)
                requires e == (sg.start_va + sg.mem_size + 4095) / 4096, sg.start_va + sg.mem_size <= 0x80_0000_0000;
        }
        if sg.data.len() as u64 > (e - s) * (PAGE_SIZE as u64) {
            return false;
        }
        if k > 0 && end_vpn > s {
            assert(seg_end(segs[k - 1]) > seg_start(segs[k as int]));
            return false;
        }
        proof {
            let t0 = segs.take(k as int);
            let t1 = segs.take(k + 1);
            assert(t1.last() == segs[k as int]);
            assert forall|i: int, j: int| 0 <= i < j < k + 1 implies seg_end(#[trigger] segs[i]) <= seg_start(#[trigger] segs[j]) by {
                if j == k && i < k - 1 {
                    lemma_seg_ordered(segs[k - 1]);
                    assert(seg_end(segs[i]) <= seg_start(segs[k - 1]));
                }
            }
        }
        end_vpn = e;
        k = k + 1;
    }
    proof {
        assert(segs.take(n as int) =~= segs);
    }
    end_vpn + 3 <= TRAP_CONTEXT_VPN
}

/// The number of frames that loading `img` takes: the executable form of `frames_needed`.
pub fn frames_for(img: &AppImage) -> (r: u64)
    requires
        image_wf(*img),
    ensures
        r == frames_needed(*img),
        r <= TRAP_CONTEXT_VPN + 4,
{
    let ghost segs = img.segments@;
    proof {
        lemma_pages_of_bound(segs);
        if segs.len() > 0 {
            lemma_seg_ordered(segs.last());
        }
        assert forall|i: int| 0 <= i < segs.len() implies seg_start(#[trigger] segs[i]) <= seg_end(segs[i]) by {
            lemma_seg_ordered(segs[i]);
        }
        pages_of_nonneg(segs);
    }
    let n = img.segments.len();
    let mut k: usize = 0;
    let mut pages: u64 = 0;
    proof {
        assert(segs.take(0) =~= Seq::<ProgramSegment>::empty());
    }
    while k < n
        invariant
            n == segs.len(),
            segs == img.segments@,
            image_wf(*img),
            k <= n,
            pages == pages_of(segs.take(k as int)),
            pages_of(segs) <= TRAP_CONTEXT_VPN,
            forall|i: int| 0 <= i < segs.len() ==> seg_start(#[trigger] segs[i]) <= seg_end(segs[i]),
        decreases n - k,
    {
        let sg = &img.segments[k];
        let s = VirtAddr(sg.start_va).floor().0;
        let e = VirtAddr(sg.start_va + sg.mem_size).ceil().0;
        proof {
            pages_of_take_step(segs, k as int);
            pages_of_take_bound(segs, k + 1);
            pages_of_nonneg(segs.take(k as int));
        }
        pages = pages + (e - s);
        k = k + 1;
    }
    proof {
        assert(segs.take(n as int) =~= segs);
    }
    1 + pages + (USER_STACK_SIZE / PAGE_SIZE) as u64 + 1
}

/// Loading an image takes at least one frame.
pub proof fn lemma_frames_needed_pos(img: AppImage)
    ensures
        frames_needed(img) >= 1,
{
    pages_of_nonneg(img.segments@);
}

/// Segments occupy a nonnegative number of pages.
proof fn pages_of_nonneg(segs: Seq<ProgramSegment>)
    ensures
        pages_of(segs) >= 0,
    decreases segs.len(),
{
    if segs.len() > 0 {
        pages_of_nonneg(segs.drop_last());
        let sg = segs.last();
        assert(page_of(sg.start_va as int) <= page_ceil(sg.start_va + sg.mem_size)) by (nonlinear_arith)
            requires sg.mem_size >= 0, sg.start_va >= 0;
    }
}

/// Counting the pages of one more segment adds that segment's pages.
proof fn pages_of_take_step(segs: Seq<ProgramSegment>, k: int)
    requires
        0 <= k < segs.len(),
    ensures
        pages_of(segs.take(k + 1)) == pages_of(segs.take(k)) + (seg_end(segs[k]) - seg_start(segs[k])),
{
    assert(segs.take(k + 1).drop_last() =~= segs.take(k));
}

/// The pages of the first `k` segments are no more than those of all of them.
proof fn pages_of_take_bound(segs: Seq<ProgramSegment>, k: int)
    requires
        0 <= k <= segs.len(),
        forall|i: int| 0 <= i < segs.len() ==> seg_start(#[trigger] segs[i]) <= seg_end(segs[i]),
    ensures
        pages_of(segs.take(k)) <= pages_of(segs),
    decreases segs.len() - k,
{
    if k < segs.len() {
        pages_of_take_step(segs, k);
        pages_of_take_bound(segs, k + 1);
    } else {
        assert(segs.take(k) =~= segs);
    }
}

} // verus!
