//! Reading and writing user memory through an address space's page table.
use vstd::prelude::*;
use crate::config::PAGE_SIZE;
use crate::mm::address::{VirtAddr, VirtPageNum, page_of, VA_LIMIT};
use crate::mm::frame::PhysMemory;
use crate::mm::memory_set::{MemorySet, va_mapped, va_to_pa, user_byte};
use crate::mm::page_table::PageTableEntry;

verus! {

/// Every address of `va .. va + len` lies in a mapped page of `pt`.
pub open spec fn user_range_mapped(pt: Map<u64, PageTableEntry>, va: int, len: int) -> bool {
    forall|k: int| 0 <= k < len ==> #[trigger] va_mapped(pt, va + k)
}

/// The `len` bytes that user code reads from `va` on.
pub open spec fn user_bytes(pt: Map<u64, PageTableEntry>, mem: Seq<u8>, va: int, len: nat) -> Seq<u8> {
    Seq::new(len, |k: int| user_byte(pt, mem, va + k))
}

/// `new_mem` is `old_mem` with user addresses `va .. va + data.len()` holding `data`,
/// each written through the page table `pt`.
pub open spec fn user_written(
    pt: Map<u64, PageTableEntry>,
    old_mem: Seq<u8>,
    new_mem: Seq<u8>,
    va: int,
    data: Seq<u8>,
) -> bool {
    &&& new_mem.len() == old_mem.len()
    &&& forall|k: int| 0 <= k < data.len() ==> #[trigger] user_byte(pt, new_mem, va + k) == data[k]
    &&& forall|j: int| 0 <= j < new_mem.len() && (forall|k: int| 0 <= k < data.len() ==> j != #[trigger] va_to_pa(pt, va + k))
        ==> #[trigger] new_mem[j] == old_mem[j]
}

/// A mapped user address stands for an address inside physical memory.
pub proof fn lemma_va_to_pa_in_range(ms: &MemorySet, phys: &PhysMemory, va: int)
    requires
        ms.wf_in(phys),
        va_mapped(ms.pt(), va),
    ensures
        0 <= va_to_pa(ms.pt(), va) < phys.mem().len(),
{
    let v = page_of(va) as u64;
    let p = ms.pt()[v].ppn;
    assert(crate::mm::memory_set::frames_of(ms.pt()).contains(p));
    assert(ms.owned().contains(p));
    phys.lemma_used_in_range(p);
    phys.lemma_mem_len();
    let o = va % (PAGE_SIZE as int);
    assert(0 <= p * 4096 + o < phys.num_frames() * 4096) by (nonlinear_arith)
        requires p < phys.num_frames(), 0 <= o < 4096;
}

/// Distinct mapped user addresses stand for distinct physical addresses.
pub proof fn lemma_va_to_pa_injective(ms: &MemorySet, a: int, b: int)
    requires
        ms.wf(),
        va_mapped(ms.pt(), a),
        va_mapped(ms.pt(), b),
        a != b,
    ensures
        va_to_pa(ms.pt(), a) != va_to_pa(ms.pt(), b),
{
    let pa = page_of(a);
    let pb = page_of(b);
    let oa = a % (PAGE_SIZE as int);
    let ob = b % (PAGE_SIZE as int);
    assert(a == pa * 4096 + oa && b == pb * 4096 + ob) by (nonlinear_arith)
        requires pa == a / 4096, pb == b / 4096, oa == a % 4096, ob == b % 4096;
    let qa = ms.pt()[pa as u64].ppn;
    let qb = ms.pt()[pb as u64].ppn;
    if pa != pb {
        assert(qa != qb);
    }
    assert(qa * 4096 + oa != qb * 4096 + ob) by (nonlinear_arith)
        requires 0 <= oa < 4096, 0 <= ob < 4096, (qa != qb || oa != ob), qa >= 0, qb >= 0;
}

/// The physical address that user address `va` stands for, or `None` when its page is
/// not mapped.
pub fn translate_va(ms: &MemorySet, phys: &PhysMemory, va: u64) -> (r: Option<u64>)
    requires
        ms.wf_in(phys),
        va < VA_LIMIT,
    ensures
        match r {
            Some(pa) => va_mapped(ms.pt(), va as int) && pa == va_to_pa(ms.pt(), va as int)
                && pa < phys.mem().len(),
            None => !va_mapped(ms.pt(), va as int),
        },
{
    let a = VirtAddr(va);
    assert(page_of(va as int) < 0x800_0000);
    match ms.translate(a.floor()) {
        Some(e) => {
            proof {
                lemma_va_to_pa_in_range(ms, phys, va as int);
                phys.lemma_mem_len();
                assert(e.ppn * 4096 < 0x8_0000 * 4096) by (nonlinear_arith)
                    requires e.ppn * 4096 <= va_to_pa(ms.pt(), va as int), va_to_pa(ms.pt(), va as int) < phys.mem().len(),
                        phys.mem().len() == phys.num_frames() * 4096, phys.num_frames() <= 0x8_0000;
            }
            Some(e.ppn * (PAGE_SIZE as u64) + a.page_offset())
        },
        None => None,
    }
}


/// The `len` bytes of user memory from `va` on, each read through the page table.
pub fn read_user_bytes(ms: &MemorySet, phys: &PhysMemory, va: u64, len: usize) -> (r: Vec<u8>)
    requires
        ms.wf_in(phys),
        va + len <= VA_LIMIT,
        user_range_mapped(ms.pt(), va as int, len as int),
    ensures
        r@ == user_bytes(ms.pt(), phys.mem(), va as int, len as nat),
{
    let mut out: Vec<u8> = Vec::new();
    let mut i: usize = 0;
    while i < len
        invariant
            ms.wf_in(phys),
            i <= len,
            va + len <= VA_LIMIT,
            user_range_mapped(ms.pt(), va as int, len as int),
            out@ == user_bytes(ms.pt(), phys.mem(), va as int, i as nat),
        decreases len - i,
    {
        assert(va_mapped(ms.pt(), va + i));
        let pa = match translate_va(ms, phys, va + i as u64) {
            Some(pa) => pa,
            None => { assert(false); 0 },
        };
        out.push(phys.read_byte(pa));
        i = i + 1;
        assert(out@ =~= user_bytes(ms.pt(), phys.mem(), va as int, i as nat));
    }
    out
}

/// Writes `data` to user memory from `va` on, each byte through the page table.
pub fn write_user_bytes(ms: &MemorySet, phys: &mut PhysMemory, va: u64, data: &[u8])
    requires
        ms.wf_in(old(phys)),
        va + data@.len() <= VA_LIMIT,
        user_range_mapped(ms.pt(), va as int, data@.len() as int),
    ensures
        ms.wf_in(final(phys)),
        user_written(ms.pt(), old(phys).mem(), final(phys).mem(), va as int, data@),
        final(phys).used() == old(phys).used(),
        final(phys).num_frames() == old(phys).num_frames(),
        final(phys).free_count() == old(phys).free_count(),
{
    let mut i: usize = 0;
    let n = data.len();
    while i < n
        invariant
            ms.wf_in(phys),
            n == data@.len(),
            i <= n,
            va + n <= VA_LIMIT,
            user_range_mapped(ms.pt(), va as int, n as int),
            phys.mem().len() == old(phys).mem().len(),
            phys.used() == old(phys).used(),
            phys.num_frames() == old(phys).num_frames(),
            phys.free_count() == old(phys).free_count(),
            forall|k: int| 0 <= k < i ==> #[trigger] user_byte(ms.pt(), phys.mem(), va + k) == data@[k],
            forall|j: int| 0 <= j < phys.mem().len() && (forall|k: int| 0 <= k < i ==> j != #[trigger] va_to_pa(ms.pt(), va + k))
                ==> #[trigger] phys.mem()[j] == old(phys).mem()[j],
        decreases n - i,
    {
        assert(va_mapped(ms.pt(), va + i));
        let pa = match translate_va(ms, phys, va + i as u64) {
            Some(pa) => pa,
            None => { assert(false); 0 },
        };
        let ghost m0 = phys.mem();
        phys.write_byte(pa, data[i]);
        proof {
            let m1 = phys.mem();
            assert forall|k: int| 0 <= k < i + 1 implies #[trigger] user_byte(ms.pt(), m1, va + k) == data@[k] by {
                if k == i {
                    assert(m1[pa as int] == data@[k]);
                    assert(va_to_pa(ms.pt(), va + k) == pa);
                } else {
                    assert(va_mapped(ms.pt(), va + k));
                    lemma_va_to_pa_injective(ms, va + k, va + i);
                    lemma_va_to_pa_in_range(ms, phys, va + k);
                    assert(user_byte(ms.pt(), m0, va + k) == data@[k]);
                }
            }
            assert forall|j: int| 0 <= j < m1.len() && (forall|k: int| 0 <= k < i + 1 ==> j != #[trigger] va_to_pa(ms.pt(), va + k))
                implies #[trigger] m1[j] == old(phys).mem()[j] by {
                assert(j != va_to_pa(ms.pt(), va + i));
                assert(forall|k: int| 0 <= k < i ==> j != #[trigger] va_to_pa(ms.pt(), va + k));
            }
        }
        i = i + 1;
    }
}

/// The bytes of user memory from `va` up to, not including, the first zero byte: the
/// string whose first `n` bytes are nonzero and mapped, and whose byte `n` is zero.
pub(crate) fn read_c_str(ms: &MemorySet, phys: &PhysMemory, va: u64, Ghost(n): Ghost<nat>) -> (r: Vec<u8>)
    requires
        ms.wf_in(phys),
        c_str_at(ms.pt(), phys.mem(), va as int, n),
    ensures
        r@ == user_bytes(ms.pt(), phys.mem(), va as int, n),
{
    let mut out: Vec<u8> = Vec::new();
    let mut cur: u64 = va;
    loop
        invariant
            ms.wf_in(phys),
            c_str_at(ms.pt(), phys.mem(), va as int, n),
            va <= cur <= va + n,
            out@ == user_bytes(ms.pt(), phys.mem(), va as int, (cur - va) as nat),
        ensures
            out@ == user_bytes(ms.pt(), phys.mem(), va as int, n),
        decreases va + n - cur,
    {
        assert(va_mapped(ms.pt(), va + (cur - va)));
        let pa = match translate_va(ms, phys, cur) {
            Some(pa) => pa,
            None => { assert(false); 0 },
        };
        let b = phys.read_byte(pa);
        assert(user_byte(ms.pt(), phys.mem(), va + (cur - va)) == b);
        if b == 0 {
            assert(cur - va == n);
            break;
        }
        out.push(b);
        cur = cur + 1;
        assert(out@ =~= user_bytes(ms.pt(), phys.mem(), va as int, (cur - va) as nat));
    }
    out
}

/// User memory holds a string of `n` nonzero bytes at `va`, ended by a zero byte, all
/// of it in mapped pages.
pub open spec fn c_str_at(pt: Map<u64, PageTableEntry>, mem: Seq<u8>, va: int, n: nat) -> bool {
    &&& va + n < VA_LIMIT
    &&& user_range_mapped(pt, va, n + 1int)
    &&& forall|k: int| 0 <= k < n ==> #[trigger] user_byte(pt, mem, va + k) != 0
    &&& user_byte(pt, mem, va + n) == 0
}

/// User memory holds a zero-ended string at `va`.
pub open spec fn has_c_str(pt: Map<u64, PageTableEntry>, mem: Seq<u8>, va: int) -> bool {
    exists|n: nat| c_str_at(pt, mem, va, n)
}

/// The zero-ended string that user memory holds at `va`, without its zero byte.
pub open spec fn c_str(pt: Map<u64, PageTableEntry>, mem: Seq<u8>, va: int) -> Seq<u8> {
    user_bytes(pt, mem, va, choose|n: nat| c_str_at(pt, mem, va, n))
}

/// Whether every address of `va .. va + len` lies in a mapped page.
pub fn user_range_is_mapped(ms: &MemorySet, phys: &PhysMemory, va: u64, len: u64) -> (r: bool)
    requires
        ms.wf_in(phys),
        va + len <= VA_LIMIT,
    ensures
        r == user_range_mapped(ms.pt(), va as int, len as int),
{
    let mut k: u64 = 0;
    while k < len
        invariant
            ms.wf_in(phys),
            va + len <= VA_LIMIT,
            k <= len,
            forall|j: int| 0 <= j < k ==> #[trigger] va_mapped(ms.pt(), va + j),
        decreases len - k,
    {
        if translate_va(ms, phys, va + k).is_none() {
            assert(!va_mapped(ms.pt(), va + k));
            return false;
        }
        k = k + 1;
    }
    true
}

/// The zero-ended string at user address `va`, without its zero byte, or `None` when an
/// unmapped page, or the end of the Sv39 space, comes before a zero byte.
pub fn user_c_str(ms: &MemorySet, phys: &PhysMemory, va: u64) -> (r: Option<Vec<u8>>)
    requires
        ms.wf_in(phys),
    ensures
        match r {
            Some(s) => has_c_str(ms.pt(), phys.mem(), va as int) && s@ == c_str(ms.pt(), phys.mem(), va as int),
            None => !has_c_str(ms.pt(), phys.mem(), va as int),
        },
{
    let ghost pt = ms.pt();
    let ghost mem = phys.mem();
    let mut cur: u64 = va;
    while cur < VA_LIMIT
        invariant
            ms.wf_in(phys),
            pt == ms.pt(),
            mem == phys.mem(),
            va <= cur,
            va < VA_LIMIT ==> cur <= VA_LIMIT,
            forall|k: int| 0 <= k < cur - va ==> #[trigger] va_mapped(pt, va + k),
            forall|k: int| 0 <= k < cur - va ==> #[trigger] user_byte(pt, mem, va + k) != 0,
        decreases VA_LIMIT - cur,
    {
        match translate_va(ms, phys, cur) {
            Some(pa) => {
                if phys.read_byte(pa) == 0 {
                    let ghost n: nat = (cur - va) as nat;
                    assert(user_byte(pt, mem, va + n) == 0);
                    assert(va_mapped(pt, va + n));
                    assert(c_str_at(pt, mem, va as int, n));
                    return Some(translated_str(ms, phys, va));
                }
                assert(va_mapped(pt, va + (cur - va)) && user_byte(pt, mem, va + (cur - va)) != 0);
                cur = cur + 1;
            },
            None => {
                assert forall|n: nat| !c_str_at(pt, mem, va as int, n) by {
                    if c_str_at(pt, mem, va as int, n) {
                        if n < cur - va {
                            assert(user_byte(pt, mem, va + n) != 0);
                        } else {
                            assert(va_mapped(pt, va + (cur - va)));
                        }
                    }
                }
                return None;
            },
        }
    }
    assert forall|n: nat| !c_str_at(pt, mem, va as int, n) by {
        if c_str_at(pt, mem, va as int, n) {
            assert(user_byte(pt, mem, va + n) != 0);
        }
    }
    None
}

/// The zero-ended string at user address `va`, read byte by byte through the page table.
pub fn translated_str(ms: &MemorySet, phys: &PhysMemory, va: u64) -> (r: Vec<u8>)
    requires
        ms.wf_in(phys),
        has_c_str(ms.pt(), phys.mem(), va as int),
    ensures
        r@ == c_str(ms.pt(), phys.mem(), va as int),
{
    let ghost n = choose|n: nat| c_str_at(ms.pt(), phys.mem(), va as int, n);
    read_c_str(ms, phys, va, Ghost(n))
}

} // verus!
