//! Virtual memory mechanisms
//!
//! This module implements the virtual memory mechanisms via
//! two-level Sv32 paging.

use vstd::prelude::*;
use crate::config::constants::{PAGE_SIZE, UART0, PLIC, RAM_SIZE};
use crate::riscv::memory_types::{
    Addr, PageTable, PageTableEntry, walk, pte_location, pte_has, pte_addr_of, pte_with_addr,
    va_index, l1_location, l1_entry, l0_table, leaf_location, leaf_entry, translation,
    table_installed, page_floor, prev_page, PTE_V, PTE_R, PTE_W, PTE_X, PTE_U, MAX_VIRT_ADDR, changes_away_from_tables,
    free_addr_space, space_frames, copy_addr_space, lemma_pte_addr_aligned, space_copied, has_leaf, in_frame,
    l1_copied, leaf_copied, lemma_zero_pte, taken, copy_fresh, free_partial_copy,
};
use crate::memory::memory_layout::{USERVEC, TRAPFRAME};
use crate::memory::frame_alloc::clear_frames;
use crate::proc::control_types::Pcb;
use crate::memory::phys_mem::{PhysMem, lemma_word_kept, lemma_word_from_bytes, lemma_zero_word, word_byte};
use crate::memory::frame_alloc::{
    FrameAllocator, kmalloc, allocated, exhausted, NUM_FRAMES, lemma_bitmap_sizes, free_frames, free_count,
};

verus! {

/// The level 1 PTE with index `i` in the page table `root`.
pub open spec fn l1_word(mem: &PhysMem, root: u64, i: int) -> u32 {
    mem.word(pte_location(root, i))
}

/// A leaf PTE is either valid or all zero.
pub open spec fn leaf_ok(w: u32) -> bool {
    pte_has(w, PTE_V) || w == 0
}

/// The level 1 PTE `i` of `root` is either zero or points to a
/// used frame, other than `root`, whose PTEs are all valid or zero.
pub open spec fn entry_ok(mem: &PhysMem, falloc: &FrameAllocator, root: u64, i: int) -> bool {
    let e = l1_word(mem, root, i);
    if pte_has(e, PTE_V) {
        let t = pte_addr_of(e);
        &&& falloc.is_frame(t as int)
        &&& falloc.used(t as int)
        &&& t != root
        &&& forall|j: int| 0 <= j < 1024 ==> leaf_ok(#[trigger] mem.word(pte_location(t, j)))
    } else {
        e == 0
    }
}

/// Well-formed two-level page table at `root`: the root is a used
/// frame, every level 1 PTE is well formed and no two valid level 1
/// PTEs point to the same leaf table.
pub open spec fn pt_wf(mem: &PhysMem, falloc: &FrameAllocator, root: u64) -> bool {
    &&& falloc.is_frame(root as int)
    &&& falloc.used(root as int)
    &&& forall|i: int| 0 <= i < 1024 ==> #[trigger] entry_ok(mem, falloc, root, i)
    &&& forall|i: int, j: int|
        0 <= i < 1024 && 0 <= j < 1024 && i != j
        && pte_has(#[trigger] l1_word(mem, root, i), PTE_V)
        && pte_has(#[trigger] l1_word(mem, root, j), PTE_V)
        ==> pte_addr_of(l1_word(mem, root, i)) != pte_addr_of(l1_word(mem, root, j))
}

/// The leaf PTE that `map` writes for the page at `pa`.
pub open spec fn mapped_entry(pa: u64, perm: u8) -> u32 {
    pte_with_addr(0, pa) | ((PTE_V | perm) as u32)
}

/// Every frame used in `a` is used in `b`.
pub open spec fn uses_grow(a: &FrameAllocator, b: &FrameAllocator) -> bool {
    forall|k: int| 0 <= k < NUM_FRAMES && #[trigger] a.bits()[k] ==> b.bits()[k]
}

/// Whether `v` is a page-aligned 32-bit virtual address.
pub open spec fn virt_page(v: u64) -> bool {
    v < 0x1_0000_0000 && v % 4096 == 0
}

proof fn lemma_frames_apart(f: int, g: int, j: int)
    requires
        f % 4096 == 0,
        g % 4096 == 0,
        f != g,
        0 <= j < 1024,
    ensures
        g + 4 * j + 4 <= f || f + 4096 <= g + 4 * j,
{
    assert(g + 4 * j + 4 <= f || f + 4096 <= g + 4 * j) by (nonlinear_arith)
        requires f % 4096 == 0, g % 4096 == 0, f != g, 0 <= j < 1024;
}

proof fn lemma_index_bounds(v: u64)
    ensures
        va_index(0, v) < 1024,
        va_index(1, v) < 1024,
{
    assert((v >> 12u64) & 0x3FFu64 < 1024) by (bit_vector);
    assert((v >> 22u64) & 0x3FFu64 < 1024) by (bit_vector);
}

proof fn lemma_page_from_indexes(v: u64, w: u64)
    requires
        virt_page(v),
        virt_page(w),
        va_index(0, v) == va_index(0, w),
        va_index(1, v) == va_index(1, w),
    ensures
        v == w,
{
    assert(v % 4096 == 0 ==> v & 0xFFFu64 == 0) by (bit_vector);
    assert(w % 4096 == 0 ==> w & 0xFFFu64 == 0) by (bit_vector);
    assert(v == w) by (bit_vector)
        requires
            v < 0x1_0000_0000u64, w < 0x1_0000_0000u64,
            v & 0xFFFu64 == 0, w & 0xFFFu64 == 0,
            (v >> 12u64) & 0x3FFu64 == (w >> 12u64) & 0x3FFu64,
            (v >> 22u64) & 0x3FFu64 == (w >> 22u64) & 0x3FFu64;
}

/// A PTE of a page table in frame `g` is not changed by writes
/// confined to another frame `f`.
proof fn lemma_pte_kept_other_frame(m1: &PhysMem, m2: &PhysMem, lo: int, hi: int, f: int, g: u64, j: int)
    requires
        m2.same_outside(m1, lo, hi),
        f <= lo,
        hi <= f + 4096,
        f % 4096 == 0,
        g % 4096 == 0,
        f != g,
        0 <= j < 1024,
        g < 0x4_0000_0000,
    ensures
        m2.word(pte_location(g, j)) == m1.word(pte_location(g, j)),
{
    lemma_frames_apart(f, g as int, j);
    lemma_word_kept(m1, m2, lo, hi, pte_location(g, j));
}

/// A PTE is not changed by a write to another PTE of the same table.
proof fn lemma_pte_kept_same_frame(m1: &PhysMem, m2: &PhysMem, g: u64, i: int, j: int)
    requires
        m2.same_outside(m1, pte_location(g, i), pte_location(g, i) + 4),
        0 <= i < 1024,
        0 <= j < 1024,
        i != j,
        g < 0x4_0000_0000,
    ensures
        m2.word(pte_location(g, j)) == m1.word(pte_location(g, j)),
{
    lemma_word_kept(m1, m2, pte_location(g, i), pte_location(g, i) + 4, pte_location(g, j));
}

/// Installing a fresh, cleared leaf table for the level 1 PTE of
/// `cur` keeps the page table well formed and changes no
/// translation.
proof fn lemma_install(
    m1: &PhysMem,
    m2: &PhysMem,
    a1: &FrameAllocator,
    a2: &FrameAllocator,
    root: u64,
    cur: u64,
    f: u64,
)
    requires
        a1.wf(),
        pt_wf(m1, a1, root),
        !pte_has(l1_entry(m1, root, cur), PTE_V),
        allocated(a1, a2, f),
        table_installed(m1, m2, l1_location(root, cur),
            pte_with_addr(l1_entry(m1, root, cur), f) | (PTE_V as u32),
            pte_addr_of(pte_with_addr(l1_entry(m1, root, cur), f) | (PTE_V as u32))),
    ensures
        pt_wf(m2, a2, root),
        forall|v: u64| #[trigger] translation(m2, root, v) == translation(m1, root, v),
        pte_has(l1_entry(m2, root, cur), PTE_V),
        l0_table(m2, root, cur) == f,
        pte_addr_of(pte_with_addr(l1_entry(m1, root, cur), f) | (PTE_V as u32)) == f,
        uses_grow(a1, a2),
{
    a1.lemma_wf_bounds();
    lemma_bitmap_sizes();
    let i1 = va_index(1, cur) as int;
    lemma_index_bounds(cur);
    let loc = l1_location(root, cur);
    // The old level 1 PTE is zero, so the new one holds exactly `f`.
    assert(entry_ok(m1, a1, root, i1));
    let e = l1_entry(m1, root, cur);
    assert(e == 0);
    let ne = pte_with_addr(e, f) | (PTE_V as u32);
    assert(f % 4096 == 0 && f < 0x4_0000_0000);
    assert(pte_addr_of(pte_with_addr(0u32, f) | 1u32) == f
        && pte_has(pte_with_addr(0u32, f) | 1u32, 1u8)) by (bit_vector)
        requires f % 4096 == 0, f < 0x4_0000_0000u64;
    assert(pte_addr_of(ne) == f);
    assert(pte_has(ne, PTE_V));
    // Root and the new frame are distinct frames.
    a1.lemma_update_used(a2, f as int, true, root as int);
    a1.lemma_update_used(a2, f as int, true, f as int);
    assert(root != f);
    assert(root % 4096 == 0);
    // The new level 1 PTE.
    assert(root <= loc && loc + 4 <= root + 4096);
    lemma_frames_apart(f as int, root as int, i1);
    assert forall|k: int| 0 <= k < 4 implies #[trigger] m2.byte(loc + k) == word_byte(ne, k) by {
        assert(m2.byte(loc + k) == word_byte(ne, (loc + k) - loc));
    }
    lemma_word_from_bytes(m2, loc, ne);
    assert(l1_entry(m2, root, cur) == ne);
    // The new leaf table is cleared.
    assert forall|j: int| 0 <= j < 1024 implies #[trigger] m2.word(pte_location(f, j)) == 0 by {
        let a = pte_location(f, j);
        assert(m2.byte(a) == 0u8);
        assert(m2.byte(a + 1) == 0u8);
        assert(m2.byte(a + 2) == 0u8);
        assert(m2.byte(a + 3) == 0u8);
        lemma_zero_word(m2, a);
    }
    // Other level 1 PTEs are unchanged.
    assert forall|i: int| 0 <= i < 1024 && i != i1 implies
        #[trigger] l1_word(m2, root, i) == l1_word(m1, root, i) by {
        lemma_frames_apart(f as int, root as int, i);
        let a = pte_location(root, i);
        assert(m2.byte(a) == m1.byte(a));
        assert(m2.byte(a + 1) == m1.byte(a + 1));
        assert(m2.byte(a + 2) == m1.byte(a + 2));
        assert(m2.byte(a + 3) == m1.byte(a + 3));
    }
    // A PTE in a used table other than `f` and `root` is unchanged.
    assert forall|t: u64, j: int|
        a1.is_frame(t as int) && a1.used(t as int) && t != root && 0 <= j < 1024 implies
        #[trigger] m2.word(pte_location(t, j)) == m1.word(pte_location(t, j)) by {
        a1.lemma_update_used(a2, f as int, true, t as int);
        assert(t != f);
        lemma_frames_apart(f as int, t as int, j);
        lemma_frames_apart(root as int, t as int, j);
        let a = pte_location(t, j);
        assert(m2.byte(a) == m1.byte(a));
        assert(m2.byte(a + 1) == m1.byte(a + 1));
        assert(m2.byte(a + 2) == m1.byte(a + 2));
        assert(m2.byte(a + 3) == m1.byte(a + 3));
    }
    // Well-formedness of every level 1 PTE.
    assert forall|i: int| 0 <= i < 1024 implies #[trigger] entry_ok(m2, a2, root, i) by {
        if i == i1 {
            assert(l1_word(m2, root, i) == ne);
            assert forall|j: int| 0 <= j < 1024 implies leaf_ok(#[trigger] m2.word(pte_location(f, j))) by {
                assert(m2.word(pte_location(f, j)) == 0);
            }
        } else {
            assert(entry_ok(m1, a1, root, i));
            let w = l1_word(m1, root, i);
            if pte_has(w, PTE_V) {
                let t = pte_addr_of(w);
                a1.lemma_update_used(a2, f as int, true, t as int);
                assert forall|j: int| 0 <= j < 1024 implies leaf_ok(#[trigger] m2.word(pte_location(t, j))) by {
                    assert(leaf_ok(m1.word(pte_location(t, j))));
                }
            }
        }
    }
    // Distinct leaf tables.
    assert forall|i: int, j: int|
        0 <= i < 1024 && 0 <= j < 1024 && i != j
        && pte_has(#[trigger] l1_word(m2, root, i), PTE_V)
        && pte_has(#[trigger] l1_word(m2, root, j), PTE_V)
        implies pte_addr_of(l1_word(m2, root, i)) != pte_addr_of(l1_word(m2, root, j)) by {
        if i == i1 {
            assert(entry_ok(m1, a1, root, j));
        } else if j == i1 {
            assert(entry_ok(m1, a1, root, i));
        } else {
            assert(pte_has(l1_word(m1, root, i), PTE_V));
            assert(pte_has(l1_word(m1, root, j), PTE_V));
        }
    }
    // Translations.
    assert forall|v: u64| #[trigger] translation(m2, root, v) == translation(m1, root, v) by {
        lemma_index_bounds(v);
        let iv = va_index(1, v) as int;
        let jv = va_index(0, v) as int;
        if iv == i1 {
            assert(l1_entry(m2, root, v) == ne);
            assert(m2.word(pte_location(f, jv)) == 0);
            lemma_zero_pte();
        } else {
            assert(l1_word(m2, root, iv) == l1_word(m1, root, iv));
            assert(entry_ok(m1, a1, root, iv));
            if pte_has(l1_entry(m1, root, v), PTE_V) {
                let t = pte_addr_of(l1_entry(m1, root, v));
                assert(m2.word(pte_location(t, jv)) == m1.word(pte_location(t, jv)));
            }
        }
    }
    assert forall|k: int| 0 <= k < NUM_FRAMES && #[trigger] a1.bits()[k] implies a2.bits()[k] by {
    }
}

/// Writing a valid leaf PTE for `cur` into its (invalid) slot keeps
/// the page table well formed, makes it the translation of `cur`
/// and changes no other translation.
proof fn lemma_leaf_write(m1: &PhysMem, m2: &PhysMem, a: &FrameAllocator, root: u64, cur: u64, w: u32)
    requires
        a.wf(),
        pt_wf(m1, a, root),
        virt_page(cur),
        pte_has(l1_entry(m1, root, cur), PTE_V),
        m2.word(leaf_location(m1, root, cur)) == w,
        m2.same_outside(m1, leaf_location(m1, root, cur), leaf_location(m1, root, cur) + 4),
        pte_has(w, PTE_V),
    ensures
        pt_wf(m2, a, root),
        translation(m2, root, cur) == Some(w),
        forall|v: u64| virt_page(v) && v != cur ==> #[trigger] translation(m2, root, v) == translation(m1, root, v),
{
    a.lemma_wf_bounds();
    lemma_index_bounds(cur);
    let i1 = va_index(1, cur) as int;
    let i0 = va_index(0, cur) as int;
    let t = l0_table(m1, root, cur);
    lemma_pte_addr_aligned(l1_entry(m1, root, cur));
    assert(entry_ok(m1, a, root, i1));
    let loc = pte_location(t, i0);
    assert(t != root);
    // Level 1 PTEs are unchanged.
    assert forall|i: int| 0 <= i < 1024 implies #[trigger] l1_word(m2, root, i) == l1_word(m1, root, i) by {
        lemma_pte_kept_other_frame(m1, m2, loc, loc + 4, t as int, root, i);
    }
    assert(l1_entry(m2, root, cur) == l1_entry(m1, root, cur));
    // PTEs of other leaf tables are unchanged.
    assert forall|g: u64, j: int| g % 4096 == 0 && g < 0x4_0000_0000 && g != t && 0 <= j < 1024 implies
        #[trigger] m2.word(pte_location(g, j)) == m1.word(pte_location(g, j)) by {
        lemma_pte_kept_other_frame(m1, m2, loc, loc + 4, t as int, g, j);
    }
    assert forall|j: int| 0 <= j < 1024 && j != i0 implies
        #[trigger] m2.word(pte_location(t, j)) == m1.word(pte_location(t, j)) by {
        lemma_pte_kept_same_frame(m1, m2, t, i0, j);
    }
    assert forall|i: int| 0 <= i < 1024 implies #[trigger] entry_ok(m2, a, root, i) by {
        assert(entry_ok(m1, a, root, i));
        let e = l1_word(m1, root, i);
        if pte_has(e, PTE_V) {
            let g = pte_addr_of(e);
            lemma_pte_addr_aligned(e);
            assert forall|j: int| 0 <= j < 1024 implies leaf_ok(#[trigger] m2.word(pte_location(g, j))) by {
                assert(leaf_ok(m1.word(pte_location(g, j))));
                if g == t && j == i0 {
                    assert(m2.word(pte_location(g, j)) == w);
                }
            }
        }
    }
    assert(translation(m2, root, cur) == Some(w));
    assert forall|v: u64| virt_page(v) && v != cur implies #[trigger] translation(m2, root, v) == translation(m1, root, v) by {
        lemma_index_bounds(v);
        let iv = va_index(1, v) as int;
        let jv = va_index(0, v) as int;
        assert(l1_word(m2, root, iv) == l1_word(m1, root, iv));
        let e = l1_entry(m1, root, v);
        if pte_has(e, PTE_V) {
            let g = pte_addr_of(e);
            lemma_pte_addr_aligned(e);
            if g == t {
                if iv != i1 {
                    assert(pte_has(l1_word(m1, root, iv), PTE_V));
                    assert(pte_has(l1_word(m1, root, i1), PTE_V));
                    assert(false);
                }
                if jv == i0 {
                    lemma_page_from_indexes(v, cur);
                }
                assert(m2.word(pte_location(g, jv)) == m1.word(pte_location(g, jv)));
            } else {
                assert(m2.word(pte_location(g, jv)) == m1.word(pte_location(g, jv)));
            }
        }
    }
}

/// The physical page of the user page `va`: the page is below the
/// highest virtual address and its leaf PTE is valid and user
/// accessible.
pub open spec fn user_page(mem: &PhysMem, root: u64, va: u64) -> Option<u64> {
    if va > MAX_VIRT_ADDR {
        None
    } else {
        match translation(mem, root, va) {
            Some(e) => if pte_has(e, PTE_U) {
                Some(pte_addr_of(e))
            } else {
                None
            },
            None => None,
        }
    }
}

/// Get the physical address mapped to a user
/// virtual address.
/// # Arguments
/// - `pgt`: user pagetable
/// - `va`: virtual address
/// # Return
/// Physical address associated with the virtual address
pub fn walkaddr(pgt: PageTable, va: Addr, mem: &mut PhysMem, falloc: &mut FrameAllocator) -> (r: Option<Addr>)
    requires
        old(falloc).wf(),
        pgt@ + 4096 <= u64::MAX,
    ensures
        *final(mem) == *old(mem),
        *final(falloc) == *old(falloc),
        match r {
            Some(a) => user_page(old(mem), pgt@, va@) == Some(a@),
            None => user_page(old(mem), pgt@, va@) is None,
        },
{
    // Check of va is within boundries
    if va.as_integer() > MAX_VIRT_ADDR as u64 {
        return None;
    }
    // Walk the page table until the leaf PTE for the
    // address is found
    let opt: Option<(PageTable, usize)> = walk(pgt, va, false, mem, falloc);
    match opt {
        None => None,
        Some(p) => {
            // Get the leaf page table and index of the PTE
            let (pgt_l, index): (PageTable, usize) = p;
            proof {
                lemma_pte_addr_aligned(l1_entry(mem, pgt@, va@));
                lemma_index_bounds(va@);
            }
            // Get the PTE from the page table
            let pte: PageTableEntry = pgt_l.read_pte(index, mem);
            // Check if this PTE is valid
            if !pte.check_fields(PTE_V) {
                return None;
            }
            // Check if this PTE is for users
            if !pte.check_fields(PTE_U) {
                return None;
            }
            Some(pte.get_addr())
        },
    }
}

/// The page of the byte `t` of a buffer at virtual address `base`.
pub open spec fn page_of(base: u64, t: int) -> u64 {
    page_floor((base + t) as u64)
}

/// Physical address of the byte `t` of a user buffer at virtual
/// address `base` (meaningful when its page is a user page).
pub open spec fn user_addr(mem: &PhysMem, root: u64, base: u64, t: int) -> int {
    user_page(mem, root, page_of(base, t))->0 + (base + t) % 4096
}

/// Every page of the user buffer `[base, base + len)` is a user page.
pub open spec fn user_range_ok(mem: &PhysMem, root: u64, base: u64, len: int) -> bool {
    forall|t: int| 0 <= t < len ==> #[trigger] user_page(mem, root, page_of(base, t)) is Some
}

/// Whether the 4 bytes at `a` lie outside `[lo, lo + len)`.
pub open spec fn word_outside(a: int, lo: int, len: int) -> bool {
    a + 4 <= lo || lo + len <= a
}

/// The kernel buffer `[dst, dst + len)` does not overlap the PTEs
/// that translate the user buffer `[src, src + len)`, nor the
/// physical bytes of that buffer.
pub open spec fn copyin_disjoint(mem: &PhysMem, root: u64, dst: u64, src: u64, len: int) -> bool {
    forall|t: int| 0 <= t < len ==> {
        let p = #[trigger] page_of(src, t);
        &&& word_outside(l1_location(root, p), dst as int, len)
        &&& pte_has(l1_entry(mem, root, p), PTE_V) ==> word_outside(leaf_location(mem, root, p), dst as int, len)
        &&& user_page(mem, root, p) is Some ==> !(dst <= user_addr(mem, root, src, t) < dst + len)
    }
}

/// Byte `t` of the source buffer at `src`: in the user buffer of the
/// page table `root` when `usr`, in kernel memory otherwise.
pub open spec fn source_byte(mem: &PhysMem, usr: bool, root: u64, src: u64, t: int) -> u8 {
    if usr {
        mem.byte(user_addr(mem, root, src, t))
    } else {
        mem.byte(src + t)
    }
}

/// The `n` source bytes from `i` can be read: always from kernel
/// memory, from a user buffer when all of its pages are user pages.
pub open spec fn source_ok(mem: &PhysMem, usr: bool, root: u64, src: u64, i: int, n: int) -> bool {
    usr ==> user_range_ok(mem, root, (src + i) as u64, n)
}

/// The kernel buffer `[buf, buf + size)` lies away from what is read
/// of the source `[src, src + len)`: for a user source, from the
/// root and table frames of `root` and from the physical bytes of the
/// user buffer; for a kernel source, from the source bytes.
pub open spec fn staging_away(mem: &PhysMem, usr: bool, root: u64, src: u64, len: int, buf: u64, size: int) -> bool {
    &&& usr ==> {
        &&& (buf + size <= root || root + 4096 <= buf)
        &&& forall|k: int| 0 <= k < 1024 && #[trigger] mem.word(pte_location(root, k)) != 0 ==> {
            let tt = pte_addr_of(mem.word(pte_location(root, k)));
            buf + size <= tt || tt + 4096 <= buf
        }
        &&& forall|t: int| 0 <= t < len && user_page(mem, root, #[trigger] page_of(src, t)) is Some ==>
            !(buf <= user_addr(mem, root, src, t) < buf + size)
    }
    &&& !usr ==> (src + len <= buf || buf + size <= src)
}

/// Writes to a kernel buffer away from the source keep the source:
/// its pages, what can be read of it and its bytes, and the buffer
/// stays away from it.
pub proof fn lemma_staging_kept(
    m0: &PhysMem,
    m1: &PhysMem,
    usr: bool,
    root: u64,
    src: u64,
    len: int,
    buf: u64,
    size: int,
)
    requires
        staging_away(m0, usr, root, src, len, buf, size),
        m1.same_outside(m0, buf as int, buf + size),
        usr ==> root + 4096 <= u64::MAX,
        src + len <= u64::MAX,
    ensures
        staging_away(m1, usr, root, src, len, buf, size),
        forall|i: int, n: int| 0 <= i && 0 <= n && i + n <= len ==>
            (#[trigger] source_ok(m1, usr, root, src, i, n) == source_ok(m0, usr, root, src, i, n)),
        forall|t: int| 0 <= t < len && source_ok(m0, usr, root, src, t, 1) ==>
            #[trigger] source_byte(m1, usr, root, src, t) == source_byte(m0, usr, root, src, t),
{
    if usr {
        assert(changes_away_from_tables(m0, m1, root)) by {
            assert forall|a: int| 0 <= a < 0x1_0000_0000_0000_0000 && #[trigger] m1.byte(a) != m0.byte(a) implies {
                &&& !(root <= a < root + 4096)
                &&& forall|k: int| 0 <= k < 1024 && #[trigger] m0.word(pte_location(root, k)) != 0 ==> {
                    let tt = pte_addr_of(m0.word(pte_location(root, k)));
                    !(tt <= a < tt + 4096)
                }
            } by {
                assert(buf <= a < buf + size);
            }
        }
        assert forall|p: u64| #[trigger] user_page(m1, root, p) == user_page(m0, root, p) by {
            lemma_pte_words_kept(m0, m1, root, p);
        }
        assert forall|k: int| 0 <= k < 1024 implies #[trigger] m1.word(pte_location(root, k))
            == m0.word(pte_location(root, k)) by {
            let l = pte_location(root, k);
            assert forall|j: int| 0 <= j < 4 implies #[trigger] m1.byte(l + j) == m0.byte(l + j) by {
                if m1.byte(l + j) != m0.byte(l + j) {
                    assert(!(root <= l + j < root + 4096));
                }
            }
            lemma_word_equal(m0, m1, l);
        }
        assert forall|i: int, n: int| 0 <= i && 0 <= n && i + n <= len implies
            #[trigger] source_ok(m1, usr, root, src, i, n) == source_ok(m0, usr, root, src, i, n) by {
            let b = (src + i) as u64;
            if user_range_ok(m0, root, b, n) {
                assert forall|t: int| 0 <= t < n implies #[trigger] user_page(m1, root, page_of(b, t)) is Some by {
                    assert(user_page(m0, root, page_of(b, t)) is Some);
                }
            }
            if user_range_ok(m1, root, b, n) {
                assert forall|t: int| 0 <= t < n implies #[trigger] user_page(m0, root, page_of(b, t)) is Some by {
                    assert(user_page(m1, root, page_of(b, t)) is Some);
                }
            }
        }
        assert forall|t: int| 0 <= t < len && source_ok(m0, usr, root, src, t, 1) implies
            #[trigger] source_byte(m1, usr, root, src, t) == source_byte(m0, usr, root, src, t) by {
            assert(user_page(m0, root, page_of((src + t) as u64, 0)) is Some);
            assert(page_of((src + t) as u64, 0) == page_of(src, t));
            let p = page_of(src, t);
            assert(user_page(m1, root, p) == user_page(m0, root, p));
            lemma_pte_addr_aligned(leaf_entry(m0, root, p));
            let a = user_addr(m0, root, src, t);
            assert(user_addr(m1, root, src, t) == a);
            assert(!(buf <= a < buf + size));
            assert(0 <= a < 0x1_0000_0000_0000_0000);
            assert(m1.byte(a) == m0.byte(a));
        }
        assert forall|t: int| 0 <= t < len && user_page(m1, root, #[trigger] page_of(src, t)) is Some implies
            !(buf <= user_addr(m1, root, src, t) < buf + size) by {
            assert(user_page(m1, root, page_of(src, t)) == user_page(m0, root, page_of(src, t)));
        }
    } else {
        assert forall|t: int| 0 <= t < len && source_ok(m0, usr, root, src, t, 1) implies
            #[trigger] source_byte(m1, usr, root, src, t) == source_byte(m0, usr, root, src, t) by {
            assert(!(buf <= src + t < buf + size));
        }
    }
}

/// A kernel buffer away from a user source is disjoint, for `copyin`,
/// from each part `[i, i + n)` of the source, when it is no larger
/// than the buffer.
pub proof fn lemma_staging_copyin(mem: &PhysMem, root: u64, src: u64, len: int, buf: u64, size: int, i: int, n: int)
    requires
        staging_away(mem, true, root, src, len, buf, size),
        root + 4096 <= u64::MAX,
        src + len <= u64::MAX,
        0 <= i,
        0 <= n <= size,
        i + n <= len,
    ensures
        copyin_disjoint(mem, root, buf, (src + i) as u64, n),
{
    let b = (src + i) as u64;
    assert forall|t: int| 0 <= t < n implies {
        let p = #[trigger] page_of(b, t);
        &&& word_outside(l1_location(root, p), buf as int, n)
        &&& pte_has(l1_entry(mem, root, p), PTE_V) ==> word_outside(leaf_location(mem, root, p), buf as int, n)
        &&& user_page(mem, root, p) is Some ==> !(buf <= user_addr(mem, root, b, t) < buf + n)
    } by {
        let p = page_of(b, t);
        assert(p == page_of(src, i + t));
        lemma_index_bounds(p);
        if pte_has(l1_entry(mem, root, p), PTE_V) {
            let k = va_index(1, p) as int;
            lemma_zero_pte();
            assert(mem.word(pte_location(root, k)) != 0);
        }
        if user_page(mem, root, p) is Some {
            assert(user_page(mem, root, page_of(src, i + t)) is Some);
            assert(user_addr(mem, root, b, t) == user_addr(mem, root, src, i + t));
        }
    }
}

/// Two memories with the same four bytes at `a` have the same word there.
proof fn lemma_word_equal(m1: &PhysMem, m2: &PhysMem, a: int)
    requires
        forall|k: int| 0 <= k < 4 ==> #[trigger] m2.byte(a + k) == m1.byte(a + k),
    ensures
        m2.word(a) == m1.word(a),
{
    assert(m2.byte(a + 0) == m1.byte(a + 0));
    assert(m2.byte(a + 1) == m1.byte(a + 1));
    assert(m2.byte(a + 2) == m1.byte(a + 2));
    assert(m2.byte(a + 3) == m1.byte(a + 3));
}

proof fn lemma_page_offset(p: u64, o: u64)
    requires
        p % 4096 == 0,
        o < 4096,
        p + o <= u64::MAX,
    ensures
        page_floor((p + o) as u64) == p,
        ((p + o) as u64) % 4096 == o,
{
    assert(p % 4096 == 0 ==> p & 0xFFFu64 == 0) by (bit_vector);
    assert(((p + o) as u64) & !0xFFFu64 == p) by (bit_vector)
        requires p & 0xFFFu64 == 0, o < 4096u64, p + o <= 0xFFFF_FFFF_FFFF_FFFFu64;
}

/// The translation and the user page of `p` do not change when
/// memory changes only in `[lo, lo + len)`, away from its PTEs.
proof fn lemma_user_page_kept(m1: &PhysMem, m2: &PhysMem, root: u64, p: u64, lo: int, len: int)
    requires
        m2.same_outside(m1, lo, lo + len),
        root + 4096 <= u64::MAX,
        word_outside(l1_location(root, p), lo, len),
        pte_has(l1_entry(m1, root, p), PTE_V) ==> word_outside(leaf_location(m1, root, p), lo, len),
    ensures
        user_page(m2, root, p) == user_page(m1, root, p),
        translation(m2, root, p) == translation(m1, root, p),
{
    lemma_index_bounds(p);
    lemma_word_kept(m1, m2, lo, lo + len, l1_location(root, p));
    if pte_has(l1_entry(m1, root, p), PTE_V) {
        lemma_pte_addr_aligned(l1_entry(m1, root, p));
        lemma_word_kept(m1, m2, lo, lo + len, leaf_location(m1, root, p));
    }
}

/// Copy bytes from a user source address into
/// a destination address in the kernel.
/// # Arguments
/// - `pgt`: user pagetable
/// - `dst`: destination address (kernel)
/// - `src`: source address  (user)
/// - `len`: number of bytes to copy
/// # Return
/// `true` if the copy is successful, `false` otherwise.
pub fn copyin(
    pgt: PageTable,
    dst: Addr,
    src: Addr,
    len: usize,
    mem: &mut PhysMem,
    falloc: &mut FrameAllocator,
) -> (r: bool)
    requires
        old(falloc).wf(),
        pgt@ + 4096 <= u64::MAX,
        dst@ + len <= u64::MAX,
        src@ + len <= u64::MAX,
        copyin_disjoint(old(mem), pgt@, dst@, src@, len as int),
    ensures
        *final(falloc) == *old(falloc),
        r == user_range_ok(old(mem), pgt@, src@, len as int),
        r ==> forall|t: int| 0 <= t < len ==>
            #[trigger] final(mem).byte(dst@ + t) == old(mem).byte(user_addr(old(mem), pgt@, src@, t)),
        final(mem).same_outside(old(mem), dst@ as int, dst@ + len),
{
    let ghost root = pgt@;
    let ghost m0 = *mem;
    let dst0: u64 = dst.as_integer();
    let src0: u64 = src.as_integer();
    let mut done: usize = 0;
    // Loops going through pages until all bytes are copied
    while done < len
        invariant
            *falloc == *old(falloc),
            falloc.wf(),
            m0 == *old(mem),
            root == pgt@,
            pgt@ + 4096 <= u64::MAX,
            dst0 == dst@,
            src0 == src@,
            dst0 + len <= u64::MAX,
            src0 + len <= u64::MAX,
            done <= len,
            copyin_disjoint(&m0, root, dst0, src0, len as int),
            mem.same_outside(&m0, dst0 as int, dst0 + done),
            forall|t: int| 0 <= t < done ==> #[trigger] user_page(&m0, root, page_of(src0, t)) is Some,
            forall|t: int| 0 <= t < done ==>
                #[trigger] mem.byte(dst0 + t) == m0.byte(user_addr(&m0, root, src0, t)),
        decreases len - done,
    {
        let cur: u64 = src0 + done as u64;
        // Get the address of the closest previous page because
        // the virtual addresses mapped on the pagetable must
        // be page aligned
        let va: Addr = prev_page(Addr::new(cur));
        proof {
            assert(page_of(src0, done as int) == va@);
            assert(mem.same_outside(&m0, dst0 as int, dst0 + len));
            lemma_user_page_kept(&m0, mem, root, va@, dst0 as int, len as int);
        }
        // Get the physical address of the page that va maps
        let opt: Option<Addr> = walkaddr(pgt, va, mem, falloc);
        match opt {
            None => {
                proof {
                    assert(user_page(&m0, root, page_of(src0, done as int)) is None);
                }
                return false;
            },
            Some(pa) => {
                // Number of bytes that will be copied from this page
                // Page: |*......*.....|
                //        va    src     end
                let offset: u64 = cur - va.as_integer();
                let mut bytes: usize = PAGE_SIZE - offset as usize;
                // Amount of bytes to be copied is bigger than len
                if bytes >= len - done {
                    bytes = len - done;
                }
                proof {
                    lemma_pte_addr_aligned(translation(&m0, root, va@)->0);
                }
                let ghost m1 = *mem;
                // Copy to the destination (in the kernel)
                mem.copy(dst0 + done as u64, pa.as_integer() + offset, bytes);
                proof {
                    assert forall|k: int| 0 <= k < bytes implies
                        #[trigger] user_page(&m0, root, page_of(src0, done + k)) == Some(pa@)
                        && user_addr(&m0, root, src0, done + k) == pa@ + offset + k by {
                        lemma_page_offset(va@, (offset + k) as u64);
                    }
                    assert forall|k: int| 0 <= k < bytes implies
                        #[trigger] m1.byte(pa@ + offset + k) == m0.byte(pa@ + offset + k) by {
                        assert(user_page(&m0, root, page_of(src0, done + k)) is Some);
                        assert(!(dst0 <= user_addr(&m0, root, src0, done + k) < dst0 + len));
                    }
                    assert forall|t: int| 0 <= t < done + bytes implies
                        #[trigger] mem.byte(dst0 + t) == m0.byte(user_addr(&m0, root, src0, t)) by {
                        if t >= done {
                            let k = t - done;
                            let d = (dst0 + done) as u64;
                            assert(mem.byte(d + k) == m1.byte(pa@ + offset + k));
                            assert(d + k == dst0 + t);
                            assert(m1.byte(pa@ + offset + k) == m0.byte(pa@ + offset + k));
                            assert(user_addr(&m0, root, src0, done + k) == pa@ + offset + k);
                        } else {
                            assert(mem.byte(dst0 + t) == m1.byte(dst0 + t));
                        }
                    }
                    assert forall|t: int| 0 <= t < done + bytes implies
                        #[trigger] user_page(&m0, root, page_of(src0, t)) is Some by {
                        if t >= done {
                            let k = t - done;
                            assert(user_page(&m0, root, page_of(src0, done + k)) == Some(pa@));
                        }
                    }
                }
                done = done + bytes;
            },
        }
    }
    true
}

/// The physical bytes of the user buffer `[dst, dst + len)` lie
/// outside the kernel buffer `[src, src + len)` and outside the PTEs
/// that translate the user buffer, and no two bytes of the user
/// buffer share a physical byte.
pub open spec fn copyout_disjoint(mem: &PhysMem, root: u64, dst: u64, src: u64, len: int) -> bool {
    forall|t: int| 0 <= t < len && user_page(mem, root, #[trigger] page_of(dst, t)) is Some ==> {
        let w = user_addr(mem, root, dst, t);
        &&& !(src <= w < src + len)
        &&& forall|t2: int| 0 <= t2 < len ==> {
            let p2 = #[trigger] page_of(dst, t2);
            &&& !(l1_location(root, p2) <= w < l1_location(root, p2) + 4)
            &&& pte_has(l1_entry(mem, root, p2), PTE_V) ==> !(leaf_location(mem, root, p2) <= w
                < leaf_location(mem, root, p2) + 4)
            &&& t2 != t && user_page(mem, root, p2) is Some ==> user_addr(mem, root, dst, t2) != w
        }
    }
}

/// Every byte that differs between `m0` and `m` is the physical byte
/// of one of the first `n` bytes of the user buffer at `dst`.
pub open spec fn changed_only_user(m0: &PhysMem, m: &PhysMem, root: u64, dst: u64, n: int) -> bool {
    forall|a: int| 0 <= a < 0x1_0000_0000_0000_0000 && #[trigger] m.byte(a) != m0.byte(a) ==>
        exists|t: int| 0 <= t < n && user_page(m0, root, #[trigger] page_of(dst, t)) is Some
            && a == user_addr(m0, root, dst, t)
}

/// Copy bytes from a kernel source address into
/// a destination address in the userspace.
/// # Arguments
/// - `pgt`: user pagetable
/// - `dst`: destination address (user)
/// - `src`: source address (kernel)
/// - `len`: number of bytes to copy
/// # Return
/// `true` if the copy is successful, `false` otherwise.
pub fn copyout(
    pgt: PageTable,
    dst: Addr,
    src: Addr,
    len: usize,
    mem: &mut PhysMem,
    falloc: &mut FrameAllocator,
) -> (r: bool)
    requires
        old(falloc).wf(),
        pgt@ + 4096 <= u64::MAX,
        dst@ + len <= u64::MAX,
        src@ + len <= u64::MAX,
        copyout_disjoint(old(mem), pgt@, dst@, src@, len as int),
    ensures
        *final(falloc) == *old(falloc),
        r == user_range_ok(old(mem), pgt@, dst@, len as int),
        r ==> forall|t: int| 0 <= t < len ==>
            #[trigger] final(mem).byte(user_addr(old(mem), pgt@, dst@, t)) == old(mem).byte(src@ + t),
        changed_only_user(old(mem), final(mem), pgt@, dst@, len as int),
        !r ==> exists|n: int| 0 <= n < len && #[trigger] user_page(old(mem), pgt@, page_of(dst@, n)) is None
            && (forall|t: int| 0 <= t < n ==> #[trigger] user_page(old(mem), pgt@, page_of(dst@, t)) is Some)
            && changed_only_user(old(mem), final(mem), pgt@, dst@, n),
{
    let ghost root = pgt@;
    let ghost m0 = *mem;
    let dst0: u64 = dst.as_integer();
    let src0: u64 = src.as_integer();
    let mut done: usize = 0;
    // Loops going through pages until all bytes are copied
    while done < len
        invariant
            *falloc == *old(falloc),
            falloc.wf(),
            m0 == *old(mem),
            root == pgt@,
            pgt@ + 4096 <= u64::MAX,
            dst0 == dst@,
            src0 == src@,
            dst0 + len <= u64::MAX,
            src0 + len <= u64::MAX,
            done <= len,
            copyout_disjoint(&m0, root, dst0, src0, len as int),
            changed_only_user(&m0, mem, root, dst0, done as int),
            forall|t: int| 0 <= t < done ==> #[trigger] user_page(&m0, root, page_of(dst0, t)) is Some,
            forall|t: int| 0 <= t < done ==>
                #[trigger] mem.byte(user_addr(&m0, root, dst0, t)) == m0.byte(src0 + t),
        decreases len - done,
    {
        let cur: u64 = dst0 + done as u64;
        // Get the address of the closest previous page because
        // the virtual addresses mapped on the pagetable must
        // be page aligned
        let va: Addr = prev_page(Addr::new(cur));
        proof {
            assert(page_of(dst0, done as int) == va@);
            lemma_index_bounds(va@);
            // The PTEs of this page are not among the bytes written so far.
            let l1 = l1_location(root, va@);
            assert forall|k: int| 0 <= k < 4 implies #[trigger] mem.byte(l1 + k) == m0.byte(l1 + k) by {
                if mem.byte(l1 + k) != m0.byte(l1 + k) {
                    let t = choose|t: int| 0 <= t < done && user_page(&m0, root, #[trigger] page_of(dst0, t)) is Some
                        && l1 + k == user_addr(&m0, root, dst0, t);
                    assert(page_of(dst0, done as int) == va@);
                }
            }
            lemma_word_equal(&m0, mem, l1);
            if pte_has(l1_entry(&m0, root, va@), PTE_V) {
                lemma_pte_addr_aligned(l1_entry(&m0, root, va@));
                let l0 = leaf_location(&m0, root, va@);
                assert forall|k: int| 0 <= k < 4 implies #[trigger] mem.byte(l0 + k) == m0.byte(l0 + k) by {
                    if mem.byte(l0 + k) != m0.byte(l0 + k) {
                        let t = choose|t: int| 0 <= t < done && user_page(&m0, root, #[trigger] page_of(dst0, t)) is Some
                            && l0 + k == user_addr(&m0, root, dst0, t);
                        assert(page_of(dst0, done as int) == va@);
                    }
                }
                lemma_word_equal(&m0, mem, l0);
            }
            assert(user_page(mem, root, va@) == user_page(&m0, root, va@));
        }
        // Get the physical address of the page that va maps
        let opt: Option<Addr> = walkaddr(pgt, va, mem, falloc);
        match opt {
            None => {
                proof {
                    assert(user_page(&m0, root, page_of(dst0, done as int)) is None);
                    assert(changed_only_user(&m0, mem, root, dst0, done as int));
                }
                return false;
            },
            Some(pa) => {
                // Number of bytes that will be copied to this page
                // Page: |*......*.....|
                //        va    dst     end
                let offset: u64 = cur - va.as_integer();
                let mut bytes: usize = PAGE_SIZE - offset as usize;
                // Amount of bytes to be copied is bigger than len
                if bytes >= len - done {
                    bytes = len - done;
                }
                proof {
                    lemma_pte_addr_aligned(translation(&m0, root, va@)->0);
                    assert forall|k: int| 0 <= k < bytes implies
                        #[trigger] user_page(&m0, root, page_of(dst0, done + k)) == Some(pa@)
                        && user_addr(&m0, root, dst0, done + k) == pa@ + offset + k by {
                        lemma_page_offset(va@, (offset + k) as u64);
                    }
                    // The source bytes are unchanged.
                    assert forall|k: int| 0 <= k < bytes implies
                        #[trigger] mem.byte(src0 + done + k) == m0.byte(src0 + done + k) by {
                        let a = src0 + done + k;
                        if mem.byte(a) != m0.byte(a) {
                            let t = choose|t: int| 0 <= t < done && user_page(&m0, root, #[trigger] page_of(dst0, t)) is Some
                                && a == user_addr(&m0, root, dst0, t);
                        }
                    }
                }
                let ghost m1 = *mem;
                // pa + offset is the physical address of dst
                mem.copy(pa.as_integer() + offset, src0 + done as u64, bytes);
                proof {
                    let lo = pa@ + offset;
                    // Bytes written before are outside this chunk.
                    assert forall|t: int| 0 <= t < done implies
                        !(lo <= #[trigger] user_addr(&m0, root, dst0, t) < lo + bytes) by {
                        let w = user_addr(&m0, root, dst0, t);
                        if lo <= w < lo + bytes {
                            let k = w - lo;
                            assert(user_page(&m0, root, page_of(dst0, done + k)) == Some(pa@));
                            assert(user_page(&m0, root, page_of(dst0, t)) is Some);
                            assert(user_addr(&m0, root, dst0, done + k) == w);
                        }
                    }
                    assert forall|t: int| 0 <= t < done + bytes implies
                        #[trigger] mem.byte(user_addr(&m0, root, dst0, t)) == m0.byte(src0 + t) by {
                        if t >= done {
                            let k = t - done;
                            let s = (src0 + done) as u64;
                            let d = (pa@ + offset) as u64;
                            assert(mem.byte(d + k) == m1.byte(s + k));
                            assert(user_addr(&m0, root, dst0, done + k) == d + k);
                        } else {
                            let w = user_addr(&m0, root, dst0, t);
                            lemma_pte_addr_aligned(translation(&m0, root, page_of(dst0, t))->0);
                            assert(!(lo <= w < lo + bytes));
                            assert(mem.byte(w) == m1.byte(w));
                        }
                    }
                    assert forall|t: int| 0 <= t < done + bytes implies
                        #[trigger] user_page(&m0, root, page_of(dst0, t)) is Some by {
                        if t >= done {
                            assert(user_page(&m0, root, page_of(dst0, done + (t - done))) == Some(pa@));
                        }
                    }
                    assert forall|a: int| 0 <= a < 0x1_0000_0000_0000_0000 && #[trigger] mem.byte(a) != m0.byte(a)
                        implies exists|t: int| 0 <= t < done + bytes
                            && user_page(&m0, root, #[trigger] page_of(dst0, t)) is Some
                            && a == user_addr(&m0, root, dst0, t) by {
                        if lo <= a < lo + bytes {
                            let k = a - lo;
                            assert(user_page(&m0, root, page_of(dst0, done + k)) == Some(pa@));
                            assert(user_addr(&m0, root, dst0, done + k) == a);
                        } else {
                            assert(mem.byte(a) == m1.byte(a));
                            let t = choose|t: int| 0 <= t < done && user_page(&m0, root, #[trigger] page_of(dst0, t)) is Some
                                && a == user_addr(&m0, root, dst0, t);
                            assert(0 <= t < done + bytes);
                        }
                    }
                }
                done = done + bytes;
            },
        }
    }
    true
}

/// The physical bytes of the user buffer `[dst, dst + len)` are
/// distinct and lie apart from the PTEs that translate the buffer.
pub open spec fn user_dst_disjoint(mem: &PhysMem, root: u64, dst: u64, len: int) -> bool {
    forall|t: int| 0 <= t < len && user_page(mem, root, #[trigger] page_of(dst, t)) is Some ==> {
        let w = user_addr(mem, root, dst, t);
        forall|t2: int| 0 <= t2 < len ==> {
            let p2 = #[trigger] page_of(dst, t2);
            &&& !(l1_location(root, p2) <= w < l1_location(root, p2) + 4)
            &&& pte_has(l1_entry(mem, root, p2), PTE_V) ==> !(leaf_location(mem, root, p2) <= w
                < leaf_location(mem, root, p2) + 4)
            &&& t2 != t && user_page(mem, root, p2) is Some ==> user_addr(mem, root, dst, t2) != w
        }
    }
}

/// The physical bytes of the user buffer `[dst, dst + len)` lie
/// outside the root frame and the table frames of the page table.
pub open spec fn user_dst_away(mem: &PhysMem, root: u64, dst: u64, len: int) -> bool {
    forall|t: int| 0 <= t < len && user_page(mem, root, #[trigger] page_of(dst, t)) is Some ==> {
        let a = user_addr(mem, root, dst, t);
        &&& !(root <= a < root + 4096)
        &&& forall|k: int| 0 <= k < 1024 && #[trigger] mem.word(pte_location(root, k)) != 0 ==> {
            let tt = pte_addr_of(mem.word(pte_location(root, k)));
            !(tt <= a < tt + 4096)
        }
    }
}

/// Writes to the bytes of a user buffer that lies away from the page
/// table leave the page table alone.
pub proof fn lemma_user_changes_away(m0: &PhysMem, m1: &PhysMem, root: u64, dst: u64, len: int)
    requires
        changed_only_user(m0, m1, root, dst, len),
        user_dst_away(m0, root, dst, len),
    ensures
        changes_away_from_tables(m0, m1, root),
{
    assert forall|a: int| 0 <= a < 0x1_0000_0000_0000_0000 && #[trigger] m1.byte(a) != m0.byte(a) implies {
        &&& !(root <= a < root + 4096)
        &&& forall|k: int| 0 <= k < 1024 && #[trigger] m0.word(pte_location(root, k)) != 0 ==> {
            let tt = pte_addr_of(m0.word(pte_location(root, k)));
            !(tt <= a < tt + 4096)
        }
    } by {
        let t = choose|t: int| 0 <= t < len && user_page(m0, root, #[trigger] page_of(dst, t)) is Some
            && a == user_addr(m0, root, dst, t);
    }
}

/// Changes away from the root and table frames keep the PTEs that
/// translate `p`, and so its user page.
proof fn lemma_pte_words_kept(m0: &PhysMem, m1: &PhysMem, root: u64, p: u64)
    requires
        changes_away_from_tables(m0, m1, root),
        root + 4096 <= u64::MAX,
    ensures
        l1_entry(m1, root, p) == l1_entry(m0, root, p),
        pte_has(l1_entry(m0, root, p), PTE_V) ==> leaf_entry(m1, root, p) == leaf_entry(m0, root, p),
        user_page(m1, root, p) == user_page(m0, root, p),
        translation(m1, root, p) == translation(m0, root, p),
{
    lemma_index_bounds(p);
    let l1 = l1_location(root, p);
    assert forall|k: int| 0 <= k < 4 implies #[trigger] m1.byte(l1 + k) == m0.byte(l1 + k) by {
        if m1.byte(l1 + k) != m0.byte(l1 + k) {
            assert(!(root <= l1 + k < root + 4096));
        }
    }
    lemma_word_equal(m0, m1, l1);
    if pte_has(l1_entry(m0, root, p), PTE_V) {
        let e = l1_entry(m0, root, p);
        let i = va_index(1, p) as int;
        assert(e != 0) by {
            lemma_zero_pte();
        }
        assert(m0.word(pte_location(root, i)) == e);
        lemma_pte_addr_aligned(e);
        let t = pte_addr_of(e);
        let l0 = leaf_location(m0, root, p);
        assert forall|k: int| 0 <= k < 4 implies #[trigger] m1.byte(l0 + k) == m0.byte(l0 + k) by {
            if m1.byte(l0 + k) != m0.byte(l0 + k) {
                assert(!(t <= l0 + k < t + 4096));
            }
        }
        lemma_word_equal(m0, m1, l0);
    }
}

/// Changes away from the root and table frames keep the conditions
/// on a user buffer.
pub proof fn lemma_user_dst_kept(m0: &PhysMem, m1: &PhysMem, root: u64, dst: u64, len: int)
    requires
        changes_away_from_tables(m0, m1, root),
        root + 4096 <= u64::MAX,
        user_dst_disjoint(m0, root, dst, len),
        user_dst_away(m0, root, dst, len),
    ensures
        user_dst_disjoint(m1, root, dst, len),
        user_dst_away(m1, root, dst, len),
{
    assert forall|p: u64| #[trigger] user_page(m1, root, p) == user_page(m0, root, p)
        && l1_entry(m1, root, p) == l1_entry(m0, root, p)
        && (pte_has(l1_entry(m0, root, p), PTE_V) ==> leaf_location(m1, root, p) == leaf_location(m0, root, p)) by {
        lemma_pte_words_kept(m0, m1, root, p);
    }
    assert forall|k: int| 0 <= k < 1024 implies #[trigger] m1.word(pte_location(root, k)) == m0.word(pte_location(root, k)) by {
        let l = pte_location(root, k);
        assert forall|j: int| 0 <= j < 4 implies #[trigger] m1.byte(l + j) == m0.byte(l + j) by {
            if m1.byte(l + j) != m0.byte(l + j) {
                assert(!(root <= l + j < root + 4096));
            }
        }
        lemma_word_equal(m0, m1, l);
    }
    assert forall|t: int| 0 <= t < len && user_page(m1, root, #[trigger] page_of(dst, t)) is Some implies {
        let w = user_addr(m1, root, dst, t);
        forall|t2: int| 0 <= t2 < len ==> {
            let p2 = #[trigger] page_of(dst, t2);
            &&& !(l1_location(root, p2) <= w < l1_location(root, p2) + 4)
            &&& pte_has(l1_entry(m1, root, p2), PTE_V) ==> !(leaf_location(m1, root, p2) <= w
                < leaf_location(m1, root, p2) + 4)
            &&& t2 != t && user_page(m1, root, p2) is Some ==> user_addr(m1, root, dst, t2) != w
        }
    } by {
        assert(user_page(m1, root, page_of(dst, t)) == user_page(m0, root, page_of(dst, t)));
        assert forall|t2: int| 0 <= t2 < len implies {
            let w = user_addr(m1, root, dst, t);
            let p2 = #[trigger] page_of(dst, t2);
            &&& !(l1_location(root, p2) <= w < l1_location(root, p2) + 4)
            &&& pte_has(l1_entry(m1, root, p2), PTE_V) ==> !(leaf_location(m1, root, p2) <= w
                < leaf_location(m1, root, p2) + 4)
            &&& t2 != t && user_page(m1, root, p2) is Some ==> user_addr(m1, root, dst, t2) != w
        } by {
            let p2 = page_of(dst, t2);
            assert(user_page(m1, root, p2) == user_page(m0, root, p2));
            assert(l1_entry(m1, root, p2) == l1_entry(m0, root, p2));
        }
    }
    assert forall|t: int| 0 <= t < len && user_page(m1, root, #[trigger] page_of(dst, t)) is Some implies {
        let a = user_addr(m1, root, dst, t);
        &&& !(root <= a < root + 4096)
        &&& forall|k: int| 0 <= k < 1024 && #[trigger] m1.word(pte_location(root, k)) != 0 ==> {
            let tt = pte_addr_of(m1.word(pte_location(root, k)));
            !(tt <= a < tt + 4096)
        }
    } by {
        assert(user_page(m1, root, page_of(dst, t)) == user_page(m0, root, page_of(dst, t)));
    }
}

/// Copy a 32-bit word, least significant byte first, to a
/// destination address in the userspace.
/// # Arguments
/// - `pgt`: user pagetable
/// - `dst`: destination address (user)
/// - `value`: the word
/// # Return
/// `true` if the copy is successful, `false` otherwise.
pub fn copyout_word(
    pgt: PageTable,
    dst: Addr,
    value: u32,
    mem: &mut PhysMem,
    falloc: &mut FrameAllocator,
) -> (r: bool)
    requires
        old(falloc).wf(),
        pgt@ + 4096 <= u64::MAX,
        dst@ + 4 <= u64::MAX,
        user_dst_disjoint(old(mem), pgt@, dst@, 4),
    ensures
        *final(falloc) == *old(falloc),
        r == user_range_ok(old(mem), pgt@, dst@, 4),
        r ==> forall|t: int| 0 <= t < 4 ==>
            #[trigger] final(mem).byte(user_addr(old(mem), pgt@, dst@, t)) == word_byte(value, t),
        changed_only_user(old(mem), final(mem), pgt@, dst@, 4),
{
    let ghost root = pgt@;
    let ghost m0 = *mem;
    let dst0: u64 = dst.as_integer();
    let mut done: usize = 0;
    while done < 4
        invariant
            *falloc == *old(falloc),
            falloc.wf(),
            m0 == *old(mem),
            root == pgt@,
            pgt@ + 4096 <= u64::MAX,
            dst0 == dst@,
            dst0 + 4 <= u64::MAX,
            done <= 4,
            user_dst_disjoint(&m0, root, dst0, 4),
            changed_only_user(&m0, mem, root, dst0, done as int),
            forall|t: int| 0 <= t < done ==> #[trigger] user_page(&m0, root, page_of(dst0, t)) is Some,
            forall|t: int| 0 <= t < done ==>
                #[trigger] mem.byte(user_addr(&m0, root, dst0, t)) == word_byte(value, t),
        decreases 4 - done,
    {
        let cur: u64 = dst0 + done as u64;
        let va: Addr = prev_page(Addr::new(cur));
        proof {
            assert(page_of(dst0, done as int) == va@);
            lemma_index_bounds(va@);
            // The PTEs of this page are not among the bytes written so far.
            let l1 = l1_location(root, va@);
            assert forall|k: int| 0 <= k < 4 implies #[trigger] mem.byte(l1 + k) == m0.byte(l1 + k) by {
                if mem.byte(l1 + k) != m0.byte(l1 + k) {
                    let t = choose|t: int| 0 <= t < done && user_page(&m0, root, #[trigger] page_of(dst0, t)) is Some
                        && l1 + k == user_addr(&m0, root, dst0, t);
                    assert(page_of(dst0, done as int) == va@);
                }
            }
            lemma_word_equal(&m0, mem, l1);
            if pte_has(l1_entry(&m0, root, va@), PTE_V) {
                lemma_pte_addr_aligned(l1_entry(&m0, root, va@));
                let l0 = leaf_location(&m0, root, va@);
                assert forall|k: int| 0 <= k < 4 implies #[trigger] mem.byte(l0 + k) == m0.byte(l0 + k) by {
                    if mem.byte(l0 + k) != m0.byte(l0 + k) {
                        let t = choose|t: int| 0 <= t < done && user_page(&m0, root, #[trigger] page_of(dst0, t)) is Some
                            && l0 + k == user_addr(&m0, root, dst0, t);
                        assert(page_of(dst0, done as int) == va@);
                    }
                }
                lemma_word_equal(&m0, mem, l0);
            }
            assert(user_page(mem, root, va@) == user_page(&m0, root, va@));
        }
        // Get the physical address of the page that va maps
        let opt: Option<Addr> = walkaddr(pgt, va, mem, falloc);
        match opt {
            None => {
                proof {
                    assert(user_page(&m0, root, page_of(dst0, done as int)) is None);
                }
                return false;
            },
            Some(pa) => {
                let offset: u64 = cur - va.as_integer();
                let b: u8 = ((value >> (8 * done as u32)) & 0xffu32) as u8;
                proof {
                    lemma_pte_addr_aligned(translation(&m0, root, va@)->0);
                    lemma_page_offset(va@, offset);
                    assert(user_addr(&m0, root, dst0, done as int) == pa@ + offset);
                    assert(b == word_byte(value, done as int));
                }
                let ghost m1 = *mem;
                mem.write_u8(pa.as_integer() + offset, b);
                proof {
                    let a0 = pa@ + offset;
                    assert(mem.byte(a0) == b);
                    assert(b == word_byte(value, done as int));
                    assert forall|t: int| 0 <= t < done + 1 implies
                        #[trigger] mem.byte(user_addr(&m0, root, dst0, t)) == word_byte(value, t) by {
                        if t < done {
                            let w = user_addr(&m0, root, dst0, t);
                            assert(user_page(&m0, root, page_of(dst0, t)) is Some);
                            assert(user_page(&m0, root, page_of(dst0, done as int)) is Some);
                            assert(user_addr(&m0, root, dst0, done as int) != w);
                            lemma_pte_addr_aligned(translation(&m0, root, page_of(dst0, t))->0);
                            assert(w != a0);
                            assert(mem.byte(w) == m1.byte(w));
                        } else {
                            assert(t == done);
                            assert(user_addr(&m0, root, dst0, t) == a0);
                        }
                    }
                    assert forall|a: int| 0 <= a < 0x1_0000_0000_0000_0000 && #[trigger] mem.byte(a) != m0.byte(a)
                        implies exists|t: int| 0 <= t < done + 1
                            && user_page(&m0, root, #[trigger] page_of(dst0, t)) is Some
                            && a == user_addr(&m0, root, dst0, t) by {
                        if a == a0 {
                            assert(user_page(&m0, root, page_of(dst0, done as int)) is Some);
                        } else {
                            assert(mem.byte(a) == m1.byte(a));
                            let t = choose|t: int| 0 <= t < done && user_page(&m0, root, #[trigger] page_of(dst0, t)) is Some
                                && a == user_addr(&m0, root, dst0, t);
                            assert(0 <= t < done + 1);
                        }
                    }
                }
                done = done + 1;
            },
        }
    }
    true
}

/// Configure the PTEs for the page tables mapping virtual addresses
/// starting at `va` to physical addresses starting at `pa`. `va` and
/// `size` must be page-aligned.
/// # Arguments
/// - `pgt`: page table to search
/// - `va`: virtual address
/// - `pa`: physical address
/// - `size`: size of the mapping
/// - `perm`: permission fields of the leaf PTEs
/// # Return
/// `true` if the mapping is successful, `false` otherwise
#[verifier::spinoff_prover]
pub fn map(
    pgt: PageTable,
    va: Addr,
    pa: Addr,
    size: usize,
    perm: u8,
    mem: &mut PhysMem,
    falloc: &mut FrameAllocator,
) -> (r: bool)
    requires
        old(falloc).wf(),
        old(falloc).initialized(),
        pt_wf(old(mem), old(falloc), pgt@),
        size % PAGE_SIZE == 0,
        va@ % 4096 == 0,
        size != 0,
        va@ + size <= 0x1_0000_0000,
        pa@ + size <= u64::MAX,
        forall|v: u64| virt_page(v) && va@ <= v < va@ + size ==>
            #[trigger] translation(old(mem), pgt@, v) is None,
    ensures
        final(falloc).wf(),
        final(falloc).initialized(),
        final(falloc).start() == old(falloc).start(),
        final(falloc).kernel_end() == old(falloc).kernel_end(),
        uses_grow(old(falloc), final(falloc)),
        pt_wf(final(mem), final(falloc), pgt@),
        forall|v: u64| virt_page(v) && !(va@ <= v < va@ + size) ==>
            #[trigger] translation(final(mem), pgt@, v) == translation(old(mem), pgt@, v),
        r ==> forall|v: u64| virt_page(v) && va@ <= v < va@ + size ==>
            #[trigger] translation(final(mem), pgt@, v) == Some(mapped_entry((pa@ + (v - va@)) as u64, perm)),
        !r ==> exhausted(final(falloc)),
        !r ==> forall|v: u64| virt_page(v) && va@ <= v < va@ + size ==>
            #[trigger] translation(final(mem), pgt@, v) is None
            || translation(final(mem), pgt@, v) == Some(mapped_entry((pa@ + (v - va@)) as u64, perm)),
{
    proof {
        old(falloc).lemma_wf_bounds();
    }
    let va0: u64 = va.as_integer();
    let pa0: u64 = pa.as_integer();
    let mut cur: u64 = va0;
    let mut pa_cur: u64 = pa0;
    // Last address to map
    let last: u64 = va0 + size as u64 - PAGE_SIZE as u64;
    // Start at va, map to last
    while cur <= last
        invariant
            falloc.wf(),
            falloc.initialized(),
            falloc.start() == old(falloc).start(),
            falloc.kernel_end() == old(falloc).kernel_end(),
            uses_grow(old(falloc), falloc),
            pt_wf(mem, falloc, pgt@),
            va0 == va@,
            pa0 == pa@,
            last == va0 + size - 4096,
            va0 <= cur <= last + 4096,
            cur % 4096 == 0,
            pa_cur == pa0 + (cur - va0),
            va@ + size <= 0x1_0000_0000,
            pa@ + size <= u64::MAX,
            forall|v: u64| virt_page(v) && !(va@ <= v < va@ + size) ==>
                #[trigger] translation(mem, pgt@, v) == translation(old(mem), pgt@, v),
            forall|v: u64| virt_page(v) && va@ <= v < cur ==>
                #[trigger] translation(mem, pgt@, v) == Some(mapped_entry((pa@ + (v - va@)) as u64, perm)),
            forall|v: u64| virt_page(v) && cur <= v < va@ + size ==>
                #[trigger] translation(mem, pgt@, v) is None,
        decreases last + 4096 - cur,
    {
        let ghost m0 = *mem;
        let ghost a0 = *falloc;
        proof {
            a0.lemma_wf_bounds();
            lemma_pte_addr_aligned(0u32);
        }
        assert(pgt@ + 4096 <= u64::MAX);
        // Walk the page table until the leaf PTE for the current
        // address is found
        let opt: Option<(PageTable, usize)> = walk(pgt, Addr::new(cur), true, mem, falloc);
        match opt {
            None => {
                return false;
            },
            Some(p) => {
                let (pgt_l, index): (PageTable, usize) = p;
                proof {
                    if !pte_has(l1_entry(&m0, pgt@, cur), PTE_V) {
                        let f = falloc.latest();
                        lemma_install(&m0, mem, &a0, falloc, pgt@, cur, f);
                        assert forall|k: int| 0 <= k < NUM_FRAMES && #[trigger] old(falloc).bits()[k]
                            implies falloc.bits()[k] by {
                            assert(a0.bits()[k]);
                        }
                    }
                    assert(pte_has(l1_entry(mem, pgt@, cur), PTE_V));
                    assert(pgt_l@ == l0_table(mem, pgt@, cur));
                    lemma_pte_addr_aligned(l1_entry(mem, pgt@, cur));
                    lemma_index_bounds(cur);
                    assert(virt_page(cur));
                    assert(translation(mem, pgt@, cur) is None);
                    assert(entry_ok(mem, falloc, pgt@, va_index(1, cur) as int));
                }
                let ghost m1 = *mem;
                // Get the PTE from the page table
                let mut pte: PageTableEntry = pgt_l.read_pte(index, mem);
                assert(pte@ == 0u32);
                // Map the physical address in this PTE
                pte.set_addr(Addr::new(pa_cur));
                // Change permissions
                pte.write_fields(PTE_V | perm);
                proof {
                    let pv = PTE_V | perm;
                    let x = pte_with_addr(0u32, pa_cur);
                    assert(pte_has(x | (pv as u32), PTE_V)) by (bit_vector)
                        requires pv == 1u8 | perm;
                }
                // Write the PTE back to the page table
                pgt_l.write_pte(pte, index, mem);
                proof {
                    lemma_leaf_write(&m1, mem, falloc, pgt@, cur, pte@);
                    assert(pte@ == mapped_entry(pa_cur, perm));
                }
                // Next addresses to map
                cur = cur + PAGE_SIZE as u64;
                pa_cur = pa_cur + PAGE_SIZE as u64;
            },
        }
    }
    true
}

/// A fresh page table: a used frame filled with zeros is a well
/// formed page table that translates nothing.
proof fn lemma_zeroed_table(mem: &PhysMem, falloc: &FrameAllocator, root: u64)
    requires
        falloc.is_frame(root as int),
        falloc.used(root as int),
        root + 4096 <= u64::MAX,
        forall|a: int| root <= a < root + 4096 ==> #[trigger] mem.byte(a) == 0,
    ensures
        pt_wf(mem, falloc, root),
        forall|v: u64| #[trigger] translation(mem, root, v) is None,
{
    assert forall|i: int| 0 <= i < 1024 implies #[trigger] l1_word(mem, root, i) == 0 by {
        let l = pte_location(root, i);
        assert(mem.byte(l) == 0);
        assert(mem.byte(l + 1) == 0);
        assert(mem.byte(l + 2) == 0);
        assert(mem.byte(l + 3) == 0);
        lemma_zero_word(mem, l);
    }
    lemma_zero_pte();
    assert forall|i: int| 0 <= i < 1024 implies #[trigger] entry_ok(mem, falloc, root, i) by {
        assert(l1_word(mem, root, i) == 0);
    }
    assert forall|v: u64| #[trigger] translation(mem, root, v) is None by {
        lemma_index_bounds(v);
        assert(l1_word(mem, root, va_index(1, v) as int) == 0);
    }
}

/// The kernel's address space: the UART, the PLIC, the kernel's text
/// (read and execute), the rest of the RAM (read and write) and the
/// user trap vector, in this order. `skernel`, `etext` and `uvec` are
/// the addresses of the kernel's start, the end of its text and the
/// user trap vector.
pub open spec fn kernel_regions(skernel: u64, etext: u64, uvec: u64) -> Seq<(u64, u64, usize, u8)> {
    seq![
        (UART0 as u64, UART0 as u64, PAGE_SIZE, PTE_R | PTE_W),
        (PLIC as u64, PLIC as u64, 0x400_0000usize, PTE_R | PTE_W),
        (skernel, skernel, (etext - skernel) as usize, PTE_R | PTE_X),
        (etext, etext, (skernel + RAM_SIZE - etext) as usize, PTE_R | PTE_W),
        (USERVEC as u64, uvec, PAGE_SIZE, PTE_R | PTE_X),
    ]
}

/// The page table at `root` maps region `k` of the kernel's address
/// space.
pub open spec fn maps_region(mem: &PhysMem, root: u64, skernel: u64, etext: u64, uvec: u64, k: int) -> bool {
    let (va, pa, size, perm) = kernel_regions(skernel, etext, uvec)[k];
    forall|v: u64| virt_page(v) && va <= v < va + size ==>
        #[trigger] translation(mem, root, v) == Some(mapped_entry((pa + (v - va)) as u64, perm))
}

/// Map region `k` of the kernel's address space, keeping the
/// translations outside it.
fn map_region(
    pgt: PageTable,
    skernel: u64,
    etext: u64,
    uvec: u64,
    k: usize,
    mem: &mut PhysMem,
    falloc: &mut FrameAllocator,
) -> (r: bool)
    requires
        k < 5,
        0x1000_1000 <= skernel,
        skernel % 4096 == 0,
        etext % 4096 == 0,
        uvec % 4096 == 0,
        uvec + 4096 <= u64::MAX,
        skernel < etext < skernel + RAM_SIZE,
        skernel + RAM_SIZE <= USERVEC,
        old(falloc).wf(),
        old(falloc).initialized(),
        pt_wf(old(mem), old(falloc), pgt@),
        ({
            let (va, pa, size, perm) = kernel_regions(skernel, etext, uvec)[k as int];
            forall|v: u64| virt_page(v) && va <= v < va + size ==> #[trigger] translation(old(mem), pgt@, v) is None
        }),
    ensures
        final(falloc).wf(),
        final(falloc).initialized(),
        final(falloc).start() == old(falloc).start(),
        final(falloc).kernel_end() == old(falloc).kernel_end(),
        pt_wf(final(mem), final(falloc), pgt@),
        ({
            let (va, pa, size, perm) = kernel_regions(skernel, etext, uvec)[k as int];
            forall|v: u64| virt_page(v) && !(va <= v < va + size) ==>
                #[trigger] translation(final(mem), pgt@, v) == translation(old(mem), pgt@, v)
        }),
        r ==> maps_region(final(mem), pgt@, skernel, etext, uvec, k as int),
        !r ==> exhausted(final(falloc)),
{
    let ghost reg = kernel_regions(skernel, etext, uvec)[k as int];
    let (va, pa, size, perm): (u64, u64, usize, u8) = if k == 0 {
        (UART0 as u64, UART0 as u64, PAGE_SIZE, PTE_R | PTE_W)
    } else if k == 1 {
        (PLIC as u64, PLIC as u64, 0x400_0000usize, PTE_R | PTE_W)
    } else if k == 2 {
        (skernel, skernel, (etext - skernel) as usize, PTE_R | PTE_X)
    } else if k == 3 {
        (etext, etext, (skernel + RAM_SIZE as u64 - etext) as usize, PTE_R | PTE_W)
    } else {
        (USERVEC as u64, uvec, PAGE_SIZE, PTE_R | PTE_X)
    };
    proof {
        assert((va, pa, size, perm) == reg);
        assert(size % PAGE_SIZE == 0);
    }
    map(pgt, Addr::new(va), Addr::new(pa), size, perm, mem, falloc)
}

/// Build the kernel's virtual memory layout by creating the kernel
/// pagetable. `skernel`, `etext` and `uvec` are the addresses of the
/// kernel's start, the end of its text and the user trap vector.
/// # Return
/// The page table, or `None` when the frames ran out before every
/// region was mapped.
pub fn init_virtual_memory(
    skernel: u64,
    etext: u64,
    uvec: u64,
    mem: &mut PhysMem,
    falloc: &mut FrameAllocator,
) -> (r: Option<PageTable>)
    requires
        0x1000_1000 <= skernel,
        skernel % 4096 == 0,
        etext % 4096 == 0,
        uvec % 4096 == 0,
        uvec + 4096 <= u64::MAX,
        skernel < etext < skernel + RAM_SIZE,
        skernel + RAM_SIZE <= USERVEC,
        old(falloc).wf(),
        old(falloc).initialized(),
    ensures
        final(falloc).wf(),
        final(falloc).initialized(),
        final(falloc).start() == old(falloc).start(),
        final(falloc).kernel_end() == old(falloc).kernel_end(),
        match r {
            Some(pgt) => {
                &&& pt_wf(final(mem), final(falloc), pgt@)
                &&& forall|k: int| 0 <= k < 5 ==> #[trigger] maps_region(final(mem), pgt@, skernel, etext, uvec, k)
            },
            None => exhausted(final(falloc)),
        },
{
    // Allocate a frame for the root
    let frame: Addr = match kmalloc(falloc) {
        Some(a) => a,
        None => {
            return None;
        },
    };
    proof {
        assert(allocated(old(falloc), falloc, frame@));
        old(falloc).lemma_wf_bounds();
        old(falloc).lemma_frame_index(frame@ as int, frame@ as int);
        assert(falloc.used(frame@ as int));
    }
    // Create the page table in the frame
    let pgt: PageTable = PageTable::new(frame);
    // Set all bytes of the page to 0 to clear it
    pgt.pageset(0, mem);
    proof {
        lemma_zeroed_table(mem, falloc, pgt@);
    }
    let ghost regions = kernel_regions(skernel, etext, uvec);
    let mut k: usize = 0;
    while k < 5
        invariant
            k <= 5,
            regions == kernel_regions(skernel, etext, uvec),
            0x1000_1000 <= skernel,
            skernel % 4096 == 0,
            etext % 4096 == 0,
            uvec % 4096 == 0,
            uvec + 4096 <= u64::MAX,
            skernel < etext < skernel + RAM_SIZE,
            skernel + RAM_SIZE <= USERVEC,
            falloc.wf(),
            falloc.initialized(),
            falloc.start() == old(falloc).start(),
            falloc.kernel_end() == old(falloc).kernel_end(),
            pt_wf(mem, falloc, pgt@),
            forall|j: int| 0 <= j < k ==> #[trigger] maps_region(mem, pgt@, skernel, etext, uvec, j),
            forall|j: int, v: u64| k <= j < 5 && virt_page(v) && regions[j].0 <= v < regions[j].0 + regions[j].2
                ==> #[trigger] translation(mem, pgt@, v) is None && #[trigger] regions[j] == regions[j],
        decreases 5 - k,
    {
        let ghost m0 = *mem;
        if !map_region(pgt, skernel, etext, uvec, k, mem, falloc) {
            return None;
        }
        proof {
            let (va, pa, size, perm) = regions[k as int];
            assert forall|j: int| 0 <= j < k + 1 implies #[trigger] maps_region(mem, pgt@, skernel, etext, uvec, j) by {
                if j < k {
                    let (vj, pj, sj, qj) = regions[j];
                    assert forall|v: u64| virt_page(v) && vj <= v < vj + sj implies
                        #[trigger] translation(mem, pgt@, v) == Some(mapped_entry((pj + (v - vj)) as u64, qj)) by {
                        assert(maps_region(&m0, pgt@, skernel, etext, uvec, j));
                        assert(translation(&m0, pgt@, v) == Some(mapped_entry((pj + (v - vj)) as u64, qj)));
                        assert(!(va <= v < va + size));
                    }
                }
            }
            assert forall|j: int, v: u64| k + 1 <= j < 5 && virt_page(v) && regions[j].0 <= v < regions[j].0 + regions[j].2
                implies #[trigger] translation(mem, pgt@, v) is None && #[trigger] regions[j] == regions[j] by {
                assert(translation(&m0, pgt@, v) is None);
                assert(!(va <= v < va + size));
            }
        }
        k = k + 1;
    }
    Some(pgt)
}

/// The kernel's page table, once every region is mapped, maps with
/// their permissions: the UART and the PLIC read and write, the kernel
/// text read and execute, the rest of the RAM read and write, each at
/// its own address, and the user trap vector page at `USERVEC` to
/// `uvec`, read and execute.
pub proof fn lemma_kernel_map_permissions(mem: &PhysMem, root: u64, skernel: u64, etext: u64, uvec: u64)
    requires
        forall|k: int| 0 <= k < 5 ==> #[trigger] maps_region(mem, root, skernel, etext, uvec, k),
        skernel < etext < skernel + RAM_SIZE,
    ensures
        translation(mem, root, 0x1000_0000) == Some(mapped_entry(0x1000_0000, PTE_R | PTE_W)),
        forall|v: u64| virt_page(v) && 0x0c00_0000 <= v < 0x1000_0000 ==>
            #[trigger] translation(mem, root, v) == Some(mapped_entry(v, PTE_R | PTE_W)),
        forall|v: u64| virt_page(v) && skernel <= v < etext ==>
            #[trigger] translation(mem, root, v) == Some(mapped_entry(v, PTE_R | PTE_X)),
        forall|v: u64| virt_page(v) && etext <= v < skernel + RAM_SIZE ==>
            #[trigger] translation(mem, root, v) == Some(mapped_entry(v, PTE_R | PTE_W)),
        translation(mem, root, USERVEC as u64) == Some(mapped_entry(uvec, PTE_R | PTE_X)),
{
    assert(maps_region(mem, root, skernel, etext, uvec, 0));
    assert(maps_region(mem, root, skernel, etext, uvec, 1));
    assert(maps_region(mem, root, skernel, etext, uvec, 2));
    assert(maps_region(mem, root, skernel, etext, uvec, 3));
    assert(maps_region(mem, root, skernel, etext, uvec, 4));
    assert(virt_page(0x1000_0000));
    assert(USERVEC == 0xFFFF_E000);
    assert(virt_page(USERVEC as u64));
    let v: u64 = USERVEC as u64;
    assert(translation(mem, root, v) == Some(mapped_entry((uvec + (v - USERVEC as u64)) as u64, PTE_R | PTE_X)));
    assert((uvec + (v - USERVEC as u64)) as u64 == uvec);
}

/// Allocate a kernel stack for the process and configure its PCB.
/// No guard page is prepared for the kernel stack, so a stack overflow
/// may go unnoticed.
/// # Arguments
/// - `proc`: process that will receive the kstack
/// # Return
/// `true` if the alloc was successful, `false` otherwise
pub fn create_kstack(proc: &mut Pcb, falloc: &mut FrameAllocator) -> (r: bool)
    requires
        old(falloc).wf(),
        old(falloc).initialized(),
        old(proc).kstack_opt() is None,
    ensures
        final(falloc).wf(),
        final(falloc).initialized(),
        final(falloc).start() == old(falloc).start(),
        final(falloc).kernel_end() == old(falloc).kernel_end(),
        r == !exhausted(old(falloc)),
        r ==> exists|a: u64| {
            &&& #[trigger] allocated(old(falloc), final(falloc), a)
            &&& final(proc).kstack_opt() == Some(a)
        },
        r ==> final(proc).trapframe == old(proc).trapframe && final(proc).pagetable == old(proc).pagetable
            && final(proc).same_public(old(proc)),
        !r ==> *final(proc) == *old(proc) && *final(falloc) == *old(falloc),
{
    // Allocate a kstack
    let kstack: Option<Addr> = kmalloc(falloc);
    match kstack {
        None => false,
        Some(a) => {
            proc.init_kstack(a);
            proof {
                assert(allocated(old(falloc), falloc, a@));
            }
            true
        },
    }
}

/// Free a process' memory image. That is, mark all pages that hold
/// segments in memory, and the page tables, as free.
/// # Arguments
/// - `pgt`: pagetable that maps the image
pub fn free_proc_image(pgt: PageTable, mem: &PhysMem, falloc: &mut FrameAllocator)
    requires
        old(falloc).wf(),
        pgt@ + 4096 <= u64::MAX,
        space_frames(mem, pgt@).no_duplicates(),
        forall|k: int| 0 <= k < space_frames(mem, pgt@).len() ==> {
            let x = #[trigger] space_frames(mem, pgt@)[k] as int;
            old(falloc).is_frame(x) && old(falloc).used(x)
        },
    ensures
        final(falloc).wf(),
        final(falloc).start() == old(falloc).start(),
        final(falloc).kernel_end() == old(falloc).kernel_end(),
        final(falloc).latest() == old(falloc).latest(),
        final(falloc).bits() == clear_frames(old(falloc).bits(), old(falloc).start(), space_frames(mem, pgt@)),
{
    free_addr_space(pgt, mem, falloc);
}

/// The copy `new_root` of the address space `root` in `m0`, made in
/// `m1` with frames that `a1` took from the free frames of `a0`.
pub open spec fn image_copied(
    m0: &PhysMem,
    m1: &PhysMem,
    a0: &FrameAllocator,
    a1: &FrameAllocator,
    root: u64,
    new_root: u64,
) -> bool {
    &&& exists|tabs: Map<int, u64>, pages: Map<(int, int), u64>|
        #[trigger] space_copied(m0, m1, root, new_root, tabs, pages) && copy_fresh(a0, a1, new_root, tabs, pages)
    &&& taken(a0, a1, new_root)
}

/// Setting the address of a PTE keeps its flags.
proof fn lemma_set_addr_keeps_flags(e: u32, a: u64, f: u8)
    ensures
        pte_has(pte_with_addr(e, a), f) == pte_has(e, f),
{
    assert(((e & 0x3FFu32) | (((a >> 12u64) << 10u64) as u32)) & (f as u32) == e & (f as u32)) by (bit_vector);
}

/// A user page of an address space is, in its copy, a user page on
/// the new page, which holds the bytes of the old one.
pub proof fn lemma_copy_keeps_user_pages(
    m0: &PhysMem,
    m1: &PhysMem,
    root: u64,
    new_root: u64,
    tabs: Map<int, u64>,
    pages: Map<(int, int), u64>,
    va: u64,
)
    requires
        space_copied(m0, m1, root, new_root, tabs, pages),
        user_page(m0, root, va) is Some,
        root + 4096 <= u64::MAX,
        new_root + 4096 <= u64::MAX,
    ensures
        user_page(m1, new_root, va) == Some(pages[(va_index(1, va) as int, va_index(0, va) as int)]),
        forall|k: int| 0 <= k < 4096 ==> #[trigger] m1.byte(pages[(va_index(1, va) as int, va_index(0, va) as int)] + k)
            == m0.byte(user_page(m0, root, va)->0 + k),
{
    lemma_index_bounds(va);
    let i = va_index(1, va) as int;
    let j = va_index(0, va) as int;
    let e = l1_entry(m0, root, va);
    let l = leaf_entry(m0, root, va);
    lemma_zero_pte();
    assert(l1_copied(m0, m1, root, new_root, tabs, pages, i));
    assert(e != 0);
    let t = pte_addr_of(e);
    assert(leaf_copied(m0, m1, t, tabs[i], pages, i, j));
    assert(l != 0);
    lemma_set_addr_keeps_flags(e, tabs[i], PTE_V);
    lemma_set_addr_keeps_flags(l, pages[(i, j)], PTE_V);
    lemma_set_addr_keeps_flags(l, pages[(i, j)], PTE_U);
    assert(l1_entry(m1, new_root, va) == pte_with_addr(e, tabs[i]));
    assert(leaf_entry(m1, new_root, va) == pte_with_addr(l, pages[(i, j)]));
}

/// Copy a process' memory image. That is, copy all segments in
/// memory and put in another location: the address space of `src`
/// is copied with new frames, and its trapframe page in the copy
/// becomes the trapframe of `dst`.
/// # Arguments
/// - `dst`: destination process
/// - `src`: source process
/// # Return
/// `true` if the copy was successful, `false` otherwise
pub fn copy_proc_image(dst: &mut Pcb, src: &Pcb, mem: &mut PhysMem, falloc: &mut FrameAllocator) -> (r: bool)
    requires
        src.pagetable_opt() is Some,
        old(dst).trapframe_opt() is None,
        old(dst).pagetable_opt() is None,
        old(falloc).wf(),
        old(falloc).initialized(),
        src.pagetable_opt()->0 + 4096 <= u64::MAX,
        forall|k: int| 0 <= k < space_frames(old(mem), src.pagetable_opt()->0).len() ==> {
            let x = #[trigger] space_frames(old(mem), src.pagetable_opt()->0)[k] as int;
            old(falloc).is_frame(x) && old(falloc).used(x)
        },
        old(falloc).start() > 0,
    ensures
        final(falloc).wf(),
        final(falloc).initialized(),
        final(falloc).start() == old(falloc).start(),
        final(falloc).kernel_end() == old(falloc).kernel_end(),
        ({
            let root = src.pagetable_opt()->0;
            let copied = free_count(old(falloc)) >= space_frames(old(mem), root).len() && has_leaf(old(mem), root);
            &&& r == (copied && pte_has(l1_entry(old(mem), root, TRAPFRAME as u64), PTE_V))
            &&& r ==> {
                &&& free_count(final(falloc)) + space_frames(old(mem), root).len() == free_count(old(falloc))
                &&& forall|b: int| free_frames(final(falloc)).contains(b) ==> free_frames(old(falloc)).contains(b)
                &&& exists|nr: u64| #[trigger] image_copied(old(mem), final(mem), old(falloc), final(falloc), root, nr)
                    && final(dst).pagetable_opt() == Some(nr)
                    && final(dst).trapframe_opt() == Some(pte_addr_of(leaf_entry(final(mem), nr, TRAPFRAME as u64)))
            }
            &&& !r ==> free_frames(final(falloc)) == free_frames(old(falloc))
            &&& forall|a: int| 0 <= a < 0x1_0000_0000_0000_0000 && #[trigger] final(mem).byte(a) != old(mem).byte(a) ==>
                exists|x: u64| free_frames(old(falloc)).contains(x as int)
                    && (r ==> !free_frames(final(falloc)).contains(x as int)) && in_frame(x, a)
        }),
        r ==> final(dst).kstack == old(dst).kstack && final(dst).same_public(old(dst)),
        !r ==> *final(dst) == *old(dst),
{
    let ghost m0 = *mem;
    let ghost root = src.pagetable_opt()->0;
    // Copy all the contents mapping the same virtual addresses to
    // different physical ones
    let dst_pgt: Option<PageTable> = copy_addr_space(src.pagetable(), mem, falloc);
    let new_pgt: PageTable = match dst_pgt {
        Some(p) => p,
        None => {
            let ghost f1 = *falloc;
            proof {
                assert(dst.memory_frames(mem) =~= Seq::<u64>::empty());
            }
            dst.free_memory(mem, falloc);
            proof {
                assert(falloc.bits() == f1.bits());
                assert(free_frames(falloc) =~= free_frames(&f1));
            }
            return false;
        },
    };
    let ghost m1 = *mem;
    let ghost nr = new_pgt@;
    proof {
        old(falloc).lemma_wf_bounds();
        assert(image_copied(&m0, mem, old(falloc), falloc, root, nr));
        let v = TRAPFRAME as u64;
        lemma_index_bounds(v);
        let i = va_index(1, v) as int;
        let (tabs, pages) = choose|tabs: Map<int, u64>, pages: Map<(int, int), u64>|
            #[trigger] space_copied(&m0, mem, root, nr, tabs, pages);
        assert(l1_copied(&m0, mem, root, nr, tabs, pages, i));
        let e = l1_entry(&m0, root, TRAPFRAME as u64);
        assert(e & 1u32 != 0 ==> e != 0u32) by (bit_vector);
        if e != 0 {
            lemma_set_addr_keeps_flags(e, tabs[i], PTE_V);
            assert(l1_entry(mem, nr, v) == pte_with_addr(e, tabs[i]));
        }
        lemma_zero_pte();
        assert(pte_has(e, PTE_V) == pte_has(l1_entry(mem, nr, v), PTE_V));
    }
    // Get the leaf pgt and index for TRAPFRAME
    let pte_opt: Option<(PageTable, usize)> = walk(new_pgt, Addr::new(TRAPFRAME as u64), false, mem, falloc);
    let (pgt0, i): (PageTable, usize) = match pte_opt {
        Some(p) => p,
        None => {
            let ghost f1 = *falloc;
            proof {
                assert(dst.memory_frames(mem) =~= Seq::<u64>::empty());
            }
            dst.free_memory(mem, falloc);
            let ghost fs: Set<u64> = Set::new(|x: u64| taken(old(falloc), &f1, x));
            proof {
                assert(falloc.bits() == f1.bits());
                assert(free_frames(falloc) =~= free_frames(&f1));
                old(falloc).lemma_wf_bounds();
                assert forall|x: u64| #[trigger] space_frames(mem, nr).contains(x) <==> fs.contains(x) by {
                    assert(space_frames(mem, nr).contains(x) <==> taken(old(falloc), &f1, x));
                }
                assert forall|b: int| #[trigger] free_frames(falloc).contains(b) == (free_frames(old(falloc)).contains(b)
                    && !fs.contains(b as u64)) by {
                    if free_frames(old(falloc)).contains(b) {
                        assert(0 <= b < 0x4_0000_0000);
                        assert((b as u64) as int == b);
                    }
                    if free_frames(falloc).contains(b) {
                        assert(free_frames(old(falloc)).contains(b));
                        assert(0 <= b < 0x4_0000_0000);
                        assert((b as u64) as int == b);
                    }
                }
            }
            // Free the copy
            free_partial_copy(new_pgt, mem, falloc, Ghost(*old(falloc)), Ghost(fs));
            return false;
        },
    };
    proof {
        let e = l1_entry(mem, nr, TRAPFRAME as u64);
        lemma_pte_addr_aligned(e);
        lemma_index_bounds(TRAPFRAME as u64);
    }
    // Update dst's PCB
    dst.init_trapframe(pgt0.read_pte(i, mem).get_addr());
    dst.init_pagetable(new_pgt);
    true
}

/// A page that `map` mapped to the frame `pa` is, for `walkaddr`, a
/// user page on that frame when the permissions hold the user bit,
/// and no user page otherwise.
pub proof fn lemma_mapped_user_page(mem: &PhysMem, root: u64, v: u64, pa: u64, perm: u8)
    requires
        translation(mem, root, v) == Some(mapped_entry(pa, perm)),
        pa % 4096 == 0,
        pa < 0x4_0000_0000,
        v <= MAX_VIRT_ADDR,
    ensures
        perm & PTE_U != 0 ==> user_page(mem, root, v) == Some(pa),
        perm & PTE_U == 0 ==> user_page(mem, root, v) is None,
{
    assert(pa % 4096 == 0 ==> pa & 0xFFFu64 == 0) by (bit_vector);
    assert(pa < 0x4_0000_0000u64 && pa & 0xFFFu64 == 0 ==>
        ((((((0u32 & 0x3FFu32) | (((pa >> 12u64) << 10u64) as u32)) | ((1u8 | perm) as u32)) as u64) >> 10u64)
            << 12u64) == pa) by (bit_vector);
    assert((((0u32 & 0x3FFu32) | (((pa >> 12u64) << 10u64) as u32)) | ((1u8 | perm) as u32)) & (16u8 as u32) != 0
        <==> perm & 16u8 != 0) by (bit_vector);
}

} // verus!
