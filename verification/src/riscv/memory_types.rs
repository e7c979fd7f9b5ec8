//! Type definitions for memory management on the Sv32
//! virtual memory scheme (section 12.3.1 of the RISC-V
//! privileged specification).
//!
//! Physical addresses in Sv32 are 34 bits and virtual ones are
//! 32 bits, so a `u64` holds both. A page table entry is a
//! 32-bit machine word.

use vstd::prelude::*;
use crate::config::constants::PAGE_SIZE;
use crate::memory::phys_mem::{PhysMem, word_byte};
use crate::memory::frame_alloc::{
    FrameAllocator, kmalloc, kfree, allocated, exhausted, clear_frames, lemma_clear_frames_keeps, free_frames,
    free_count, lemma_free_not_exhausted, lemma_alloc_count, lemma_alloc_keeps_used, lemma_free_taken,
};

verus! {

/********************|TYPES AND CONSTANTS|**********************/

/// Highest page-aligned virtual address of the 32-bit Sv32 space.
pub const MAX_VIRT_ADDR: usize = 0xFFFF_F000;

/// Number of PTEs in a page table page.
pub const NUM_PTE: usize = 1024;

/// Wrapper for an u64 that represents a memory address.
#[derive(Clone, Copy, PartialEq, Eq, Structural)]
pub struct Addr(u64);

impl View for Addr {
    type V = u64;

    closed spec fn view(&self) -> u64 {
        self.0
    }
}

impl Addr {
    /// Create an address
    pub fn new(addr: u64) -> (r: Self)
        ensures
            r@ == addr,
    {
        Addr(addr)
    }

    /// Get the address as an u64
    pub fn as_integer(&self) -> (r: u64)
        ensures
            r == self@,
    {
        self.0
    }
}

/// Valid PTE field
pub const PTE_V: u8 = 1;
/// Read PTE field
pub const PTE_R: u8 = 2;
/// Write PTE field
pub const PTE_W: u8 = 4;
/// Execute PTE field
pub const PTE_X: u8 = 8;
/// User PTE field
pub const PTE_U: u8 = 16;
/// PTE size (bytes)
pub const PTE_SIZE: usize = 4;

/// Result of storing the physical address `addr` in the PTE bits
/// `bits`: the flag bits (0 to 9) are kept and the address field,
/// from bit 10 upwards, becomes the page number of `addr`.
pub open spec fn pte_with_addr(bits: u32, addr: u64) -> u32 {
    (bits & 0x3FFu32) | (((addr >> 12u64) << 10u64) as u32)
}

/// Physical address held by the PTE bits `bits`.
pub open spec fn pte_addr_of(bits: u32) -> u64 {
    ((bits as u64) >> 10u64) << 12u64
}

/// The address in a PTE is page aligned and lies in the Sv32
/// physical address space (34 bits).
pub proof fn lemma_pte_addr_aligned(e: u32)
    ensures
        pte_addr_of(e) % 4096 == 0,
        pte_addr_of(e) < 0x4_0000_0000,
{
    assert((((e as u64) >> 10u64) << 12u64) % 4096 == 0) by (bit_vector);
    assert((((e as u64) >> 10u64) << 12u64) < 0x4_0000_0000u64) by (bit_vector);
}

/// The zero PTE is not valid and holds address 0.
pub proof fn lemma_zero_pte()
    ensures
        !pte_has(0u32, PTE_V),
        pte_addr_of(0u32) == 0,
{
    assert(0u32 & (PTE_V as u32) == 0u32 && (((0u32 as u64) >> 10u64) << 12u64) == 0u64) by (bit_vector);
}

/// Whether any of the `field` bits is set in the PTE bits `bits`.
pub open spec fn pte_has(bits: u32, field: u8) -> bool {
    bits & (field as u32) != 0
}

/// Wrapper for a 32-bit word that represents a PTE.
#[derive(Clone, Copy, PartialEq, Eq, Structural)]
pub struct PageTableEntry(u32);

impl View for PageTableEntry {
    type V = u32;

    closed spec fn view(&self) -> u32 {
        self.0
    }
}

impl PageTableEntry {
    /// Create a pte
    pub fn new(pte: u32) -> (r: Self)
        ensures
            r@ == pte,
    {
        PageTableEntry(pte)
    }

    /// Set the physical address in the PTE
    pub fn set_addr(&mut self, addr: Addr)
        ensures
            final(self)@ == pte_with_addr(old(self)@, addr@),
    {
        // Clear address field, keeping the flags
        self.0 = self.0 & 0x3FFu32;
        // Save address
        self.0 = self.0 | (((addr.as_integer() >> 12u64) << 10u64) as u32);
    }

    /// Get the physical address from the PTE
    pub fn get_addr(&self) -> (r: Addr)
        ensures
            r@ == pte_addr_of(self@),
    {
        Addr::new(((self.0 as u64) >> 10u64) << 12u64)
    }

    /// Check if a PTE field (UXWRV) is set
    pub fn check_fields(&self, field: u8) -> (r: bool)
        ensures
            r == pte_has(self@, field),
    {
        if self.0 & field as u32 != 0 {
            return true;
        }
        false
    }

    /// Get PTE fields
    pub fn read_fields(&self) -> (r: u8)
        ensures
            r == self@ as u8,
    {
        self.0 as u8
    }

    /// Set PTE fields
    pub fn write_fields(&mut self, fields: u8)
        ensures
            final(self)@ == old(self)@ | (fields as u32),
    {
        self.0 = self.0 | fields as u32;
    }
}

/// Wrapper for an Addr that represents a page table.
#[derive(Clone, Copy, PartialEq, Eq, Structural)]
pub struct PageTable(Addr);

impl View for PageTable {
    type V = u64;

    closed spec fn view(&self) -> u64 {
        self.0@
    }
}

/// Address of the PTE with index `index` in the page table at `table`.
pub open spec fn pte_location(table: u64, index: int) -> int {
    table + index * (PTE_SIZE as int)
}

impl PageTable {
    /// Create a page table
    pub fn new(addr: Addr) -> (r: Self)
        ensures
            r@ == addr@,
    {
        PageTable(addr)
    }

    /// Get a copy of the page table's address
    pub fn as_addr(&self) -> (r: Addr)
        ensures
            r@ == self@,
    {
        self.0
    }

    /// Get the address as an u64
    pub fn as_integer(&self) -> (r: u64)
        ensures
            r == self@,
    {
        self.0.as_integer()
    }

    /// Read the PTE in the specified `index`
    pub fn read_pte(&self, index: usize, mem: &PhysMem) -> (r: PageTableEntry)
        requires
            index <= 1023,
            self@ + 4096 <= u64::MAX,
        ensures
            r@ == mem.word(pte_location(self@, index as int)),
    {
        let addr: u64 = self.0.as_integer() + (index * PTE_SIZE) as u64;
        PageTableEntry::new(mem.read_u32(addr))
    }

    /// Write to the PTE in the specified `index`
    pub fn write_pte(&self, pte: PageTableEntry, index: usize, mem: &mut PhysMem)
        requires
            index <= 1023,
            self@ + 4096 <= u64::MAX,
        ensures
            final(mem).word(pte_location(self@, index as int)) == pte@,
            forall|k: int| 0 <= k < 4 ==> #[trigger] final(mem).byte(pte_location(self@, index as int) + k)
                == word_byte(pte@, k),
            final(mem).same_outside(old(mem), pte_location(self@, index as int),
                pte_location(self@, index as int) + 4),
    {
        let addr: u64 = self.0.as_integer() + (index * PTE_SIZE) as u64;
        mem.write_u32(addr, pte.0);
    }

    /// Get the PTE address in the specified `index`
    pub fn pte_addr(&self, index: usize) -> (r: Addr)
        requires
            index <= 1023,
            self@ + 4096 <= u64::MAX,
        ensures
            r@ == pte_location(self@, index as int),
    {
        Addr::new(self.0.as_integer() + (index * PTE_SIZE) as u64)
    }

    /// Set every byte of the page table to `value`
    pub fn pageset(&self, value: u8, mem: &mut PhysMem)
        requires
            self@ + 4096 <= u64::MAX,
        ensures
            forall|a: int| self@ <= a < self@ + 4096 ==> #[trigger] final(mem).byte(a) == value,
            final(mem).same_outside(old(mem), self@ as int, self@ + 4096),
    {
        mem.memset(self.0.as_integer(), value, PAGE_SIZE);
    }
}

/********************|AUXILIARY FUNCTONS|***********************/

/// Index of the page table entry for `va` in the page table of
/// the given level (10 bits of the virtual page number).
pub open spec fn va_index(level: int, va: u64) -> u64 {
    (va >> ((12 + 10 * level) as u64)) & 0x3FFu64
}

/// Get PTE index from `va` in the level
/// # Arguments
/// - `level`: page table level
/// - `va`: virtual address
/// # Return
/// The PTE's index in the page table
pub fn find_index(level: usize, va: Addr) -> (r: usize)
    requires
        level <= 5,
    ensures
        r as u64 == va_index(level as int, va@),
        r < 1024,
{
    // Remove the offset
    let mut aux: u64 = va.as_integer() >> 12u64;
    let shift: u64 = (level * 10) as u64;
    // Put the index for this level in the first 10 bits
    aux = aux >> shift;
    // Get the 10 first bits, zero out the rest
    aux = aux & 0x3FFu64;
    proof {
        let v = va@;
        assert(((v >> 12u64) >> shift) & 0x3FFu64 == (v >> ((12 + shift) as u64)) & 0x3FFu64
            && ((v >> 12u64) >> shift) & 0x3FFu64 < 1024) by (bit_vector)
            requires shift <= 50;
    }
    aux as usize
}

/// Location of the level 1 PTE for `va` in the page table `root`.
pub open spec fn l1_location(root: u64, va: u64) -> int {
    pte_location(root, va_index(1, va) as int)
}

/// The level 1 PTE for `va` in the page table `root`.
pub open spec fn l1_entry(mem: &PhysMem, root: u64, va: u64) -> u32 {
    mem.word(l1_location(root, va))
}

/// The level 0 (leaf) page table that the level 1 PTE for `va`
/// points to.
pub open spec fn l0_table(mem: &PhysMem, root: u64, va: u64) -> u64 {
    pte_addr_of(l1_entry(mem, root, va))
}

/// Location of the leaf PTE for `va`.
pub open spec fn leaf_location(mem: &PhysMem, root: u64, va: u64) -> int {
    pte_location(l0_table(mem, root, va), va_index(0, va) as int)
}

/// The leaf PTE for `va`.
pub open spec fn leaf_entry(mem: &PhysMem, root: u64, va: u64) -> u32 {
    mem.word(leaf_location(mem, root, va))
}

/// The leaf PTE that translates `va`, if both levels are valid.
pub open spec fn translation(mem: &PhysMem, root: u64, va: u64) -> Option<u32> {
    if pte_has(l1_entry(mem, root, va), PTE_V) && pte_has(leaf_entry(mem, root, va), PTE_V) {
        Some(leaf_entry(mem, root, va))
    } else {
        None
    }
}

/// Whether `new` is `old` after the level 1 PTE at `loc` got the
/// value `entry` and the page at `table` was cleared.
pub open spec fn table_installed(old: &PhysMem, new: &PhysMem, loc: int, entry: u32, table: u64) -> bool {
    forall|a: int| 0 <= a < 0x1_0000_0000_0000_0000 ==> #[trigger] new.byte(a) == if table <= a < table + 4096 {
        0u8
    } else if loc <= a < loc + 4 {
        word_byte(entry, a - loc)
    } else {
        old.byte(a)
    }
}

/// Walk all the levels of the page table until the leaf
/// PTE for virtual address `va` is found.
/// # Arguments
/// - `pgt`: page table to search
/// - `va`: virtual address
/// - `alloc`: allocate new page if PTE is not valid
/// # Return
/// The page table and index for the PTE
pub fn walk(
    pgt: PageTable,
    va: Addr,
    alloc: bool,
    mem: &mut PhysMem,
    falloc: &mut FrameAllocator,
) -> (r: Option<(PageTable, usize)>)
    requires
        pgt@ + 4096 <= u64::MAX,
        old(falloc).wf(),
        alloc ==> old(falloc).initialized(),
    ensures
        ({
            let e = l1_entry(old(mem), pgt@, va@);
            let idx = va_index(0, va@);
            if pte_has(e, PTE_V) {
                &&& r matches Some(p) && p.0@ == pte_addr_of(e) && p.1 == idx
                &&& *final(mem) == *old(mem)
                &&& *final(falloc) == *old(falloc)
            } else if !alloc || exhausted(old(falloc)) {
                &&& r is None
                &&& *final(mem) == *old(mem)
                &&& *final(falloc) == *old(falloc)
            } else {
                let f = final(falloc).latest();
                let ne = pte_with_addr(e, f) | (PTE_V as u32);
                &&& allocated(old(falloc), final(falloc), f)
                &&& r matches Some(p) && p.0@ == pte_addr_of(ne) && p.1 == idx
                &&& table_installed(old(mem), final(mem), l1_location(pgt@, va@), ne, pte_addr_of(ne))
            }
        }),
        final(falloc).wf(),
        old(falloc).initialized() ==> final(falloc).initialized(),
{
    // Index of the PTE in level 1 for va
    let mut index: usize = find_index(1, va);
    // Read the PTE in this index
    let mut pte: PageTableEntry = pgt.read_pte(index, mem);
    let next: PageTable;
    // Check if PTE is valid
    if pte.check_fields(PTE_V) {
        // Next level page if it valid
        next = PageTable::new(pte.get_addr());
    } else if alloc {
        // Allocate a frame for the next level page if it is not valid
        let frame: Option<Addr> = kmalloc(falloc);
        // Check if kmalloc was successful
        match frame {
            None => {
                return None;
            },
            Some(f) => {
                let ghost mem0 = *mem;
                // Create the PTE that stores the address for the
                // leaf page table
                pte.set_addr(f);
                pte.write_fields(PTE_V);
                // Write the update the PTE in the page table
                pgt.write_pte(pte, index, mem);
                let ghost mem1 = *mem;
                // Next level page table (leaf page table)
                next = PageTable::new(pte.get_addr());
                proof {
                    let e = pte@;
                    lemma_pte_addr_aligned(e);
                }
                // Clear the page
                next.pageset(0, mem);
                proof {
                    let loc = l1_location(pgt@, va@);
                    let t = next@;
                    assert forall|a: int| 0 <= a < 0x1_0000_0000_0000_0000 implies #[trigger] mem.byte(a)
                        == if t <= a < t + 4096 {
                        0u8
                    } else if loc <= a < loc + 4 {
                        word_byte(pte@, a - loc)
                    } else {
                        mem0.byte(a)
                    } by {
                        if !(t <= a < t + 4096) {
                            assert(mem.byte(a) == mem1.byte(a));
                            if loc <= a < loc + 4 {
                                assert(mem1.byte(loc + (a - loc)) == word_byte(pte@, a - loc));
                            } else {
                                assert(mem1.byte(a) == mem0.byte(a));
                            }
                        }
                    }
                }
            },
        }
    } else {
        return None;
    }
    // Index of the leaf PTE (level 0) for va
    index = find_index(0, va);
    Some((next, index))
}
/// The frames that the non-zero PTEs `j..1024` of the table `t`
/// point to, in order.
pub open spec fn leaf_frames_from(mem: &PhysMem, t: u64, j: int) -> Seq<u64>
    decreases 1024 - j,
{
    if j >= 1024 || j < 0 {
        Seq::empty()
    } else {
        let e = mem.word(pte_location(t, j));
        let rest = leaf_frames_from(mem, t, j + 1);
        if e == 0 {
            rest
        } else {
            seq![pte_addr_of(e)] + rest
        }
    }
}

/// The frames reached from the level 1 PTEs `i..1024` of `root`: for
/// each non-zero PTE, the frames of its table and then the table.
pub open spec fn space_frames_from(mem: &PhysMem, root: u64, i: int) -> Seq<u64>
    decreases 1024 - i,
{
    if i >= 1024 || i < 0 {
        Seq::empty()
    } else {
        let e = mem.word(pte_location(root, i));
        let rest = space_frames_from(mem, root, i + 1);
        if e == 0 {
            rest
        } else {
            leaf_frames_from(mem, pte_addr_of(e), 0) + seq![pte_addr_of(e)] + rest
        }
    }
}

/// Every frame of the address space with page table `root`, in the
/// order in which `free_addr_space` frees them: the frames under each
/// non-zero level 1 PTE, and the root last.
pub open spec fn space_frames(mem: &PhysMem, root: u64) -> Seq<u64> {
    space_frames_from(mem, root, 0).push(root)
}

/// The table frames below a level 1 PTE appear among the frames of
/// the address space.
pub proof fn lemma_table_in_space(m: &PhysMem, root: u64, i: int, i0: int)
    requires
        0 <= i <= i0 < 1024,
        m.word(pte_location(root, i0)) != 0,
    ensures
        space_frames_from(m, root, i).contains(pte_addr_of(m.word(pte_location(root, i0)))),
    decreases i0 - i,
{
    let t = pte_addr_of(m.word(pte_location(root, i0)));
    if i == i0 {
        let l = leaf_frames_from(m, t, 0);
        let s = l + seq![t] + space_frames_from(m, root, i + 1);
        assert(s[l.len() as int] == t);
    } else {
        lemma_table_in_space(m, root, i + 1, i0);
        let rest = space_frames_from(m, root, i + 1);
        let k = choose|k: int| 0 <= k < rest.len() && rest[k] == t;
        let e = m.word(pte_location(root, i));
        if e != 0 {
            let pre = leaf_frames_from(m, pte_addr_of(e), 0) + seq![pte_addr_of(e)];
            assert((pre + rest)[pre.len() + k] == t);
        }
    }
}

proof fn lemma_leaf_frames_kept(m1: &PhysMem, m2: &PhysMem, t: u64, lo: int, hi: int, j: int)
    requires
        m2.same_outside(m1, lo, hi),
        t + 4096 <= u64::MAX,
        hi <= t || t + 4096 <= lo,
        0 <= j,
    ensures
        leaf_frames_from(m2, t, j) == leaf_frames_from(m1, t, j),
    decreases 1024 - j,
{
    if j < 1024 {
        lemma_leaf_frames_kept(m1, m2, t, lo, hi, j + 1);
        crate::memory::phys_mem::lemma_word_kept(m1, m2, lo, hi, pte_location(t, j));
    }
}

proof fn lemma_space_frames_from_kept(m1: &PhysMem, m2: &PhysMem, root: u64, lo: int, hi: int, i: int)
    requires
        m2.same_outside(m1, lo, hi),
        root + 4096 <= u64::MAX,
        hi <= root || root + 4096 <= lo,
        forall|k: int| i <= k < 1024 && #[trigger] m1.word(pte_location(root, k)) != 0 ==> {
            let t = pte_addr_of(m1.word(pte_location(root, k)));
            hi <= t || t + 4096 <= lo
        },
        0 <= i,
    ensures
        space_frames_from(m2, root, i) == space_frames_from(m1, root, i),
    decreases 1024 - i,
{
    if i < 1024 {
        lemma_space_frames_from_kept(m1, m2, root, lo, hi, i + 1);
        crate::memory::phys_mem::lemma_word_kept(m1, m2, lo, hi, pte_location(root, i));
        let e = m1.word(pte_location(root, i));
        if e != 0 {
            let t = pte_addr_of(e);
            lemma_pte_addr_aligned(e);
            lemma_leaf_frames_kept(m1, m2, t, lo, hi, 0);
        }
    }
}

/// The frames of an address space do not change when memory changes
/// only away from its root and tables.
pub proof fn lemma_space_frames_kept(m1: &PhysMem, m2: &PhysMem, root: u64, lo: int, hi: int)
    requires
        m2.same_outside(m1, lo, hi),
        root + 4096 <= u64::MAX,
        hi <= root || root + 4096 <= lo,
        forall|k: int| 0 <= k < 1024 && #[trigger] m1.word(pte_location(root, k)) != 0 ==> {
            let t = pte_addr_of(m1.word(pte_location(root, k)));
            hi <= t || t + 4096 <= lo
        },
    ensures
        space_frames(m2, root) == space_frames(m1, root),
{
    lemma_space_frames_from_kept(m1, m2, root, lo, hi, 0);
}

/// Every byte that differs between `m1` and `m2` lies outside the
/// root frame and the table frames of the address space at `root`.
pub open spec fn changes_away_from_tables(m1: &PhysMem, m2: &PhysMem, root: u64) -> bool {
    forall|a: int| 0 <= a < 0x1_0000_0000_0000_0000 && #[trigger] m2.byte(a) != m1.byte(a) ==> {
        &&& !(root <= a < root + 4096)
        &&& forall|k: int| 0 <= k < 1024 && #[trigger] m1.word(pte_location(root, k)) != 0 ==> {
            let t = pte_addr_of(m1.word(pte_location(root, k)));
            !(t <= a < t + 4096)
        }
    }
}

proof fn lemma_word_in_frame_kept(m1: &PhysMem, m2: &PhysMem, t: u64, j: int)
    requires
        0 <= j < 1024,
        t + 4096 <= u64::MAX,
        forall|a: int| 0 <= a < 0x1_0000_0000_0000_0000 && #[trigger] m2.byte(a) != m1.byte(a) ==> !(t <= a < t + 4096),
    ensures
        m2.word(pte_location(t, j)) == m1.word(pte_location(t, j)),
{
    let l = pte_location(t, j);
    assert(m2.byte(l + 0) == m1.byte(l + 0));
    assert(m2.byte(l + 1) == m1.byte(l + 1));
    assert(m2.byte(l + 2) == m1.byte(l + 2));
    assert(m2.byte(l + 3) == m1.byte(l + 3));
}

proof fn lemma_leaf_frames_kept_away(m1: &PhysMem, m2: &PhysMem, t: u64, j: int)
    requires
        t + 4096 <= u64::MAX,
        forall|a: int| 0 <= a < 0x1_0000_0000_0000_0000 && #[trigger] m2.byte(a) != m1.byte(a) ==> !(t <= a < t + 4096),
        0 <= j,
    ensures
        leaf_frames_from(m2, t, j) == leaf_frames_from(m1, t, j),
    decreases 1024 - j,
{
    if j < 1024 {
        lemma_leaf_frames_kept_away(m1, m2, t, j + 1);
        lemma_word_in_frame_kept(m1, m2, t, j);
    }
}

proof fn lemma_space_frames_from_kept_away(m1: &PhysMem, m2: &PhysMem, root: u64, i: int)
    requires
        changes_away_from_tables(m1, m2, root),
        root + 4096 <= u64::MAX,
        0 <= i,
    ensures
        space_frames_from(m2, root, i) == space_frames_from(m1, root, i),
    decreases 1024 - i,
{
    if i < 1024 {
        lemma_space_frames_from_kept_away(m1, m2, root, i + 1);
        lemma_word_in_frame_kept(m1, m2, root, i);
        let e = m1.word(pte_location(root, i));
        if e != 0 {
            let t = pte_addr_of(e);
            lemma_pte_addr_aligned(e);
            assert forall|a: int| 0 <= a < 0x1_0000_0000_0000_0000 && #[trigger] m2.byte(a) != m1.byte(a)
                implies !(t <= a < t + 4096) by {
                assert(m1.word(pte_location(root, i)) != 0);
            }
            lemma_leaf_frames_kept_away(m1, m2, t, 0);
        }
    }
}

/// The frames of an address space do not change when memory changes
/// only away from its root and tables.
pub proof fn lemma_space_frames_kept_away(m1: &PhysMem, m2: &PhysMem, root: u64)
    requires
        changes_away_from_tables(m1, m2, root),
        root + 4096 <= u64::MAX,
    ensures
        space_frames(m2, root) == space_frames(m1, root),
{
    lemma_space_frames_from_kept_away(m1, m2, root, 0);
}

proof fn lemma_first_not_in_prefix(a: Seq<u64>, b: Seq<u64>)
    requires
        (a + b).no_duplicates(),
        b.len() > 0,
    ensures
        forall|k: int| 0 <= k < a.len() ==> #[trigger] a[k] != b[0],
{
    assert forall|k: int| 0 <= k < a.len() implies #[trigger] a[k] != b[0] by {
        assert((a + b)[k] == a[k]);
        assert((a + b)[a.len() as int] == b[0]);
    }
}

/// Walk the levels of the pagetable to
/// determine which virtual addresses are mapped
/// and free their physical memory
/// # Arguments
/// - `pgt1`: pagetable to be freed
pub fn free_addr_space(pgt1: PageTable, mem: &PhysMem, falloc: &mut FrameAllocator)
    requires
        old(falloc).wf(),
        pgt1@ + 4096 <= u64::MAX,
        space_frames(mem, pgt1@).no_duplicates(),
        forall|k: int| 0 <= k < space_frames(mem, pgt1@).len() ==> {
            let x = #[trigger] space_frames(mem, pgt1@)[k] as int;
            old(falloc).is_frame(x) && old(falloc).used(x)
        },
    ensures
        final(falloc).wf(),
        final(falloc).start() == old(falloc).start(),
        final(falloc).kernel_end() == old(falloc).kernel_end(),
        final(falloc).latest() == old(falloc).latest(),
        final(falloc).bits() == clear_frames(old(falloc).bits(), old(falloc).start(), space_frames(mem, pgt1@)),
{
    let ghost a0 = *falloc;
    let ghost all = space_frames(mem, pgt1@);
    let ghost mut freed: Seq<u64> = Seq::empty();
    let ghost mut rest: Seq<u64> = all;
    proof {
        a0.lemma_wf_bounds();
        assert(freed + rest =~= all);
    }
    // Walk through level 1 page
    let mut i: usize = 0;
    while i < NUM_PTE
        invariant
            0 <= i <= NUM_PTE,
            pgt1@ + 4096 <= u64::MAX,
            a0 == *old(falloc),
            a0.wf(),
            falloc.wf(),
            falloc.start() == a0.start(),
            falloc.kernel_end() == a0.kernel_end(),
            falloc.latest() == a0.latest(),
            all == space_frames(mem, pgt1@),
            all.no_duplicates(),
            forall|k: int| 0 <= k < all.len() ==> {
                let x = #[trigger] all[k] as int;
                a0.is_frame(x) && a0.used(x)
            },
            freed + rest == all,
            rest == space_frames_from(mem, pgt1@, i as int).push(pgt1@),
            falloc.bits() == clear_frames(a0.bits(), a0.start(), freed),
        decreases NUM_PTE - i,
    {
        let pte1: PageTableEntry = pgt1.read_pte(i, mem);
        // Check if the PTE is empty
        if pte1 == PageTableEntry::new(0) {
            i = i + 1;
            continue;
        }
        // Walk through level 0 page
        let pgt0: PageTable = PageTable::new(pte1.get_addr());
        proof {
            let e = pte1@;
            lemma_pte_addr_aligned(e);
            assert(rest == leaf_frames_from(mem, pgt0@, 0) + seq![pgt0@]
                + space_frames_from(mem, pgt1@, i + 1).push(pgt1@));
        }
        let mut j: usize = 0;
        while j < NUM_PTE
            invariant
                0 <= i < NUM_PTE,
                0 <= j <= NUM_PTE,
                pgt0@ < 0x4_0000_0000,
                a0 == *old(falloc),
                a0.wf(),
                falloc.wf(),
                falloc.start() == a0.start(),
                falloc.kernel_end() == a0.kernel_end(),
                falloc.latest() == a0.latest(),
                all.no_duplicates(),
                forall|k: int| 0 <= k < all.len() ==> {
                    let x = #[trigger] all[k] as int;
                    a0.is_frame(x) && a0.used(x)
                },
                freed + rest == all,
                rest == leaf_frames_from(mem, pgt0@, j as int) + seq![pgt0@]
                    + space_frames_from(mem, pgt1@, i + 1).push(pgt1@),
                falloc.bits() == clear_frames(a0.bits(), a0.start(), freed),
            decreases NUM_PTE - j,
        {
            let pte0: PageTableEntry = pgt0.read_pte(j, mem);
            // Check if the PTE is empty
            if pte0 == PageTableEntry::new(0) {
                j = j + 1;
                continue;
            }
            let x: Addr = pte0.get_addr();
            proof {
                let tail = leaf_frames_from(mem, pgt0@, j + 1) + seq![pgt0@]
                    + space_frames_from(mem, pgt1@, i + 1).push(pgt1@);
                assert(rest =~= seq![x@] + tail);
                assert(rest[0] == x@);
                lemma_first_not_in_prefix(freed, rest);
                assert(all[freed.len() as int] == x@);
                assert forall|k: int| 0 <= k < freed.len() implies a0.is_frame(#[trigger] freed[k] as int) by {
                    assert(all[k] == freed[k]);
                }
                a0.lemma_wf_bounds();
                lemma_clear_frames_keeps(a0.bits(), &a0, freed, x@ as int);
            }
            // Free contents
            kfree(falloc, x);
            proof {
                let tail = leaf_frames_from(mem, pgt0@, j + 1) + seq![pgt0@]
                    + space_frames_from(mem, pgt1@, i + 1).push(pgt1@);
                assert(freed.push(x@).drop_last() =~= freed);
                freed = freed.push(x@);
                rest = tail;
                assert(freed + rest =~= all);
            }
            j = j + 1;
        }
        proof {
            assert(leaf_frames_from(mem, pgt0@, 1024) =~= Seq::<u64>::empty());
            let tail = space_frames_from(mem, pgt1@, i + 1).push(pgt1@);
            assert(rest =~= seq![pgt0@] + tail);
            lemma_first_not_in_prefix(freed, rest);
            assert(all[freed.len() as int] == pgt0@);
            assert forall|k: int| 0 <= k < freed.len() implies a0.is_frame(#[trigger] freed[k] as int) by {
                assert(all[k] == freed[k]);
            }
            a0.lemma_wf_bounds();
            lemma_clear_frames_keeps(a0.bits(), &a0, freed, pgt0@ as int);
        }
        // Free level 0 page
        kfree(falloc, pte1.get_addr());
        proof {
            let tail = space_frames_from(mem, pgt1@, i + 1).push(pgt1@);
            assert(freed.push(pgt0@).drop_last() =~= freed);
            freed = freed.push(pgt0@);
            rest = tail;
            assert(freed + rest =~= all);
        }
        i = i + 1;
    }
    proof {
        assert(space_frames_from(mem, pgt1@, 1024) =~= Seq::<u64>::empty());
        assert(rest =~= seq![pgt1@]);
        lemma_first_not_in_prefix(freed, rest);
        assert(all[freed.len() as int] == pgt1@);
        assert forall|k: int| 0 <= k < freed.len() implies a0.is_frame(#[trigger] freed[k] as int) by {
            assert(all[k] == freed[k]);
        }
        lemma_clear_frames_keeps(a0.bits(), &a0, freed, pgt1@ as int);
    }
    // Free level 1 page
    kfree(falloc, pgt1.as_addr());
    proof {
        assert(freed.push(pgt1@) =~= all);
        assert(freed.push(pgt1@).drop_last() =~= freed);
    }
}

/// Page-aligned address at or below `addr`.
pub open spec fn page_floor(addr: u64) -> u64 {
    addr & !0xFFFu64
}

/// Previous address multiple of page or 0 based on addr
pub fn prev_page(addr: Addr) -> (r: Addr)
    ensures
        r@ == page_floor(addr@),
        r@ <= addr@,
        addr@ - r@ < 4096,
        r@ % 4096 == 0,
{
    let a = addr.as_integer();
    proof {
        assert((a & !0xFFFu64) <= a && a - (a & !0xFFFu64) < 4096
            && (a & !0xFFFu64) % 4096 == 0) by (bit_vector);
    }
    Addr::new(a & !((PAGE_SIZE - 1) as u64))
}

/// Page-based 32-bit virtual addressing mode of satp
pub const SATP_SV32: usize = 0x8000_0000;

/// Format address to satp register
pub fn satp_format(addr: u64) -> (r: usize)
    ensures
        r == SATP_SV32 | ((addr >> 12u64) as usize),
{
    // Use Sv32 and remove offset from address
    SATP_SV32 | (addr >> 12u64) as usize
}

/// The leaf frames below a level 0 table appear among its leaf frames.
proof fn lemma_leaf_in_leaves(m: &PhysMem, t: u64, j: int, j0: int)
    requires
        0 <= j <= j0 < 1024,
        m.word(pte_location(t, j0)) != 0,
    ensures
        leaf_frames_from(m, t, j).contains(pte_addr_of(m.word(pte_location(t, j0)))),
    decreases j0 - j,
{
    let f = pte_addr_of(m.word(pte_location(t, j0)));
    if j == j0 {
        assert(leaf_frames_from(m, t, j)[0] == f);
    } else {
        lemma_leaf_in_leaves(m, t, j + 1, j0);
        let rest = leaf_frames_from(m, t, j + 1);
        let k = choose|k: int| 0 <= k < rest.len() && rest[k] == f;
        if m.word(pte_location(t, j)) != 0 {
            assert((seq![pte_addr_of(m.word(pte_location(t, j)))] + rest)[1 + k] == f);
        }
    }
}

/// The leaf frames of a level 1 PTE appear among the frames of the
/// address space.
pub proof fn lemma_leaf_in_space(m: &PhysMem, root: u64, i: int, i0: int, j0: int)
    requires
        0 <= i <= i0 < 1024,
        0 <= j0 < 1024,
        m.word(pte_location(root, i0)) != 0,
        m.word(pte_location(pte_addr_of(m.word(pte_location(root, i0))), j0)) != 0,
    ensures
        space_frames_from(m, root, i).contains(
            pte_addr_of(m.word(pte_location(pte_addr_of(m.word(pte_location(root, i0))), j0))),
        ),
    decreases i0 - i,
{
    let t = pte_addr_of(m.word(pte_location(root, i0)));
    let f = pte_addr_of(m.word(pte_location(t, j0)));
    if i == i0 {
        lemma_leaf_in_leaves(m, t, 0, j0);
        let l = leaf_frames_from(m, t, 0);
        let k = choose|k: int| 0 <= k < l.len() && l[k] == f;
        let s = l + seq![t] + space_frames_from(m, root, i + 1);
        assert(s[k] == f);
    } else {
        lemma_leaf_in_space(m, root, i + 1, i0, j0);
        let rest = space_frames_from(m, root, i + 1);
        let k = choose|k: int| 0 <= k < rest.len() && rest[k] == f;
        let e = m.word(pte_location(root, i));
        if e != 0 {
            let pre = leaf_frames_from(m, pte_addr_of(e), 0) + seq![pte_addr_of(e)];
            assert((pre + rest)[pre.len() + k] == f);
        }
    }
}

/// Leaf `j` of the level 0 table `t` in `m0` is copied in `m1`: the
/// leaf PTE of the new table `nt` is the old one with the address of
/// the new page `pages[(i, j)]`, which holds the bytes of the old page;
/// a zero leaf PTE stays zero in the new table.
pub open spec fn leaf_copied(
    m0: &PhysMem,
    m1: &PhysMem,
    t: u64,
    nt: u64,
    pages: Map<(int, int), u64>,
    i: int,
    j: int,
) -> bool {
    let l = m0.word(pte_location(t, j));
    if l != 0 {
        &&& pages.contains_key((i, j))
        &&& m1.word(pte_location(nt, j)) == pte_with_addr(l, pages[(i, j)])
        &&& pte_addr_of(m1.word(pte_location(nt, j))) == pages[(i, j)]
        &&& forall|k: int| 0 <= k < 4096 ==> #[trigger] m1.byte(pages[(i, j)] + k) == m0.byte(pte_addr_of(l) + k)
    } else {
        m1.word(pte_location(nt, j)) == 0
    }
}

/// Level 1 PTE `i` of `root` in `m0` is copied in `m1`: the PTE of
/// the new root is the old one with the address of the new table
/// `tabs[i]`, which holds the copies of the leaves of the old table;
/// a zero PTE stays zero in the new root.
pub open spec fn l1_copied(
    m0: &PhysMem,
    m1: &PhysMem,
    root: u64,
    new_root: u64,
    tabs: Map<int, u64>,
    pages: Map<(int, int), u64>,
    i: int,
) -> bool {
    let e = m0.word(pte_location(root, i));
    if e != 0 {
        &&& tabs.contains_key(i)
        &&& m1.word(pte_location(new_root, i)) == pte_with_addr(e, tabs[i])
        &&& pte_addr_of(m1.word(pte_location(new_root, i))) == tabs[i]
        &&& forall|j: int| 0 <= j < 1024 ==> #[trigger] leaf_copied(m0, m1, pte_addr_of(e), tabs[i], pages, i, j)
    } else {
        m1.word(pte_location(new_root, i)) == 0
    }
}

/// The address space at `root` in `m0` is copied in `m1` at `new_root`,
/// with the new tables `tabs` and the new pages `pages`.
pub open spec fn space_copied(
    m0: &PhysMem,
    m1: &PhysMem,
    root: u64,
    new_root: u64,
    tabs: Map<int, u64>,
    pages: Map<(int, int), u64>,
) -> bool {
    forall|i: int| 0 <= i < 1024 ==> #[trigger] l1_copied(m0, m1, root, new_root, tabs, pages, i)
}

/// Some leaf PTE of the address space at `root` is not zero.
pub open spec fn has_leaf(m: &PhysMem, root: u64) -> bool {
    exists|i: int, j: int|
        0 <= i < 1024 && 0 <= j < 1024 && #[trigger] m.word(pte_location(root, i)) != 0
            && #[trigger] m.word(pte_location(pte_addr_of(m.word(pte_location(root, i))), j)) != 0
}

/// `a` lies in the frame at `x`.
pub open spec fn in_frame(x: u64, a: int) -> bool {
    x <= a < x + 4096
}

/// Distinct frames do not overlap.
proof fn lemma_frames_disjoint(x: u64, y: u64)
    requires
        x % 4096 == 0,
        y % 4096 == 0,
        x != y,
    ensures
        x + 4096 <= y || y + 4096 <= x,
{
    assert(x + 4096 <= y || y + 4096 <= x) by (nonlinear_arith)
        requires x % 4096 == 0, y % 4096 == 0, x != y;
}

/// A PTE of the table `g` is not changed by writes confined to
/// another frame `f`.
proof fn lemma_word_other_frame(m1: &PhysMem, m2: &PhysMem, f: u64, g: u64, k: int)
    requires
        m2.same_outside(m1, f as int, f + 4096),
        f % 4096 == 0,
        g % 4096 == 0,
        f != g,
        0 <= k < 1024,
        g + 4096 <= u64::MAX,
    ensures
        m2.word(pte_location(g, k)) == m1.word(pte_location(g, k)),
{
    lemma_frames_disjoint(f, g);
    crate::memory::phys_mem::lemma_word_kept(m1, m2, f as int, f + 4096, pte_location(g, k));
}

/// The PTEs of a table cleared in `m` are zero.
proof fn lemma_cleared_table(m: &PhysMem, g: u64, k: int)
    requires
        forall|a: int| g <= a < g + 4096 ==> #[trigger] m.byte(a) == 0,
        0 <= k < 1024,
    ensures
        m.word(pte_location(g, k)) == 0,
{
    let l = pte_location(g, k);
    assert(m.byte(l) == 0);
    assert(m.byte(l + 1) == 0);
    assert(m.byte(l + 2) == 0);
    assert(m.byte(l + 3) == 0);
    crate::memory::phys_mem::lemma_zero_word(m, l);
}

/// The leaf PTEs of the table `t` from `j0` on name the frames `pg`
/// (by index) and are zero elsewhere.
pub open spec fn leaves_name(m: &PhysMem, t: u64, pg: Map<int, u64>, j0: int) -> bool {
    forall|j: int| j0 <= j < 1024 ==> {
        &&& (pg.contains_key(j) ==> #[trigger] m.word(pte_location(t, j)) != 0
            && pte_addr_of(m.word(pte_location(t, j))) == pg[j])
        &&& (!pg.contains_key(j) ==> m.word(pte_location(t, j)) == 0)
    }
}

/// The frames of a table whose leaves name the frames `pg` are those
/// frames; there are no two equal ones when `pg` names no frame twice.
proof fn lemma_named_leaf_frames(m: &PhysMem, t: u64, pg: Map<int, u64>, j0: int)
    requires
        0 <= j0 <= 1024,
        leaves_name(m, t, pg, j0),
    ensures
        forall|x: u64| #[trigger] leaf_frames_from(m, t, j0).contains(x) <==>
            exists|j: int| j0 <= j < 1024 && pg.contains_key(j) && #[trigger] pg[j] == x,
        (forall|j1: int, j2: int| pg.contains_key(j1) && pg.contains_key(j2) && j1 != j2 ==> pg[j1] != pg[j2])
            ==> leaf_frames_from(m, t, j0).no_duplicates(),
    decreases 1024 - j0,
{
    if j0 < 1024 {
        lemma_named_leaf_frames(m, t, pg, j0 + 1);
        let rest = leaf_frames_from(m, t, j0 + 1);
        if pg.contains_key(j0) {
            let s = seq![pg[j0]] + rest;
            assert(leaf_frames_from(m, t, j0) == s);
            assert forall|x: u64| #[trigger] s.contains(x) <==>
                exists|j: int| j0 <= j < 1024 && pg.contains_key(j) && #[trigger] pg[j] == x by {
                if s.contains(x) {
                    let k = choose|k: int| 0 <= k < s.len() && s[k] == x;
                    if k > 0 {
                        assert(rest[k - 1] == x);
                        assert(rest.contains(x));
                    }
                }
                if exists|j: int| j0 <= j < 1024 && pg.contains_key(j) && #[trigger] pg[j] == x {
                    let j = choose|j: int| j0 <= j < 1024 && pg.contains_key(j) && #[trigger] pg[j] == x;
                    if j == j0 {
                        assert(s[0] == x);
                    } else {
                        assert(j0 + 1 <= j < 1024 && pg.contains_key(j) && pg[j] == x);
                        assert(rest.contains(x));
                        let k = choose|k: int| 0 <= k < rest.len() && rest[k] == x;
                        assert(s[k + 1] == x);
                    }
                }
            }
            if forall|j1: int, j2: int| pg.contains_key(j1) && pg.contains_key(j2) && j1 != j2 ==> pg[j1] != pg[j2] {
                assert(!rest.contains(pg[j0]));
                assert forall|a: int, b: int| 0 <= a < b < s.len() implies s[a] != s[b] by {
                    if a == 0 {
                        assert(rest[b - 1] == s[b]);
                    } else {
                        assert(rest[a - 1] == s[a] && rest[b - 1] == s[b]);
                    }
                }
            }
        } else {
            assert(leaf_frames_from(m, t, j0) == rest);
            assert forall|x: u64| #[trigger] rest.contains(x) <==>
                exists|j: int| j0 <= j < 1024 && pg.contains_key(j) && #[trigger] pg[j] == x by {
                if exists|j: int| j0 <= j < 1024 && pg.contains_key(j) && #[trigger] pg[j] == x {
                    let j = choose|j: int| j0 <= j < 1024 && pg.contains_key(j) && #[trigger] pg[j] == x;
                    assert(j != j0);
                }
            }
        }
    } else {
        assert(leaf_frames_from(m, t, j0) =~= Seq::<u64>::empty());
    }
}

/// Row `i` of the frames `pgs`, by leaf index.
pub open spec fn pages_row(pgs: Map<(int, int), u64>, i: int) -> Map<int, u64> {
    Map::new(|j: int| pgs.contains_key((i, j)), |j: int| pgs[(i, j)])
}

/// The level 1 PTEs of `nr` from `i0` on name the tables `tabs`
/// (by index), whose leaves name the frames `pgs`, and are zero
/// elsewhere.
pub open spec fn tables_name(m: &PhysMem, nr: u64, tabs: Map<int, u64>, pgs: Map<(int, int), u64>, i0: int) -> bool {
    forall|i: int| i0 <= i < 1024 ==> {
        &&& (tabs.contains_key(i) ==> #[trigger] m.word(pte_location(nr, i)) != 0
            && pte_addr_of(m.word(pte_location(nr, i))) == tabs[i]
            && leaves_name(m, tabs[i], pages_row(pgs, i), 0))
        &&& (!tabs.contains_key(i) ==> m.word(pte_location(nr, i)) == 0)
    }
}

/// No frame is named twice by the tables and the pages.
pub open spec fn frames_distinct(tabs: Map<int, u64>, pgs: Map<(int, int), u64>) -> bool {
    &&& forall|i1: int, i2: int| #[trigger] tabs.contains_key(i1) && #[trigger] tabs.contains_key(i2) && i1 != i2
        ==> tabs[i1] != tabs[i2]
    &&& forall|p: (int, int), i2: int| #[trigger] pgs.contains_key(p) && #[trigger] tabs.contains_key(i2)
        ==> pgs[p] != tabs[i2]
    &&& forall|p1: (int, int), p2: (int, int)| #[trigger] pgs.contains_key(p1) && #[trigger] pgs.contains_key(p2)
        && p1 != p2 ==> pgs[p1] != pgs[p2]
}

/// The frames of an address space whose PTEs name the tables `tabs`
/// and the pages `pgs` are those frames, none twice when they are
/// distinct.
proof fn lemma_named_space_frames(m: &PhysMem, nr: u64, tabs: Map<int, u64>, pgs: Map<(int, int), u64>, i0: int)
    requires
        0 <= i0 <= 1024,
        tables_name(m, nr, tabs, pgs, i0),
    ensures
        forall|x: u64| #[trigger] space_frames_from(m, nr, i0).contains(x) <==> {
            ||| exists|i: int| i0 <= i < 1024 && tabs.contains_key(i) && #[trigger] tabs[i] == x
            ||| exists|p: (int, int)| i0 <= p.0 < 1024 && 0 <= p.1 < 1024 && tabs.contains_key(p.0)
                && pgs.contains_key(p) && #[trigger] pgs[p] == x
        },
        frames_distinct(tabs, pgs) ==> space_frames_from(m, nr, i0).no_duplicates(),
    decreases 1024 - i0,
{
    if i0 < 1024 {
        lemma_named_space_frames(m, nr, tabs, pgs, i0 + 1);
        let rest = space_frames_from(m, nr, i0 + 1);
        if tabs.contains_key(i0) {
            let t = tabs[i0];
            let row = pages_row(pgs, i0);
            assert(m.word(pte_location(nr, i0)) != 0);
            lemma_named_leaf_frames(m, t, row, 0);
            let lf = leaf_frames_from(m, t, 0);
            let s = lf + seq![t] + rest;
            assert(space_frames_from(m, nr, i0) == s);
            assert forall|x: u64| #[trigger] s.contains(x) <==> {
                ||| exists|i: int| i0 <= i < 1024 && tabs.contains_key(i) && #[trigger] tabs[i] == x
                ||| exists|p: (int, int)| i0 <= p.0 < 1024 && 0 <= p.1 < 1024 && tabs.contains_key(p.0)
                    && pgs.contains_key(p) && #[trigger] pgs[p] == x
            } by {
                if s.contains(x) {
                    let k = choose|k: int| 0 <= k < s.len() && s[k] == x;
                    if k < lf.len() {
                        assert(lf[k] == x);
                        assert(lf.contains(x));
                        let j = choose|j: int| 0 <= j < 1024 && row.contains_key(j) && #[trigger] row[j] == x;
                        assert(pgs[(i0, j)] == x);
                    } else if k == lf.len() {
                        assert(tabs[i0] == x);
                    } else {
                        assert(rest[k - lf.len() - 1] == x);
                        assert(rest.contains(x));
                    }
                }
                if exists|i: int| i0 <= i < 1024 && tabs.contains_key(i) && #[trigger] tabs[i] == x {
                    let i = choose|i: int| i0 <= i < 1024 && tabs.contains_key(i) && #[trigger] tabs[i] == x;
                    if i == i0 {
                        assert(s[lf.len() as int] == x);
                    } else {
                        assert(rest.contains(x));
                        let k = choose|k: int| 0 <= k < rest.len() && rest[k] == x;
                        assert(s[lf.len() + 1 + k] == x);
                    }
                }
                if exists|p: (int, int)| i0 <= p.0 < 1024 && 0 <= p.1 < 1024 && tabs.contains_key(p.0)
                    && pgs.contains_key(p) && #[trigger] pgs[p] == x {
                    let p = choose|p: (int, int)| i0 <= p.0 < 1024 && 0 <= p.1 < 1024 && tabs.contains_key(p.0)
                        && pgs.contains_key(p) && #[trigger] pgs[p] == x;
                    if p.0 == i0 {
                        assert(row.contains_key(p.1) && row[p.1] == x);
                        assert(lf.contains(x));
                        let k = choose|k: int| 0 <= k < lf.len() && lf[k] == x;
                        assert(s[k] == x);
                    } else {
                        assert(rest.contains(x));
                        let k = choose|k: int| 0 <= k < rest.len() && rest[k] == x;
                        assert(s[lf.len() + 1 + k] == x);
                    }
                }
            }
            if frames_distinct(tabs, pgs) {
                assert forall|j1: int, j2: int| row.contains_key(j1) && row.contains_key(j2) && j1 != j2
                    implies row[j1] != row[j2] by {
                    assert(pgs.contains_key((i0, j1)) && pgs.contains_key((i0, j2)));
                }
                let a = lf + seq![t];
                assert forall|x: int, y: int| 0 <= x < lf.len() && 0 <= y < 1 implies lf[x] != seq![t][y] by {
                    assert(lf.contains(lf[x]));
                    let j = choose|j: int| 0 <= j < 1024 && row.contains_key(j) && #[trigger] row[j] == lf[x];
                    assert(pgs.contains_key((i0, j)));
                }
                vstd::seq_lib::lemma_no_dup_in_concat(lf, seq![t]);
                assert forall|x: int, y: int| 0 <= x < a.len() && 0 <= y < rest.len() implies a[x] != rest[y] by {
                    let v = rest[y];
                    assert(rest.contains(v));
                    if x < lf.len() {
                        assert(lf.contains(a[x]));
                        let j = choose|j: int| 0 <= j < 1024 && row.contains_key(j) && #[trigger] row[j] == a[x];
                        assert(pgs.contains_key((i0, j)));
                        if exists|i: int| i0 + 1 <= i < 1024 && tabs.contains_key(i) && #[trigger] tabs[i] == v {
                            let i = choose|i: int| i0 + 1 <= i < 1024 && tabs.contains_key(i) && #[trigger] tabs[i] == v;
                            assert(tabs.contains_key(i));
                        } else {
                            let p = choose|p: (int, int)| i0 + 1 <= p.0 < 1024 && 0 <= p.1 < 1024 && tabs.contains_key(p.0)
                                && pgs.contains_key(p) && #[trigger] pgs[p] == v;
                            assert(p != (i0, j));
                        }
                    } else {
                        assert(a[x] == t);
                        if exists|i: int| i0 + 1 <= i < 1024 && tabs.contains_key(i) && #[trigger] tabs[i] == v {
                            let i = choose|i: int| i0 + 1 <= i < 1024 && tabs.contains_key(i) && #[trigger] tabs[i] == v;
                            assert(i != i0);
                        } else {
                            let p = choose|p: (int, int)| i0 + 1 <= p.0 < 1024 && 0 <= p.1 < 1024 && tabs.contains_key(p.0)
                                && pgs.contains_key(p) && #[trigger] pgs[p] == v;
                            assert(pgs.contains_key(p));
                        }
                    }
                }
                vstd::seq_lib::lemma_no_dup_in_concat(a, rest);
            }
        } else {
            assert(m.word(pte_location(nr, i0)) == 0);
            assert(space_frames_from(m, nr, i0) == rest);
            assert forall|x: u64| #[trigger] rest.contains(x) <==> {
                ||| exists|i: int| i0 <= i < 1024 && tabs.contains_key(i) && #[trigger] tabs[i] == x
                ||| exists|p: (int, int)| i0 <= p.0 < 1024 && 0 <= p.1 < 1024 && tabs.contains_key(p.0)
                    && pgs.contains_key(p) && #[trigger] pgs[p] == x
            } by {
                if exists|i: int| i0 <= i < 1024 && tabs.contains_key(i) && #[trigger] tabs[i] == x {
                    let i = choose|i: int| i0 <= i < 1024 && tabs.contains_key(i) && #[trigger] tabs[i] == x;
                    assert(i != i0);
                }
                if exists|p: (int, int)| i0 <= p.0 < 1024 && 0 <= p.1 < 1024 && tabs.contains_key(p.0)
                    && pgs.contains_key(p) && #[trigger] pgs[p] == x {
                    let p = choose|p: (int, int)| i0 <= p.0 < 1024 && 0 <= p.1 < 1024 && tabs.contains_key(p.0)
                        && pgs.contains_key(p) && #[trigger] pgs[p] == x;
                    assert(p.0 != i0);
                }
            }
        }
    } else {
        assert(space_frames_from(m, nr, i0) =~= Seq::<u64>::empty());
    }
}

/// A copy made up to level 1 PTE `i` (and, when PTE `i` has a new
/// table, up to its leaf `jl`) names its tables and pages, its other
/// PTEs being zero.
proof fn lemma_copy_names(
    m0: &PhysMem,
    m: &PhysMem,
    root: u64,
    nr: u64,
    tabs: Map<int, u64>,
    pages: Map<(int, int), u64>,
    i: int,
    jl: int,
)
    requires
        0 <= i <= 1024,
        0 <= jl <= 1024,
        forall|i2: int| 0 <= i2 < i ==> #[trigger] l1_copied(m0, m, root, nr, tabs, pages, i2),
        i < 1024 && tabs.contains_key(i) ==> {
            let e = m0.word(pte_location(root, i));
            &&& m.word(pte_location(nr, i)) == pte_with_addr(e, tabs[i])
            &&& pte_addr_of(pte_with_addr(e, tabs[i])) == tabs[i]
            &&& forall|j2: int| 0 <= j2 < jl ==> #[trigger] leaf_copied(m0, m, pte_addr_of(e), tabs[i], pages, i, j2)
            &&& forall|j2: int| jl <= j2 < 1024 ==> #[trigger] m.word(pte_location(tabs[i], j2)) == 0
        },
        i < 1024 && !tabs.contains_key(i) ==> m.word(pte_location(nr, i)) == 0,
        forall|i2: int| i < i2 < 1024 ==> #[trigger] m.word(pte_location(nr, i2)) == 0,
        forall|i2: int| #[trigger] tabs.contains_key(i2) ==> 0 <= i2 <= i && i2 < 1024
            && m0.word(pte_location(root, i2)) != 0 && tabs[i2] != 0,
        forall|p: (int, int)| #[trigger] pages.contains_key(p) ==> tabs.contains_key(p.0) && 0 <= p.1 < 1024
            && (p.0 == i ==> p.1 < jl) && pages[p] != 0
            && m0.word(pte_location(pte_addr_of(m0.word(pte_location(root, p.0))), p.1)) != 0,
    ensures
        tables_name(m, nr, tabs, pages, 0),
{
    lemma_zero_pte();
    assert forall|i2: int| 0 <= i2 < 1024 implies {
        &&& (tabs.contains_key(i2) ==> #[trigger] m.word(pte_location(nr, i2)) != 0
            && pte_addr_of(m.word(pte_location(nr, i2))) == tabs[i2]
            && leaves_name(m, tabs[i2], pages_row(pages, i2), 0))
        &&& (!tabs.contains_key(i2) ==> m.word(pte_location(nr, i2)) == 0)
    } by {
        let e = m0.word(pte_location(root, i2));
        let t = pte_addr_of(e);
        let row = pages_row(pages, i2);
        if i2 < i {
            assert(l1_copied(m0, m, root, nr, tabs, pages, i2));
            if tabs.contains_key(i2) {
                assert(e != 0);
                assert forall|j: int| 0 <= j < 1024 implies {
                    &&& (row.contains_key(j) ==> #[trigger] m.word(pte_location(tabs[i2], j)) != 0
                        && pte_addr_of(m.word(pte_location(tabs[i2], j))) == row[j])
                    &&& (!row.contains_key(j) ==> m.word(pte_location(tabs[i2], j)) == 0)
                } by {
                    assert(leaf_copied(m0, m, t, tabs[i2], pages, i2, j));
                    if row.contains_key(j) {
                        assert(pages.contains_key((i2, j)));
                    }
                }
            }
        } else if i2 == i {
            if tabs.contains_key(i2) {
                assert forall|j: int| 0 <= j < 1024 implies {
                    &&& (row.contains_key(j) ==> #[trigger] m.word(pte_location(tabs[i2], j)) != 0
                        && pte_addr_of(m.word(pte_location(tabs[i2], j))) == row[j])
                    &&& (!row.contains_key(j) ==> m.word(pte_location(tabs[i2], j)) == 0)
                } by {
                    if j < jl {
                        assert(leaf_copied(m0, m, t, tabs[i2], pages, i2, j));
                        if row.contains_key(j) {
                            assert(pages.contains_key((i2, j)));
                        }
                    } else {
                        assert(m.word(pte_location(tabs[i2], j)) == 0);
                        if row.contains_key(j) {
                            assert(pages.contains_key((i2, j)));
                        }
                    }
                }
            }
        } else {
            assert(m.word(pte_location(nr, i2)) == 0);
        }
    }
}

/// The frames of a copy that names its tables and pages are the root
/// and those frames, none twice.
proof fn lemma_copy_frames(m: &PhysMem, nr: u64, tabs: Map<int, u64>, pages: Map<(int, int), u64>, fs: Set<u64>)
    requires
        tables_name(m, nr, tabs, pages, 0),
        frames_distinct(tabs, pages),
        forall|i2: int| #[trigger] tabs.contains_key(i2) ==> 0 <= i2 < 1024 && tabs[i2] != nr,
        forall|p: (int, int)| #[trigger] pages.contains_key(p) ==> tabs.contains_key(p.0) && 0 <= p.1 < 1024
            && pages[p] != nr,
        forall|x: u64| #[trigger] fs.contains(x) <==> {
            ||| x == nr
            ||| exists|i2: int| tabs.contains_key(i2) && #[trigger] tabs[i2] == x
            ||| exists|p: (int, int)| pages.contains_key(p) && #[trigger] pages[p] == x
        },
    ensures
        forall|x: u64| #[trigger] space_frames(m, nr).contains(x) <==> fs.contains(x),
        space_frames(m, nr).no_duplicates(),
{
    lemma_named_space_frames(m, nr, tabs, pages, 0);
    let sf = space_frames_from(m, nr, 0);
    let all = space_frames(m, nr);
    assert(all == sf + seq![nr]);
    assert forall|x: u64| #[trigger] all.contains(x) <==> fs.contains(x) by {
        if all.contains(x) {
            let k = choose|k: int| 0 <= k < all.len() && all[k] == x;
            if k < sf.len() {
                assert(sf[k] == x);
                assert(sf.contains(x));
                if exists|p: (int, int)| 0 <= p.0 < 1024 && 0 <= p.1 < 1024 && tabs.contains_key(p.0)
                    && pages.contains_key(p) && #[trigger] pages[p] == x {
                    let p = choose|p: (int, int)| 0 <= p.0 < 1024 && 0 <= p.1 < 1024 && tabs.contains_key(p.0)
                        && pages.contains_key(p) && #[trigger] pages[p] == x;
                    assert(pages.contains_key(p) && pages[p] == x);
                } else {
                    let i2 = choose|i2: int| 0 <= i2 < 1024 && tabs.contains_key(i2) && #[trigger] tabs[i2] == x;
                    assert(tabs.contains_key(i2) && tabs[i2] == x);
                }
            }
        }
        if fs.contains(x) {
            if x == nr {
                assert(all[sf.len() as int] == x);
            } else if exists|i2: int| tabs.contains_key(i2) && #[trigger] tabs[i2] == x {
                let i2 = choose|i2: int| tabs.contains_key(i2) && #[trigger] tabs[i2] == x;
                assert(0 <= i2 < 1024 && tabs[i2] == x);
                assert(sf.contains(x));
                let k = choose|k: int| 0 <= k < sf.len() && sf[k] == x;
                assert(all[k] == x);
            } else {
                let p = choose|p: (int, int)| pages.contains_key(p) && #[trigger] pages[p] == x;
                assert(tabs.contains_key(p.0));
                assert(0 <= p.0 < 1024 && 0 <= p.1 < 1024 && pages[p] == x);
                assert(sf.contains(x));
                let k = choose|k: int| 0 <= k < sf.len() && sf[k] == x;
                assert(all[k] == x);
            }
        }
    }
    assert forall|a: int, b: int| 0 <= a < sf.len() && 0 <= b < 1 implies sf[a] != seq![nr][b] by {
        let v = sf[a];
        assert(sf.contains(v));
        if exists|p: (int, int)| 0 <= p.0 < 1024 && 0 <= p.1 < 1024 && tabs.contains_key(p.0)
            && pages.contains_key(p) && #[trigger] pages[p] == v {
            let p = choose|p: (int, int)| 0 <= p.0 < 1024 && 0 <= p.1 < 1024 && tabs.contains_key(p.0)
                && pages.contains_key(p) && #[trigger] pages[p] == v;
            assert(pages.contains_key(p));
        } else {
            let i2 = choose|i2: int| 0 <= i2 < 1024 && tabs.contains_key(i2) && #[trigger] tabs[i2] == v;
            assert(tabs.contains_key(i2));
        }
    }
    vstd::seq_lib::lemma_no_dup_in_concat(sf, seq![nr]);
}

/// A copied leaf stays copied when memory changes away from its PTE
/// and its page.
proof fn lemma_leaf_copied_kept(
    m0: &PhysMem,
    m1: &PhysMem,
    m2: &PhysMem,
    t: u64,
    nt: u64,
    pages: Map<(int, int), u64>,
    i: int,
    j: int,
    lo: int,
    hi: int,
)
    requires
        leaf_copied(m0, m1, t, nt, pages, i, j),
        m2.same_outside(m1, lo, hi),
        0 <= j < 1024,
        nt + 4096 <= u64::MAX,
        hi <= pte_location(nt, j) || pte_location(nt, j) + 4 <= lo,
        m0.word(pte_location(t, j)) != 0 ==> pages[(i, j)] + 4096 <= u64::MAX,
        m0.word(pte_location(t, j)) != 0 ==> hi <= pages[(i, j)] || pages[(i, j)] + 4096 <= lo,
    ensures
        leaf_copied(m0, m2, t, nt, pages, i, j),
{
    let l = m0.word(pte_location(t, j));
    crate::memory::phys_mem::lemma_word_kept(m1, m2, lo, hi, pte_location(nt, j));
    if l != 0 {
        let p = pages[(i, j)];
        assert forall|k: int| 0 <= k < 4096 implies #[trigger] m2.byte(p + k) == m0.byte(pte_addr_of(l) + k) by {
            assert(m1.byte(p + k) == m0.byte(pte_addr_of(l) + k));
        }
    }
}

/// A copied level 1 PTE stays copied when memory changes away from
/// its new PTE, its new table and its new pages.
proof fn lemma_l1_copied_kept(
    m0: &PhysMem,
    m1: &PhysMem,
    m2: &PhysMem,
    root: u64,
    new_root: u64,
    tabs: Map<int, u64>,
    pages: Map<(int, int), u64>,
    i: int,
    lo: int,
    hi: int,
)
    requires
        l1_copied(m0, m1, root, new_root, tabs, pages, i),
        m2.same_outside(m1, lo, hi),
        0 <= i < 1024,
        new_root + 4096 <= u64::MAX,
        hi <= pte_location(new_root, i) || pte_location(new_root, i) + 4 <= lo,
        m0.word(pte_location(root, i)) != 0 ==> {
            &&& tabs[i] + 4096 <= u64::MAX
            &&& hi <= tabs[i] || tabs[i] + 4096 <= lo
            &&& forall|j: int| 0 <= j < 1024 && #[trigger] pages.contains_key((i, j)) ==> pages[(i, j)] + 4096 <= u64::MAX
                && (hi <= pages[(i, j)] || pages[(i, j)] + 4096 <= lo)
        },
    ensures
        l1_copied(m0, m2, root, new_root, tabs, pages, i),
{
    let e = m0.word(pte_location(root, i));
    crate::memory::phys_mem::lemma_word_kept(m1, m2, lo, hi, pte_location(new_root, i));
    if e != 0 {
        let t = pte_addr_of(e);
        assert forall|j: int| 0 <= j < 1024 implies #[trigger] leaf_copied(m0, m2, t, tabs[i], pages, i, j) by {
            assert(leaf_copied(m0, m1, t, tabs[i], pages, i, j));
            lemma_leaf_copied_kept(m0, m1, m2, t, tabs[i], pages, i, j, lo, hi);
        }
    }
}

/// A byte of a frame used at the start is not among the bytes changed
/// in frames that were free at the start.
proof fn lemma_used_frame_kept(
    m0: &PhysMem,
    m1: &PhysMem,
    a0: &FrameAllocator,
    fs: Set<u64>,
    f: u64,
    a: int,
)
    requires
        a0.is_frame(f as int),
        a0.used(f as int),
        forall|x: u64| #[trigger] fs.contains(x) ==> free_frames(a0).contains(x as int) && a0.is_frame(x as int),
        forall|b: int| 0 <= b < 0x1_0000_0000_0000_0000 && #[trigger] m1.byte(b) != m0.byte(b) ==>
            exists|x: u64| #[trigger] fs.contains(x) && in_frame(x, b),
        in_frame(f, a),
        0 <= a < 0x1_0000_0000_0000_0000,
    ensures
        m1.byte(a) == m0.byte(a),
{
    if m1.byte(a) != m0.byte(a) {
        let x = choose|x: u64| #[trigger] fs.contains(x) && in_frame(x, a);
        if x != f {
            lemma_frames_disjoint(x, f);
        }
    }
}

/// A word of a frame used at the start is not among the bytes changed
/// in frames that were free at the start.
proof fn lemma_used_word_kept(
    m0: &PhysMem,
    m1: &PhysMem,
    a0: &FrameAllocator,
    fs: Set<u64>,
    f: u64,
    j: int,
)
    requires
        a0.wf(),
        a0.is_frame(f as int),
        a0.used(f as int),
        0 <= j < 1024,
        forall|x: u64| #[trigger] fs.contains(x) ==> free_frames(a0).contains(x as int) && a0.is_frame(x as int),
        forall|b: int| 0 <= b < 0x1_0000_0000_0000_0000 && #[trigger] m1.byte(b) != m0.byte(b) ==>
            exists|x: u64| #[trigger] fs.contains(x) && in_frame(x, b),
    ensures
        m1.word(pte_location(f, j)) == m0.word(pte_location(f, j)),
{
    a0.lemma_wf_bounds();
    let l = pte_location(f, j);
    lemma_used_frame_kept(m0, m1, a0, fs, f, l);
    lemma_used_frame_kept(m0, m1, a0, fs, f, l + 1);
    lemma_used_frame_kept(m0, m1, a0, fs, f, l + 2);
    lemma_used_frame_kept(m0, m1, a0, fs, f, l + 3);
}

/// The frame `x` was free in `a0` and is taken in `a1`.
pub open spec fn taken(a0: &FrameAllocator, a1: &FrameAllocator, x: u64) -> bool {
    free_frames(a0).contains(x as int) && !free_frames(a1).contains(x as int)
}

/// The new tables `tabs` and pages `pages` of a copy rooted at `nr`
/// are frames taken from `a0` in `a1`, no two the same and none the
/// root.
pub open spec fn copy_fresh(a0: &FrameAllocator, a1: &FrameAllocator, nr: u64, tabs: Map<int, u64>,
    pages: Map<(int, int), u64>) -> bool {
    &&& forall|i: int| #[trigger] tabs.contains_key(i) ==> taken(a0, a1, tabs[i]) && tabs[i] != nr
    &&& forall|p: (int, int)| #[trigger] pages.contains_key(p) ==> taken(a0, a1, pages[p]) && pages[p] != nr
    &&& frames_distinct(tabs, pages)
}

/// Free a partial copy of an address space: its frames are exactly
/// the frames `fs` taken from the free frames of `a0`, which are free
/// again afterwards.
pub(crate) fn free_partial_copy(
    new_pgt1: PageTable,
    mem: &PhysMem,
    falloc: &mut FrameAllocator,
    Ghost(a0): Ghost<FrameAllocator>,
    Ghost(fs): Ghost<Set<u64>>,
)
    requires
        old(falloc).wf(),
        old(falloc).initialized(),
        a0.wf(),
        old(falloc).start() == a0.start(),
        old(falloc).kernel_end() == a0.kernel_end(),
        new_pgt1@ + 4096 <= u64::MAX,
        forall|x: u64| #[trigger] space_frames(mem, new_pgt1@).contains(x) <==> fs.contains(x),
        space_frames(mem, new_pgt1@).no_duplicates(),
        forall|b: int| #[trigger] free_frames(old(falloc)).contains(b) == (free_frames(&a0).contains(b)
            && !fs.contains(b as u64)),
        forall|x: u64| #[trigger] fs.contains(x) ==> free_frames(&a0).contains(x as int),
    ensures
        final(falloc).wf(),
        final(falloc).initialized(),
        final(falloc).start() == a0.start(),
        final(falloc).kernel_end() == a0.kernel_end(),
        free_frames(final(falloc)) == free_frames(&a0),
{
    let ghost a1 = *falloc;
    let ghost frames = space_frames(mem, new_pgt1@);
    proof {
        assert forall|k: int| 0 <= k < frames.len() implies {
            let x = #[trigger] frames[k] as int;
            a1.is_frame(x) && a1.used(x)
        } by {
            let x = frames[k];
            assert(frames.contains(x));
            assert(fs.contains(x));
            assert(free_frames(&a0).contains(x as int));
            assert(!free_frames(&a1).contains(x as int));
        }
    }
    free_addr_space(new_pgt1, mem, falloc);
    proof {
        lemma_free_taken(&a0, &a1, falloc, fs, frames);
    }
}

/// Walk the levels of the pagetable to determine which virtual
/// addresses are mapped and allocate new physical ones to them: a new
/// root, a new level 0 table for each non-zero level 1 PTE and a new
/// page for each non-zero leaf PTE, whose bytes are copied. A new PTE
/// is the old one with the new address; the new tables are cleared
/// first, so that the PTEs that stand for zero PTEs are zero.
/// # Arguments
/// - `pgt1`: pagetable to be copied
/// # Return
/// Option containing the new pagetable, None if the copy was
/// unsuccessful: when a frame cannot be allocated or there is no page
/// to copy; the frames taken are then freed.
#[verifier::rlimit(60)]
pub fn copy_addr_space(pgt1: PageTable, mem: &mut PhysMem, falloc: &mut FrameAllocator) -> (r: Option<PageTable>)
    requires
        old(falloc).wf(),
        old(falloc).initialized(),
        pgt1@ + 4096 <= u64::MAX,
        forall|k: int| 0 <= k < space_frames(old(mem), pgt1@).len() ==> {
            let x = #[trigger] space_frames(old(mem), pgt1@)[k] as int;
            old(falloc).is_frame(x) && old(falloc).used(x)
        },
        old(falloc).start() > 0,
    ensures
        final(falloc).wf(),
        final(falloc).initialized(),
        final(falloc).start() == old(falloc).start(),
        final(falloc).kernel_end() == old(falloc).kernel_end(),
        r is Some <==> free_count(old(falloc)) >= space_frames(old(mem), pgt1@).len() && has_leaf(old(mem), pgt1@),
        r is Some ==> {
            &&& free_count(final(falloc)) + space_frames(old(mem), pgt1@).len() == free_count(old(falloc))
            &&& forall|b: int| free_frames(final(falloc)).contains(b) ==> free_frames(old(falloc)).contains(b)
            &&& exists|tabs: Map<int, u64>, pages: Map<(int, int), u64>|
                #[trigger] space_copied(old(mem), final(mem), pgt1@, r->0@, tabs, pages)
                && copy_fresh(old(falloc), final(falloc), r->0@, tabs, pages)
            &&& taken(old(falloc), final(falloc), r->0@)
            &&& r->0@ + 4096 <= u64::MAX
            &&& space_frames(final(mem), r->0@).no_duplicates()
            &&& forall|x: u64| #[trigger] space_frames(final(mem), r->0@).contains(x)
                <==> taken(old(falloc), final(falloc), x)
        },
        r is None ==> free_frames(final(falloc)) == free_frames(old(falloc)),
        forall|a: int| 0 <= a < 0x1_0000_0000_0000_0000 && #[trigger] final(mem).byte(a) != old(mem).byte(a) ==>
            exists|x: u64| free_frames(old(falloc)).contains(x as int)
                && (r is Some ==> !free_frames(final(falloc)).contains(x as int)) && in_frame(x, a),
{
    let ghost m0 = *mem;
    let ghost a0 = *falloc;
    let ghost root = pgt1@;
    proof {
        assert(space_frames(&m0, root).len() >= 1);
    }
    // Allocate a frame for the new pgt
    let mut addr_opt: Option<Addr> = kmalloc(falloc);
    let mut addr: Addr = match addr_opt {
        Some(a) => a,
        None => {
            proof {
                if free_count(falloc) > 0 {
                    lemma_free_not_exhausted(falloc);
                }
            }
            return None;
        },
    };
    // Indicate if there was something to copy
    let mut empty: bool = true;
    // Level 1 new page table
    let new_pgt1: PageTable = PageTable::new(addr);
    let ghost new_root = addr@;
    let ghost mut tabs: Map<int, u64> = Map::empty();
    let ghost mut pages: Map<(int, int), u64> = Map::empty();
    let ghost mut fs: Set<u64> = set![new_root];
    proof {
        lemma_alloc_count(&a0, falloc, new_root);
        a0.lemma_wf_bounds();
        assert forall|b: int| #[trigger] free_frames(falloc).contains(b) == (free_frames(&a0).contains(b)
            && !fs.contains(b as u64)) by {
            if free_frames(&a0).contains(b) {
                assert(0 <= b < 0x4_0000_0000);
                assert((b as u64) as int == b);
            }
        }
        lemma_alloc_keeps_used(&a0, falloc, new_root);
        a0.lemma_wf_bounds();
        a0.lemma_frame_index(new_root as int, new_root as int);
        assert(falloc.used(new_root as int));
        assert(space_frames(&m0, root) == space_frames_from(&m0, root, 0).push(root));
    }
    // Clear the new root
    new_pgt1.pageset(0, mem);
    proof {
        assert forall|a: int| 0 <= a < 0x1_0000_0000_0000_0000 && #[trigger] mem.byte(a) != m0.byte(a) implies
            exists|x: u64| #[trigger] fs.contains(x) && in_frame(x, a) by {
            assert(fs.contains(new_root) && in_frame(new_root, a));
        }
        assert forall|i2: int| 0 <= i2 < 1024 implies #[trigger] mem.word(pte_location(new_root, i2)) == 0 by {
            lemma_cleared_table(mem, new_root, i2);
        }
    }
    let mut i: usize = 0;
    while i < NUM_PTE
        invariant
            0 <= i <= NUM_PTE,
            root == pgt1@,
            root + 4096 <= u64::MAX,
            new_pgt1@ == new_root,
            m0 == *old(mem),
            a0 == *old(falloc),
            a0.wf(),
            falloc.wf(),
            falloc.initialized(),
            falloc.start() == a0.start(),
            falloc.kernel_end() == a0.kernel_end(),
            a0.start() > 0,
            forall|b: int| #[trigger] free_frames(falloc).contains(b) ==> free_frames(&a0).contains(b),
            forall|b: int| #[trigger] free_frames(falloc).contains(b) == (free_frames(&a0).contains(b)
                && !fs.contains(b as u64)),
            forall|b: int| #[trigger] a0.is_frame(b) && a0.used(b) ==> falloc.used(b),
            forall|x: u64| #[trigger] fs.contains(x) ==> free_frames(&a0).contains(x as int)
                && !free_frames(falloc).contains(x as int) && a0.is_frame(x as int),
            forall|x: u64| #[trigger] fs.contains(x) <==> {
                ||| x == new_root
                ||| exists|i2: int| tabs.contains_key(i2) && #[trigger] tabs[i2] == x
                ||| exists|p: (int, int)| pages.contains_key(p) && #[trigger] pages[p] == x
            },
            free_count(falloc) + 1 + space_frames_from(&m0, root, 0).len() - space_frames_from(&m0, root, i as int).len()
                == free_count(&a0),
            forall|k: int| 0 <= k < space_frames(&m0, root).len() ==> {
                let x = #[trigger] space_frames(&m0, root)[k] as int;
                a0.is_frame(x) && a0.used(x)
            },
            space_frames(&m0, root) == space_frames_from(&m0, root, 0).push(root),
            forall|a: int| 0 <= a < 0x1_0000_0000_0000_0000 && #[trigger] mem.byte(a) != m0.byte(a) ==>
                exists|x: u64| #[trigger] fs.contains(x) && in_frame(x, a),
            fs.contains(new_root),
            forall|i2: int| #[trigger] tabs.contains_key(i2) ==> fs.contains(tabs[i2]) && tabs[i2] != new_root
                && 0 <= i2 < i && m0.word(pte_location(root, i2)) != 0,
            forall|p: (int, int)| #[trigger] pages.contains_key(p) ==> fs.contains(pages[p]) && pages[p] != new_root
                && 0 <= p.0 < i && 0 <= p.1 < 1024 && tabs.contains_key(p.0)
                && m0.word(pte_location(pte_addr_of(m0.word(pte_location(root, p.0))), p.1)) != 0,
            forall|i1: int, i2: int| #[trigger] tabs.contains_key(i1) && #[trigger] tabs.contains_key(i2) && i1 != i2
                ==> tabs[i1] != tabs[i2],
            forall|p: (int, int), i2: int| #[trigger] pages.contains_key(p) && #[trigger] tabs.contains_key(i2)
                ==> pages[p] != tabs[i2],
            forall|p1: (int, int), p2: (int, int)| #[trigger] pages.contains_key(p1) && #[trigger] pages.contains_key(p2)
                && p1 != p2 ==> pages[p1] != pages[p2],
            forall|i2: int| 0 <= i2 < i ==> #[trigger] l1_copied(&m0, mem, root, new_root, tabs, pages, i2),
            forall|i2: int| i <= i2 < 1024 ==> #[trigger] mem.word(pte_location(new_root, i2)) == 0,
            !empty ==> has_leaf(&m0, root),
            empty ==> forall|i2: int, j2: int| 0 <= i2 < i && 0 <= j2 < 1024
                && #[trigger] m0.word(pte_location(root, i2)) != 0
                ==> #[trigger] m0.word(pte_location(pte_addr_of(m0.word(pte_location(root, i2))), j2)) == 0,
        decreases NUM_PTE - i,
    {
        // Check if the PTE is empty
        let mut pte: PageTableEntry = pgt1.read_pte(i, mem);
        proof {
            let rk = space_frames(&m0, root).len() - 1;
            assert(space_frames(&m0, root)[rk] == root);
            lemma_used_word_kept(&m0, mem, &a0, fs, root, i as int);
        }
        let ghost e = m0.word(pte_location(root, i as int));
        let ghost sf_i = space_frames_from(&m0, root, i as int);
        let ghost sf_next = space_frames_from(&m0, root, i + 1);
        if pte != PageTableEntry::new(0) {
            let ghost t = pte_addr_of(e);
            proof {
                assert(e != 0);
                assert(sf_i == leaf_frames_from(&m0, t, 0) + seq![t] + sf_next);
            }
            // Allocate a new physical addr for the next pagetable in new_pgt1
            let ghost f0 = *falloc;
            addr_opt = kmalloc(falloc);
            addr = match addr_opt {
                Some(a) => a,
                None => {
                    proof {
                        if free_count(falloc) > 0 {
                            lemma_free_not_exhausted(falloc);
                        }
                    }
                    proof {
                        a0.lemma_wf_bounds();
                        assert forall|i2: int| #[trigger] tabs.contains_key(i2) implies 0 <= i2 <= i as int && i2 < 1024
                            && m0.word(pte_location(root, i2)) != 0 && tabs[i2] != 0 && tabs[i2] != new_root by {
                            assert(fs.contains(tabs[i2]));
                        }
                        assert forall|p: (int, int)| #[trigger] pages.contains_key(p) implies tabs.contains_key(p.0) && 0 <= p.1 < 1024
                            && (p.0 == i as int ==> p.1 < 0) && pages[p] != 0 && pages[p] != new_root
                            && m0.word(pte_location(pte_addr_of(m0.word(pte_location(root, p.0))), p.1)) != 0 by {
                            assert(fs.contains(pages[p]));
                        }
                        lemma_copy_names(&m0, mem, root, new_root, tabs, pages, i as int, 0);
                        lemma_copy_frames(mem, new_root, tabs, pages, fs);
                    }
                    free_partial_copy(new_pgt1, mem, falloc, Ghost(a0), Ghost(fs));
                    return None;
                },
            };
            let ghost nt = addr@;
            proof {
                lemma_alloc_count(&f0, falloc, nt);
                lemma_alloc_keeps_used(&f0, falloc, nt);
                a0.lemma_wf_bounds();
                assert forall|b: int| #[trigger] a0.is_frame(b) && a0.used(b) implies falloc.used(b) by {
                    assert(f0.used(b));
                    assert(f0.is_frame(b));
                }
                assert(!fs.contains(nt));
                assert(free_frames(&f0).contains(nt as int));
                assert forall|x: u64| #[trigger] fs.insert(nt).contains(x) implies free_frames(&a0).contains(x as int)
                    && !free_frames(falloc).contains(x as int) && a0.is_frame(x as int) by {
                    if x != nt {
                        assert(fs.contains(x));
                    }
                }
                // The table is a frame of the address space, used at the start.
                lemma_table_in_space(&m0, root, 0, i as int);
                let kt = choose|k: int| 0 <= k < space_frames_from(&m0, root, 0).len()
                    && space_frames_from(&m0, root, 0)[k] == t;
                assert(space_frames(&m0, root)[kt] == t);
            }
            // Level 0 page tables
            let pgt0: PageTable = PageTable::new(pte.get_addr());
            let new_pgt0: PageTable = PageTable::new(addr);
            // Save new address in the PTE
            pte.set_addr(addr);
            // Save PTE in the page table
            let ghost m_before = *mem;
            new_pgt1.write_pte(pte, i, mem);
            let ghost fs1 = fs;
            let ghost tabs1 = tabs;
            proof {
                let lo = pte_location(new_root, i as int);
                // Earlier level 1 PTEs stay copied: the write is in the
                // new root, at another slot.
                assert forall|i2: int| 0 <= i2 < i implies #[trigger] l1_copied(&m0, mem, root, new_root, tabs1.insert(i as int, nt), pages, i2) by {
                    assert(l1_copied(&m0, &m_before, root, new_root, tabs1, pages, i2));
                    if m0.word(pte_location(root, i2)) != 0 {
                        assert(tabs1.contains_key(i2));
                        assert(fs1.contains(tabs1[i2]));
                        lemma_frames_disjoint(tabs1[i2], new_root);
                        assert forall|j: int| 0 <= j < 1024 && #[trigger] pages.contains_key((i2, j)) implies
                            pages[(i2, j)] + 4096 <= u64::MAX && (lo + 4 <= pages[(i2, j)] || pages[(i2, j)] + 4096 <= lo) by {
                            assert(fs1.contains(pages[(i2, j)]));
                            lemma_frames_disjoint(pages[(i2, j)], new_root);
                        }
                    }
                    lemma_l1_copied_kept(&m0, &m_before, mem, root, new_root, tabs1, pages, i2, lo, lo + 4);
                    assert(l1_copied(&m0, mem, root, new_root, tabs1, pages, i2) ==>
                        l1_copied(&m0, mem, root, new_root, tabs1.insert(i as int, nt), pages, i2));
                }
                assert forall|a: int| 0 <= a < 0x1_0000_0000_0000_0000 && #[trigger] mem.byte(a) != m0.byte(a) implies
                    exists|x: u64| #[trigger] fs1.insert(nt).contains(x) && in_frame(x, a) by {
                    if lo <= a < lo + 4 {
                        assert(fs1.insert(nt).contains(new_root) && in_frame(new_root, a));
                    } else {
                        let x = choose|x: u64| #[trigger] fs1.contains(x) && in_frame(x, a);
                        assert(fs1.insert(nt).contains(x));
                    }
                }
                fs = fs1.insert(nt);
                tabs = tabs1.insert(i as int, nt);
                assert forall|b: int| #[trigger] free_frames(falloc).contains(b) == (free_frames(&a0).contains(b)
                    && !fs.contains(b as u64)) by {
                    assert(free_frames(&f0).contains(b) == (free_frames(&a0).contains(b) && !fs1.contains(b as u64)));
                    if free_frames(&a0).contains(b) {
                        assert(0 <= b < 0x4_0000_0000);
                        assert((b as u64) as int == b);
                    }
                }
                assert forall|x: u64| #[trigger] fs.contains(x) <==> {
                    ||| x == new_root
                    ||| exists|i2: int| tabs.contains_key(i2) && #[trigger] tabs[i2] == x
                    ||| exists|p: (int, int)| pages.contains_key(p) && #[trigger] pages[p] == x
                } by {
                    if x == nt {
                        assert(tabs.contains_key(i as int) && tabs[i as int] == x);
                    } else if fs1.contains(x) {
                        if exists|i2: int| tabs1.contains_key(i2) && #[trigger] tabs1[i2] == x {
                            let i2 = choose|i2: int| tabs1.contains_key(i2) && #[trigger] tabs1[i2] == x;
                            assert(tabs.contains_key(i2) && tabs[i2] == x);
                        }
                    } else {
                        if exists|i2: int| tabs.contains_key(i2) && #[trigger] tabs[i2] == x {
                            let i2 = choose|i2: int| tabs.contains_key(i2) && #[trigger] tabs[i2] == x;
                            assert(i2 != i);
                            assert(tabs1.contains_key(i2) && tabs1[i2] == x);
                        }
                    }
                }
                lemma_set_frame_addr(e, nt);
                assert forall|i2: int| i < i2 < 1024 implies #[trigger] mem.word(pte_location(new_root, i2)) == 0 by {
                    assert(m_before.word(pte_location(new_root, i2)) == 0);
                    crate::memory::phys_mem::lemma_word_kept(&m_before, mem, lo, lo + 4, pte_location(new_root, i2));
                }
            }
            // Clear the new level 0 table
            let ghost m_p = *mem;
            new_pgt0.pageset(0, mem);
            proof {
                lemma_frames_disjoint(nt, new_root);
                assert forall|i2: int| 0 <= i2 < i implies #[trigger] l1_copied(&m0, mem, root, new_root, tabs, pages, i2) by {
                    assert(l1_copied(&m0, &m_p, root, new_root, tabs, pages, i2));
                    if m0.word(pte_location(root, i2)) != 0 {
                        assert(tabs.contains_key(i2));
                        assert(fs.contains(tabs[i2]));
                        assert(tabs[i2] != nt);
                        lemma_frames_disjoint(tabs[i2], nt);
                        assert forall|jj: int| 0 <= jj < 1024 && #[trigger] pages.contains_key((i2, jj)) implies
                            pages[(i2, jj)] + 4096 <= u64::MAX && (nt + 4096 <= pages[(i2, jj)] || pages[(i2, jj)] + 4096 <= nt) by {
                            assert(fs.contains(pages[(i2, jj)]));
                            lemma_frames_disjoint(pages[(i2, jj)], nt);
                        }
                    }
                    lemma_l1_copied_kept(&m0, &m_p, mem, root, new_root, tabs, pages, i2, nt as int, nt + 4096);
                }
                assert forall|i2: int| i <= i2 < 1024 implies #[trigger] mem.word(pte_location(new_root, i2))
                    == m_p.word(pte_location(new_root, i2)) by {
                    lemma_word_other_frame(&m_p, mem, nt, new_root, i2);
                }
                assert forall|j2: int| 0 <= j2 < 1024 implies #[trigger] mem.word(pte_location(nt, j2)) == 0 by {
                    lemma_cleared_table(mem, nt, j2);
                }
                assert forall|a: int| 0 <= a < 0x1_0000_0000_0000_0000 && #[trigger] mem.byte(a) != m0.byte(a) implies
                    exists|x: u64| #[trigger] fs.contains(x) && in_frame(x, a) by {
                    if nt <= a < nt + 4096 {
                        assert(fs.contains(nt) && in_frame(nt, a));
                    } else {
                        assert(mem.byte(a) == m_p.byte(a));
                    }
                }
            }
            // Walk through level 0
            let mut j: usize = 0;
            while j < NUM_PTE
                invariant
                    0 <= i < NUM_PTE,
                    0 <= j <= NUM_PTE,
                    root == pgt1@,
                    root + 4096 <= u64::MAX,
                    new_pgt1@ == new_root,
                    pgt0@ == t,
                    new_pgt0@ == nt,
                    t == pte_addr_of(e),
                    e == m0.word(pte_location(root, i as int)),
                    e != 0,
                    t < 0x4_0000_0000,
                    m0 == *old(mem),
                    a0 == *old(falloc),
                    a0.wf(),
                    falloc.wf(),
                    falloc.initialized(),
                    falloc.start() == a0.start(),
                    falloc.kernel_end() == a0.kernel_end(),
                    a0.start() > 0,
                    forall|b: int| #[trigger] free_frames(falloc).contains(b) ==> free_frames(&a0).contains(b),
                    forall|b: int| #[trigger] free_frames(falloc).contains(b) == (free_frames(&a0).contains(b)
                        && !fs.contains(b as u64)),
                    forall|b: int| #[trigger] a0.is_frame(b) && a0.used(b) ==> falloc.used(b),
                    forall|x: u64| #[trigger] fs.contains(x) ==> free_frames(&a0).contains(x as int)
                        && !free_frames(falloc).contains(x as int) && a0.is_frame(x as int),
                    forall|x: u64| #[trigger] fs.contains(x) <==> {
                        ||| x == new_root
                        ||| exists|i2: int| tabs.contains_key(i2) && #[trigger] tabs[i2] == x
                        ||| exists|p: (int, int)| pages.contains_key(p) && #[trigger] pages[p] == x
                    },
                    sf_i == space_frames_from(&m0, root, i as int),
                    sf_next == space_frames_from(&m0, root, i + 1),
                    sf_i == leaf_frames_from(&m0, t, 0) + seq![t] + sf_next,
                    free_count(falloc) + 1 + space_frames_from(&m0, root, 0).len() - sf_i.len()
                        + (leaf_frames_from(&m0, t, 0).len() + 1 - leaf_frames_from(&m0, t, j as int).len())
                        == free_count(&a0),
                    forall|k: int| 0 <= k < space_frames(&m0, root).len() ==> {
                        let x = #[trigger] space_frames(&m0, root)[k] as int;
                        a0.is_frame(x) && a0.used(x)
                    },
                    space_frames(&m0, root) == space_frames_from(&m0, root, 0).push(root),
                    a0.is_frame(t as int) && a0.used(t as int),
                    forall|a: int| 0 <= a < 0x1_0000_0000_0000_0000 && #[trigger] mem.byte(a) != m0.byte(a) ==>
                        exists|x: u64| #[trigger] fs.contains(x) && in_frame(x, a),
                    fs.contains(new_root),
                    fs.contains(nt),
                    tabs.contains_key(i as int),
                    tabs[i as int] == nt,
                    nt != new_root,
                    forall|i2: int| #[trigger] tabs.contains_key(i2) ==> fs.contains(tabs[i2]) && tabs[i2] != new_root
                        && 0 <= i2 <= i && m0.word(pte_location(root, i2)) != 0,
                    forall|p: (int, int)| #[trigger] pages.contains_key(p) ==> fs.contains(pages[p]) && pages[p] != new_root
                        && 0 <= p.0 <= i && (p.0 == i ==> 0 <= p.1 < j) && 0 <= p.1 < 1024 && tabs.contains_key(p.0)
                        && m0.word(pte_location(pte_addr_of(m0.word(pte_location(root, p.0))), p.1)) != 0,
                    forall|i1: int, i2: int| #[trigger] tabs.contains_key(i1) && #[trigger] tabs.contains_key(i2) && i1 != i2
                        ==> tabs[i1] != tabs[i2],
                    forall|p: (int, int), i2: int| #[trigger] pages.contains_key(p) && #[trigger] tabs.contains_key(i2)
                        ==> pages[p] != tabs[i2],
                    forall|p1: (int, int), p2: (int, int)| #[trigger] pages.contains_key(p1) && #[trigger] pages.contains_key(p2)
                        && p1 != p2 ==> pages[p1] != pages[p2],
                    forall|i2: int| 0 <= i2 < i ==> #[trigger] l1_copied(&m0, mem, root, new_root, tabs, pages, i2),
                    mem.word(pte_location(new_root, i as int)) == pte_with_addr(e, nt),
                    forall|j2: int| 0 <= j2 < j ==> #[trigger] leaf_copied(&m0, mem, t, nt, pages, i as int, j2),
                    forall|j2: int| j <= j2 < 1024 ==> #[trigger] mem.word(pte_location(nt, j2)) == 0,
                    forall|i2: int| i < i2 < 1024 ==> #[trigger] mem.word(pte_location(new_root, i2)) == 0,
                    pte_addr_of(pte_with_addr(e, nt)) == nt,
                    !empty ==> has_leaf(&m0, root),
                    empty ==> forall|i2: int, j2: int| 0 <= i2 < i && 0 <= j2 < 1024
                        && #[trigger] m0.word(pte_location(root, i2)) != 0
                        ==> #[trigger] m0.word(pte_location(pte_addr_of(m0.word(pte_location(root, i2))), j2)) == 0,
                    empty ==> forall|j2: int| 0 <= j2 < j ==> #[trigger] m0.word(pte_location(t, j2)) == 0,
                decreases NUM_PTE - j,
            {
                proof {
                    lemma_used_word_kept(&m0, mem, &a0, fs, t, j as int);
                }
                pte = pgt0.read_pte(j, mem);
                let ghost l = m0.word(pte_location(t, j as int));
                if pte != PageTableEntry::new(0) {
                    proof {
                        assert(l != 0);
                        assert(leaf_frames_from(&m0, t, j as int) == seq![pte_addr_of(l)] + leaf_frames_from(&m0, t, j + 1));
                    }
                    let ghost f1 = *falloc;
                    addr_opt = kmalloc(falloc);
                    addr = match addr_opt {
                        Some(a) => a,
                        None => {
                            proof {
                                if free_count(falloc) > 0 {
                                    lemma_free_not_exhausted(falloc);
                                }
                            }
                            proof {
                                a0.lemma_wf_bounds();
                                assert forall|i2: int| #[trigger] tabs.contains_key(i2) implies 0 <= i2 <= i as int && i2 < 1024
                                    && m0.word(pte_location(root, i2)) != 0 && tabs[i2] != 0 && tabs[i2] != new_root by {
                                    assert(fs.contains(tabs[i2]));
                                }
                                assert forall|p: (int, int)| #[trigger] pages.contains_key(p) implies tabs.contains_key(p.0) && 0 <= p.1 < 1024
                                    && (p.0 == i as int ==> p.1 < j as int) && pages[p] != 0 && pages[p] != new_root
                                    && m0.word(pte_location(pte_addr_of(m0.word(pte_location(root, p.0))), p.1)) != 0 by {
                                    assert(fs.contains(pages[p]));
                                }
                                lemma_copy_names(&m0, mem, root, new_root, tabs, pages, i as int, j as int);
                                lemma_copy_frames(mem, new_root, tabs, pages, fs);
                            }
                            free_partial_copy(new_pgt1, mem, falloc, Ghost(a0), Ghost(fs));
                            return None;
                        },
                    };
                    empty = false;
                    proof {
                        assert(m0.word(pte_location(root, i as int)) != 0
                            && m0.word(pte_location(pte_addr_of(m0.word(pte_location(root, i as int))), j as int)) != 0);
                    }
                    let ghost pg = addr@;
                    let ghost src = pte_addr_of(l);
                    proof {
                        lemma_alloc_count(&f1, falloc, pg);
                        lemma_alloc_keeps_used(&f1, falloc, pg);
                        a0.lemma_wf_bounds();
                        assert forall|b: int| #[trigger] a0.is_frame(b) && a0.used(b) implies falloc.used(b) by {
                            assert(f1.used(b));
                            assert(f1.is_frame(b));
                        }
                        assert(!fs.contains(pg));
                        assert(free_frames(&f1).contains(pg as int));
                        assert forall|x: u64| #[trigger] fs.insert(pg).contains(x) implies free_frames(&a0).contains(x as int)
                            && !free_frames(falloc).contains(x as int) && a0.is_frame(x as int) by {
                            if x != pg {
                                assert(fs.contains(x));
                            }
                        }
                        lemma_pte_addr_aligned(l);
                        // The page is a frame of the address space, used at the start.
                        lemma_leaf_in_space(&m0, root, 0, i as int, j as int);
                        let kp = choose|k: int| 0 <= k < space_frames_from(&m0, root, 0).len()
                            && space_frames_from(&m0, root, 0)[k] == src;
                        assert(space_frames(&m0, root)[kp] == src);
                        assert(a0.is_frame(src as int) && a0.used(src as int));
                    }
                    // Copy contents
                    let ghost m_c = *mem;
                    mem.copy(addr.as_integer(), pte.get_addr().as_integer(), PAGE_SIZE);
                    proof {
                        assert forall|k: int| 0 <= k < 4096 implies #[trigger] mem.byte(pg + k) == m0.byte(src + k) by {
                            assert(mem.byte(pg + k) == m_c.byte(src + k));
                            lemma_used_frame_kept(&m0, &m_c, &a0, fs, src, src + k);
                        }
                    }
                    // Save pte
                    pte.set_addr(addr);
                    let ghost m_w = *mem;
                    new_pgt0.write_pte(pte, j, mem);
                    let ghost fs2 = fs;
                    let ghost pages2 = pages;
                    proof {
                        let lo = pte_location(nt, j as int);
                        let pages3 = pages2.insert((i as int, j as int), pg);
                        lemma_frames_disjoint(pg, nt);
                        lemma_frames_disjoint(pg, new_root);
                        lemma_frames_disjoint(nt, new_root);
                        // Earlier level 1 PTEs stay copied
                        assert forall|i2: int| 0 <= i2 < i implies #[trigger] l1_copied(&m0, mem, root, new_root, tabs, pages3, i2) by {
                            assert(l1_copied(&m0, &m_c, root, new_root, tabs, pages2, i2));
                            if m0.word(pte_location(root, i2)) != 0 {
                                assert(tabs.contains_key(i2));
                                assert(fs2.contains(tabs[i2]));
                                lemma_frames_disjoint(tabs[i2], pg);
                                lemma_frames_disjoint(tabs[i2], nt);
                                assert forall|jj: int| 0 <= jj < 1024 && #[trigger] pages2.contains_key((i2, jj)) implies
                                    pages2[(i2, jj)] + 4096 <= u64::MAX
                                    && (pg + 4096 <= pages2[(i2, jj)] || pages2[(i2, jj)] + 4096 <= pg)
                                    && (lo + 4 <= pages2[(i2, jj)] || pages2[(i2, jj)] + 4096 <= lo) by {
                                    assert(fs2.contains(pages2[(i2, jj)]));
                                    lemma_frames_disjoint(pages2[(i2, jj)], pg);
                                    lemma_frames_disjoint(pages2[(i2, jj)], nt);
                                }
                            }
                            lemma_l1_copied_kept(&m0, &m_c, &m_w, root, new_root, tabs, pages2, i2, pg as int, pg + 4096);
                            lemma_l1_copied_kept(&m0, &m_w, mem, root, new_root, tabs, pages2, i2, lo, lo + 4);
                            if m0.word(pte_location(root, i2)) != 0 {
                                let tt = pte_addr_of(m0.word(pte_location(root, i2)));
                                assert forall|jj: int| 0 <= jj < 1024 implies
                                    #[trigger] leaf_copied(&m0, mem, tt, tabs[i2], pages3, i2, jj) by {
                                    assert(leaf_copied(&m0, mem, tt, tabs[i2], pages2, i2, jj));
                                }
                            }
                        }
                        // Earlier leaves of this table stay copied
                        assert forall|j2: int| 0 <= j2 < j implies #[trigger] leaf_copied(&m0, mem, t, nt, pages3, i as int, j2) by {
                            assert(leaf_copied(&m0, &m_c, t, nt, pages2, i as int, j2));
                            if m0.word(pte_location(t, j2)) != 0 {
                                assert(fs2.contains(pages2[(i as int, j2)]));
                                lemma_frames_disjoint(pages2[(i as int, j2)], pg);
                                lemma_frames_disjoint(pages2[(i as int, j2)], nt);
                            }
                            lemma_leaf_copied_kept(&m0, &m_c, &m_w, t, nt, pages2, i as int, j2, pg as int, pg + 4096);
                            lemma_leaf_copied_kept(&m0, &m_w, mem, t, nt, pages2, i as int, j2, lo, lo + 4);
                        }
                        // This leaf is copied
                        assert forall|k: int| 0 <= k < 4096 implies #[trigger] mem.byte(pg + k) == m0.byte(src + k) by {
                            assert(m_w.byte(pg + k) == m0.byte(src + k));
                        }
                        lemma_set_frame_addr(l, pg);
                        assert(leaf_copied(&m0, mem, t, nt, pages3, i as int, j as int));
                        // The cleared PTEs still to be written stay zero
                        lemma_frames_disjoint(pg, nt);
                        assert forall|j2: int| j < j2 < 1024 implies #[trigger] mem.word(pte_location(nt, j2)) == 0 by {
                            assert(m_c.word(pte_location(nt, j2)) == 0);
                            lemma_word_other_frame(&m_c, &m_w, pg, nt, j2);
                            crate::memory::phys_mem::lemma_word_kept(&m_w, mem, lo, lo + 4, pte_location(nt, j2));
                        }
                        assert forall|i2: int| i < i2 < 1024 implies #[trigger] mem.word(pte_location(new_root, i2)) == 0 by {
                            assert(m_c.word(pte_location(new_root, i2)) == 0);
                            lemma_word_other_frame(&m_c, &m_w, pg, new_root, i2);
                            lemma_word_other_frame(&m_w, mem, nt, new_root, i2);
                        }
                        // The new level 1 PTE stays
                        crate::memory::phys_mem::lemma_word_kept(&m_c, &m_w, pg as int, pg + 4096, pte_location(new_root, i as int));
                        crate::memory::phys_mem::lemma_word_kept(&m_w, mem, lo, lo + 4, pte_location(new_root, i as int));
                        // Changed bytes lie in new frames
                        assert forall|a: int| 0 <= a < 0x1_0000_0000_0000_0000 && #[trigger] mem.byte(a) != m0.byte(a) implies
                            exists|x: u64| #[trigger] fs2.insert(pg).contains(x) && in_frame(x, a) by {
                            if lo <= a < lo + 4 {
                                assert(fs2.insert(pg).contains(nt) && in_frame(nt, a));
                            } else if pg <= a < pg + 4096 {
                                assert(fs2.insert(pg).contains(pg) && in_frame(pg, a));
                            } else {
                                assert(mem.byte(a) == m_c.byte(a));
                                let x = choose|x: u64| #[trigger] fs2.contains(x) && in_frame(x, a);
                                assert(fs2.insert(pg).contains(x));
                            }
                        }
                        fs = fs2.insert(pg);
                        pages = pages3;
                        assert forall|b: int| #[trigger] free_frames(falloc).contains(b) == (free_frames(&a0).contains(b)
                            && !fs.contains(b as u64)) by {
                            assert(free_frames(&f1).contains(b) == (free_frames(&a0).contains(b) && !fs2.contains(b as u64)));
                            if free_frames(&a0).contains(b) {
                                assert(0 <= b < 0x4_0000_0000);
                                assert((b as u64) as int == b);
                            }
                        }
                        assert forall|x: u64| #[trigger] fs.contains(x) <==> {
                            ||| x == new_root
                            ||| exists|i2: int| tabs.contains_key(i2) && #[trigger] tabs[i2] == x
                            ||| exists|p: (int, int)| pages.contains_key(p) && #[trigger] pages[p] == x
                        } by {
                            if x == pg {
                                assert(pages.contains_key((i as int, j as int)) && pages[(i as int, j as int)] == x);
                            } else if fs2.contains(x) {
                                if exists|p: (int, int)| pages2.contains_key(p) && #[trigger] pages2[p] == x {
                                    let p = choose|p: (int, int)| pages2.contains_key(p) && #[trigger] pages2[p] == x;
                                    assert(pages.contains_key(p) && pages[p] == x);
                                }
                            } else {
                                if exists|p: (int, int)| pages.contains_key(p) && #[trigger] pages[p] == x {
                                    let p = choose|p: (int, int)| pages.contains_key(p) && #[trigger] pages[p] == x;
                                    assert(p != (i as int, j as int));
                                    assert(pages2.contains_key(p) && pages2[p] == x);
                                }
                            }
                        }
                    }
                } else {
                    proof {
                        assert(l == 0);
                        assert(leaf_frames_from(&m0, t, j as int) == leaf_frames_from(&m0, t, j + 1));
                        assert(leaf_copied(&m0, mem, t, nt, pages, i as int, j as int));
                    }
                }
                j = j + 1;
            }
            proof {
                assert(l1_copied(&m0, mem, root, new_root, tabs, pages, i as int));
                assert(leaf_frames_from(&m0, t, 1024) == Seq::<u64>::empty());
            }
        } else {
            proof {
                assert(e == 0);
                assert(sf_i == sf_next);
                assert(l1_copied(&m0, mem, root, new_root, tabs, pages, i as int));
            }
        }
        i = i + 1;
    }
    proof {
        assert(space_frames_from(&m0, root, 1024) == Seq::<u64>::empty());
        if empty && has_leaf(&m0, root) {
            let (i0, j0) = choose|i0: int, j0: int| 0 <= i0 < 1024 && 0 <= j0 < 1024
                && #[trigger] m0.word(pte_location(root, i0)) != 0
                && #[trigger] m0.word(pte_location(pte_addr_of(m0.word(pte_location(root, i0))), j0)) != 0;
            assert(false);
        }
        assert(space_copied(&m0, mem, root, new_root, tabs, pages));
    }
    if empty {
        proof {
            a0.lemma_wf_bounds();
            assert forall|i2: int| #[trigger] tabs.contains_key(i2) implies 0 <= i2 <= 1024 && i2 < 1024
                && m0.word(pte_location(root, i2)) != 0 && tabs[i2] != 0 && tabs[i2] != new_root by {
                assert(fs.contains(tabs[i2]));
            }
            assert forall|p: (int, int)| #[trigger] pages.contains_key(p) implies tabs.contains_key(p.0) && 0 <= p.1 < 1024
                && (p.0 == 1024 ==> p.1 < 0) && pages[p] != 0 && pages[p] != new_root
                && m0.word(pte_location(pte_addr_of(m0.word(pte_location(root, p.0))), p.1)) != 0 by {
                assert(fs.contains(pages[p]));
            }
            lemma_copy_names(&m0, mem, root, new_root, tabs, pages, 1024, 0);
            lemma_copy_frames(mem, new_root, tabs, pages, fs);
        }
        free_partial_copy(new_pgt1, mem, falloc, Ghost(a0), Ghost(fs));
        return None;
    }
    proof {
        assert(space_copied(old(mem), mem, pgt1@, new_pgt1@, tabs, pages));
        a0.lemma_wf_bounds();
        assert forall|i2: int| #[trigger] tabs.contains_key(i2) implies 0 <= i2 <= 1024 && i2 < 1024
            && m0.word(pte_location(root, i2)) != 0 && tabs[i2] != 0 && tabs[i2] != new_root by {
            assert(fs.contains(tabs[i2]));
        }
        assert forall|p: (int, int)| #[trigger] pages.contains_key(p) implies tabs.contains_key(p.0) && 0 <= p.1 < 1024
            && (p.0 == 1024 ==> p.1 < 0) && pages[p] != 0 && pages[p] != new_root
            && m0.word(pte_location(pte_addr_of(m0.word(pte_location(root, p.0))), p.1)) != 0 by {
            assert(fs.contains(pages[p]));
        }
        lemma_copy_names(&m0, mem, root, new_root, tabs, pages, 1024, 0);
        lemma_copy_frames(mem, new_root, tabs, pages, fs);
        assert forall|x: u64| #[trigger] fs.contains(x) <==> taken(&a0, falloc, x) by {
            if taken(&a0, falloc, x) {
                assert(free_frames(falloc).contains(x as int) == (free_frames(&a0).contains(x as int)
                    && !fs.contains((x as int) as u64)));
            }
        }
        assert(copy_fresh(&a0, falloc, new_root, tabs, pages)) by {
            assert forall|i2: int| #[trigger] tabs.contains_key(i2) implies taken(&a0, falloc, tabs[i2]) by {
                assert(fs.contains(tabs[i2]));
            }
            assert forall|p: (int, int)| #[trigger] pages.contains_key(p) implies taken(&a0, falloc, pages[p]) by {
                assert(fs.contains(pages[p]));
            }
        }
    }
    let r: Option<PageTable> = Some(new_pgt1);
    proof {
        assert(r->0@ == new_root);
        assert(space_copied(old(mem), mem, pgt1@, r->0@, tabs, pages));
        assert(copy_fresh(old(falloc), falloc, r->0@, tabs, pages));
    }
    r
}

/// Setting the address of a PTE and reading it back gives the page
/// of the address, for any physical address of Sv32 (34 bits); and
/// the flags of the PTE are left alone.
pub proof fn lemma_pte_addr_round_trip(bits: u32, a: u64)
    requires
        a < 0x4_0000_0000,
    ensures
        pte_addr_of(pte_with_addr(bits, a)) == page_floor(a),
        pte_with_addr(bits, a) & 0x3ff == bits & 0x3ff,
{
    assert(a < 0x4_0000_0000u64 ==> (((((bits & 0x3FFu32) | (((a >> 12u64) << 10u64) as u32)) as u64) >> 10u64) << 12u64)
        == a & !0xFFFu64) by (bit_vector);
    assert(((bits & 0x3FFu32) | (((a >> 12u64) << 10u64) as u32)) & 0x3ffu32 == bits & 0x3ffu32) by (bit_vector);
}

/// Setting a frame address in a PTE and reading it back gives the
/// frame.
pub proof fn lemma_set_frame_addr(bits: u32, f: u64)
    requires
        f % 4096 == 0,
        f < 0x4_0000_0000,
    ensures
        pte_addr_of(pte_with_addr(bits, f)) == f,
{
    lemma_pte_addr_round_trip(bits, f);
    assert(f % 4096 == 0 ==> f & !0xFFFu64 == f) by (bit_vector);
}

/// The satp value of a page table holds the Sv32 mode bit and the
/// number of its root page, from which the root address comes back.
pub proof fn lemma_satp_round_trip(addr: u64)
    requires
        addr < 0x4_0000_0000,
        addr % 4096 == 0,
    ensures
        (SATP_SV32 | ((addr >> 12u64) as usize)) >> 31usize == 1,
        ((((SATP_SV32 | ((addr >> 12u64) as usize)) & 0x3f_ffffusize) as u64) << 12u64) == addr,
{
    assert(addr % 4096 == 0 ==> addr & 0xFFFu64 == 0) by (bit_vector);
    assert(addr < 0x4_0000_0000u64 && addr & 0xFFFu64 == 0 ==> (0x8000_0000usize | ((addr >> 12u64) as usize)) >> 31usize == 1usize
        && (((((0x8000_0000usize | ((addr >> 12u64) as usize)) & 0x3f_ffffusize) as u64) << 12u64) == addr)) by (bit_vector);
}

} // verus!
