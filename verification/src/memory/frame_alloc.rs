//! Allocate and free physical memory frames.
//!
//! A bitmap holds one bit per frame of RAM (`0`: free,
//! `1`: used), counting from the first address of the kernel.

use vstd::prelude::*;
use crate::config::constants::{RAM_SIZE, PAGE_SIZE};
use crate::riscv::memory_types::Addr;
use super::memory_layout::{first_addr, last_addr};

verus! {

/// Size of the frame bitmap. RAM_SIZE is divided by PAGE_SIZE * 8
/// because the bits map the first addresses of the pages and the
/// bits are inside the 8-bit integers in the array.
pub const BITMAP_SIZE: usize = RAM_SIZE / (PAGE_SIZE * 8);

/// Number of frames of RAM, one per bit of the bitmap.
pub const NUM_FRAMES: usize = RAM_SIZE / PAGE_SIZE;

/// Highest physical address (exclusive) of the Sv32 scheme.
pub const PHYS_LIMIT: u64 = 0x4_0000_0000;

/// Bit `j` of the byte `b`.
pub open spec fn bit_of(b: u8, j: int) -> bool {
    (b >> (j as u8)) & 1u8 == 1u8
}

/// The sizes of the bitmap.
pub proof fn lemma_bitmap_sizes()
    ensures
        RAM_SIZE == 134217728,
        BITMAP_SIZE == 4096,
        NUM_FRAMES == 32768,
{
    assert(RAM_SIZE == 134217728);
    assert(134217728usize / 32768usize == 4096usize) by (nonlinear_arith);
    assert(134217728usize / 4096usize == 32768usize) by (nonlinear_arith);
}

proof fn lemma_write_bit(b: u8, j: u8, bit: u8)
    requires
        j < 8,
        bit <= 1,
    ensures
        bit_of((b & !(1u8 << j)) | (bit << j), j as int) == (bit == 1),
        forall|k: u8| k < 8 && k != j ==>
            #[trigger] bit_of((b & !(1u8 << j)) | (bit << j), k as int) == bit_of(b, k as int),
{
    assert(((((b & !(1u8 << j)) | (bit << j)) >> j) & 1u8 == 1u8) == (bit == 1u8)) by (bit_vector)
        requires j < 8u8, bit <= 1u8;
    assert forall|k: u8| k < 8 && k != j implies
        #[trigger] bit_of((b & !(1u8 << j)) | (bit << j), k as int) == bit_of(b, k as int) by {
        assert(((((b & !(1u8 << j)) | (bit << j)) >> k) & 1u8 == 1u8) == ((b >> k) & 1u8 == 1u8))
            by (bit_vector)
            requires j < 8u8, bit <= 1u8, k < 8u8, k != j;
    }
}

/// The frame bitmap and the last allocated frame address, which
/// may help when searching for a new frame to allocate.
pub struct FrameAllocator {
    bitmap: Vec<u8>,
    latest: u64,
    skernel: u64,
    ekernel: u64,
}

impl FrameAllocator {
    /// First address of the kernel, where the bitmap count starts.
    pub closed spec fn start(&self) -> u64 {
        self.skernel
    }

    /// Last address of the kernel memory.
    pub closed spec fn kernel_end(&self) -> u64 {
        self.ekernel
    }

    /// Last freed or allocated frame address.
    pub closed spec fn latest(&self) -> u64 {
        self.latest
    }

    /// First frame that can be allocated.
    pub open spec fn first(&self) -> int {
        if self.kernel_end() % 4096 == 0 {
            self.kernel_end() as int
        } else {
            (self.kernel_end() / 4096 + 1) * 4096
        }
    }

    /// End of RAM (exclusive).
    pub open spec fn last(&self) -> int {
        self.start() + RAM_SIZE
    }

    /// The bits of the bitmap, one per frame.
    pub closed spec fn bits(&self) -> Seq<bool> {
        Seq::new(NUM_FRAMES as nat, |k: int| bit_of(self.bitmap@[k / 8], k % 8))
    }

    /// Position in the bitmap of the frame holding `a`.
    pub open spec fn index_of(&self, a: int) -> int {
        (a - self.start()) / 4096
    }

    /// Whether the frame at `a` is marked as used.
    pub open spec fn used(&self, a: int) -> bool {
        self.bits()[self.index_of(a)]
    }

    /// Whether `a` is the address of a frame that the allocator
    /// hands out.
    pub open spec fn is_frame(&self, a: int) -> bool {
        &&& a % 4096 == 0
        &&& self.first() <= a < self.last()
    }

    /// Well-formedness: the bitmap has its size, the kernel lies in
    /// RAM, RAM lies in the Sv32 physical address space and the last
    /// frame address is page aligned.
    pub closed spec fn wf(&self) -> bool {
        &&& self.bitmap@.len() == BITMAP_SIZE
        &&& self.skernel <= self.ekernel <= self.skernel + RAM_SIZE
        &&& self.skernel + RAM_SIZE + PAGE_SIZE <= PHYS_LIMIT
        &&& self.latest % 4096 == 0
        &&& self.latest <= self.skernel + RAM_SIZE + PAGE_SIZE
    }

    /// Whether the last allocated frame address has been set by
    /// `init_frame_alloc` (or by an allocation after it).
    pub open spec fn initialized(&self) -> bool {
        self.first() <= self.latest()
    }

    pub proof fn lemma_wf_bounds(&self)
        requires
            self.wf(),
        ensures
            self.bits().len() == NUM_FRAMES,
            self.start() <= self.kernel_end() <= self.last(),
            self.kernel_end() <= self.first() < self.kernel_end() + 4096,
            self.first() % 4096 == 0,
            self.last() + 4096 <= PHYS_LIMIT,
            self.latest() % 4096 == 0,
            self.latest() <= self.last() + 4096,
    {
    }

    /// Frames have distinct positions in the bitmap.
    pub proof fn lemma_frame_index(&self, x: int, y: int)
        requires
            self.wf(),
            self.is_frame(x),
            self.is_frame(y),
        ensures
            0 <= self.index_of(x) < NUM_FRAMES,
            x != y ==> self.index_of(x) != self.index_of(y),
    {
        lemma_bitmap_sizes();
        self.lemma_wf_bounds();
        let s = self.start() as int;
        assert(0 <= (x - s) / 4096 < 32768) by (nonlinear_arith)
            requires s <= x < s + 134217728;
        assert(x != y ==> (x - s) / 4096 != (y - s) / 4096) by (nonlinear_arith)
            requires x % 4096 == 0, y % 4096 == 0;
    }

    /// After changing the bit of the frame `f` to `val`, the frame
    /// `x` is used as before unless it is `f`.
    pub proof fn lemma_update_used(&self, new: &FrameAllocator, f: int, val: bool, x: int)
        requires
            self.wf(),
            new.bits() == self.bits().update(self.index_of(f), val),
            new.start() == self.start(),
            self.is_frame(f),
            self.is_frame(x),
        ensures
            new.used(x) == if x == f { val } else { self.used(x) },
    {
        self.lemma_frame_index(x, f);
        self.lemma_wf_bounds();
    }

    /// An allocator with every frame free, for a kernel that
    /// occupies `[skernel, ekernel)` at the start of RAM.
    pub fn new(skernel: u64, ekernel: u64) -> (r: Self)
        requires
            skernel <= ekernel <= skernel + RAM_SIZE,
            skernel + RAM_SIZE + PAGE_SIZE <= PHYS_LIMIT,
        ensures
            r.wf(),
            r.start() == skernel,
            r.kernel_end() == ekernel,
            r.latest() == 0,
            forall|k: int| 0 <= k < NUM_FRAMES ==> !#[trigger] r.bits()[k],
    {
        let mut bitmap: Vec<u8> = Vec::new();
        let mut n: usize = 0;
        while n < BITMAP_SIZE
            invariant
                n <= BITMAP_SIZE,
                bitmap@.len() == n,
                forall|i: int| 0 <= i < n ==> #[trigger] bitmap@[i] == 0u8,
            decreases BITMAP_SIZE - n,
        {
            bitmap.push(0u8);
            n = n + 1;
        }
        let r = FrameAllocator { bitmap, latest: 0, skernel, ekernel };
        assert forall|k: int| 0 <= k < NUM_FRAMES implies !#[trigger] r.bits()[k] by {
            lemma_bitmap_sizes();
            assert(k / 8 < BITMAP_SIZE);
            assert(r.bitmap@[k / 8] == 0u8);
            let j = (k % 8) as u8;
            assert((0u8 >> j) & 1u8 == 0u8) by (bit_vector);
        }
        r
    }
}

/// Get indexes to access the bitmap
/// # Arguments
///  - `addr`: bit address to read
/// # Return
/// i index for the bitmap array and j index for the bits inside
fn get_indexes(alloc: &FrameAllocator, addr: u64) -> (r: (usize, usize))
    requires
        alloc.wf(),
        alloc.start() <= addr < alloc.last(),
    ensures
        r.0 == alloc.index_of(addr as int) / 8,
        r.1 == alloc.index_of(addr as int) % 8,
        r.0 < BITMAP_SIZE,
{
    // The count starts from the first address in skernel
    let index: usize = ((addr - alloc.skernel) / PAGE_SIZE as u64) as usize;
    // Get the position in BITMAP
    let i: usize = index / 8;
    // Get the position inside the values
    let j: usize = index % 8;
    proof {
        lemma_bitmap_sizes();
        let d = (addr - alloc.skernel) as int;
        assert(d < RAM_SIZE);
        assert(d / 4096 < NUM_FRAMES) by (nonlinear_arith)
            requires d < RAM_SIZE, RAM_SIZE == 134217728, NUM_FRAMES == 32768;
    }
    (i, j)
}

/// Read a bit from the bitmap
fn read_bit(alloc: &FrameAllocator, addr: u64) -> (bit: u8)
    requires
        alloc.wf(),
        alloc.start() <= addr < alloc.last(),
    ensures
        bit <= 1,
        (bit == 1) == alloc.used(addr as int),
{
    let (i, j): (usize, usize) = get_indexes(alloc, addr);
    // Shift the bits to the right to get the least significant bit
    let b: u8 = alloc.bitmap[i];
    let bit: u8 = (b >> (j as u8)) & 1u8;
    proof {
        let jj = j as u8;
        assert(((b >> jj) & 1u8) <= 1u8) by (bit_vector);
    }
    bit
}

/// Write a bit to the bitmap
fn write_bit(alloc: &mut FrameAllocator, addr: u64, bit: u8)
    requires
        old(alloc).wf(),
        old(alloc).start() <= addr < old(alloc).last(),
        bit <= 1,
    ensures
        final(alloc).wf(),
        final(alloc).bits() == old(alloc).bits().update(old(alloc).index_of(addr as int), bit == 1),
        final(alloc).start() == old(alloc).start(),
        final(alloc).kernel_end() == old(alloc).kernel_end(),
        final(alloc).latest() == old(alloc).latest(),
{
    let (i, j): (usize, usize) = get_indexes(alloc, addr);
    let jj: u8 = j as u8;
    // Mask is used to reset the j bit to 0
    let mask: u8 = !(1u8 << jj);
    let old_b: u8 = alloc.bitmap[i];
    // Reset bit j and set it to the new value
    let new_b: u8 = (old_b & mask) | (bit << jj);
    alloc.bitmap.set(i, new_b);
    proof {
        lemma_write_bit(old_b, jj, bit);
        let idx = old(alloc).index_of(addr as int);
        assert(idx / 8 == i as int && idx % 8 == j as int);
        assert forall|k: int| 0 <= k < NUM_FRAMES implies
            #[trigger] alloc.bits()[k] == old(alloc).bits().update(idx, bit == 1)[k] by {
            lemma_bitmap_sizes();
            assert(k / 8 < BITMAP_SIZE);
            assert(alloc.bits()[k] == bit_of(alloc.bitmap@[k / 8], k % 8));
            assert(old(alloc).bits()[k] == bit_of(old(alloc).bitmap@[k / 8], k % 8));
            if k / 8 == i as int {
                let kk = (k % 8) as u8;
                assert(k % 8 == kk as int);
                assert(alloc.bitmap@[k / 8] == new_b);
                assert(old(alloc).bitmap@[k / 8] == old_b);
                if k != idx {
                    assert(kk != jj);
                    assert(bit_of(new_b, kk as int) == bit_of(old_b, kk as int));
                } else {
                    assert(kk == jj);
                }
            } else {
                assert(k != idx);
                assert(alloc.bitmap@[k / 8] == old(alloc).bitmap@[k / 8]);
            }
        }
        assert(alloc.bits() =~= old(alloc).bits().update(idx, bit == 1));
    }
}

/// The bits `bits` after the frames of `frames` are marked free, in
/// order; the bitmap counts frames from the address `start`.
pub open spec fn clear_frames(bits: Seq<bool>, start: u64, frames: Seq<u64>) -> Seq<bool>
    decreases frames.len(),
{
    if frames.len() == 0 {
        bits
    } else {
        clear_frames(bits, start, frames.drop_last()).update((frames.last() - start) / 4096, false)
    }
}

/// Clearing `a + b` is clearing `a` and then `b`.
pub proof fn lemma_clear_frames_concat(bits: Seq<bool>, start: u64, a: Seq<u64>, b: Seq<u64>)
    ensures
        clear_frames(bits, start, a + b) == clear_frames(clear_frames(bits, start, a), start, b),
    decreases b.len(),
{
    if b.len() == 0 {
        assert(a + b =~= a);
    } else {
        assert((a + b).drop_last() =~= a + b.drop_last());
        assert((a + b).last() == b.last());
        lemma_clear_frames_concat(bits, start, a, b.drop_last());
    }
}

/// Clearing frames other than `x` keeps the bit of `x`.
pub proof fn lemma_clear_frames_keeps(bits: Seq<bool>, alloc: &FrameAllocator, frames: Seq<u64>, x: int)
    requires
        alloc.wf(),
        bits.len() == NUM_FRAMES,
        forall|k: int| 0 <= k < frames.len() ==> alloc.is_frame(#[trigger] frames[k] as int),
        alloc.is_frame(x),
        forall|k: int| 0 <= k < frames.len() ==> #[trigger] frames[k] != x,
    ensures
        clear_frames(bits, alloc.start(), frames).len() == NUM_FRAMES,
        clear_frames(bits, alloc.start(), frames)[alloc.index_of(x)] == bits[alloc.index_of(x)],
    decreases frames.len(),
{
    if frames.len() > 0 {
        let init = frames.drop_last();
        assert forall|k: int| 0 <= k < init.len() implies alloc.is_frame(#[trigger] init[k] as int) by {
            assert(init[k] == frames[k]);
        }
        assert forall|k: int| 0 <= k < init.len() implies #[trigger] init[k] != x by {
            assert(init[k] == frames[k]);
        }
        lemma_clear_frames_keeps(bits, alloc, init, x);
        let l = frames.last();
        assert(alloc.is_frame(l as int));
        alloc.lemma_frame_index(x, l as int);
    }
}

/// Clearing frames that hold `x` clears the bit of `x`.
pub proof fn lemma_clear_frames_clears(bits: Seq<bool>, alloc: &FrameAllocator, frames: Seq<u64>, x: u64)
    requires
        alloc.wf(),
        bits.len() == NUM_FRAMES,
        forall|k: int| 0 <= k < frames.len() ==> alloc.is_frame(#[trigger] frames[k] as int),
        frames.contains(x),
    ensures
        clear_frames(bits, alloc.start(), frames).len() == NUM_FRAMES,
        clear_frames(bits, alloc.start(), frames)[alloc.index_of(x as int)] == false,
    decreases frames.len(),
{
    let init = frames.drop_last();
    let l = frames.last();
    assert(alloc.is_frame(l as int));
    assert forall|k: int| 0 <= k < init.len() implies alloc.is_frame(#[trigger] init[k] as int) by {
        assert(init[k] == frames[k]);
    }
    let k = choose|k: int| 0 <= k < frames.len() && frames[k] == x;
    assert(alloc.is_frame(x as int));
    alloc.lemma_frame_index(x as int, l as int);
    if x != l {
        assert(init[k] == x);
        lemma_clear_frames_clears(bits, alloc, init, x);
    } else if init.contains(l) {
        lemma_clear_frames_clears(bits, alloc, init, l);
    } else {
        assert forall|j: int| 0 <= j < init.len() implies #[trigger] init[j] != l as int by {
            assert(init.contains(init[j]));
        }
        lemma_clear_frames_keeps(bits, alloc, init, l as int);
    }
}

/// Freeing exactly the frames `fs` that were taken from the free
/// frames of `a0` gives the free frames of `a0` back.
pub proof fn lemma_free_taken(a0: &FrameAllocator, a1: &FrameAllocator, a2: &FrameAllocator, fs: Set<u64>, frames: Seq<u64>)
    requires
        a0.wf(),
        a1.wf(),
        a1.start() == a0.start(),
        a1.kernel_end() == a0.kernel_end(),
        a2.start() == a0.start(),
        a2.kernel_end() == a0.kernel_end(),
        forall|b: int| #[trigger] free_frames(a1).contains(b) == (free_frames(a0).contains(b) && !fs.contains(b as u64)),
        forall|x: u64| #[trigger] fs.contains(x) ==> free_frames(a0).contains(x as int),
        forall|x: u64| #[trigger] frames.contains(x) <==> fs.contains(x),
        a2.bits() == clear_frames(a1.bits(), a1.start(), frames),
    ensures
        free_frames(a2) == free_frames(a0),
{
    a1.lemma_wf_bounds();
    assert forall|k: int| 0 <= k < frames.len() implies a1.is_frame(#[trigger] frames[k] as int) by {
        assert(frames.contains(frames[k]));
    }
    assert forall|b: int| #[trigger] free_frames(a2).contains(b) == free_frames(a0).contains(b) by {
        if a0.is_frame(b) {
            let x = b as u64;
            assert(x as int == b);
            if fs.contains(x) {
                lemma_clear_frames_clears(a1.bits(), a1, frames, x);
            } else {
                assert forall|k: int| 0 <= k < frames.len() implies #[trigger] frames[k] != b by {
                    assert(frames.contains(frames[k]));
                }
                lemma_clear_frames_keeps(a1.bits(), a1, frames, b);
                assert(free_frames(a1).contains(b) == free_frames(a0).contains(b));
            }
        }
    }
    assert(free_frames(a2) =~= free_frames(a0));
}

/// Whether the frame after the last allocated one is free.
pub open spec fn next_is_free(alloc: &FrameAllocator) -> bool {
    &&& alloc.latest() + 4096 < alloc.last()
    &&& !alloc.used(alloc.latest() + 4096)
}

/// Whether every frame is used.
pub open spec fn all_used(alloc: &FrameAllocator) -> bool {
    forall|b: int| #[trigger] alloc.is_frame(b) ==> alloc.used(b)
}

/// Whether `new` is `old` after allocating the frame `a`: `a`
/// was free, it is the frame after the last allocated one when
/// that one is free, and otherwise the lowest free frame; it is
/// now marked used and becomes the last allocated frame.
pub open spec fn allocated(old: &FrameAllocator, new: &FrameAllocator, a: u64) -> bool {
    &&& old.is_frame(a as int)
    &&& !old.used(a as int)
    &&& next_is_free(old) ==> a == old.latest() + 4096
    &&& !next_is_free(old) ==> forall|b: int| #[trigger] old.is_frame(b) && b < a ==> old.used(b)
    &&& new.bits() == old.bits().update(old.index_of(a as int), true)
    &&& new.latest() == a
    &&& new.start() == old.start()
    &&& new.kernel_end() == old.kernel_end()
    &&& new.wf()
    &&& new.initialized()
}

/// Whether no frame can be allocated.
pub open spec fn exhausted(alloc: &FrameAllocator) -> bool {
    !next_is_free(alloc) && all_used(alloc)
}

/// Get a free frame pointer
/// # Return
/// Option containing the pointer or None
pub fn kmalloc(alloc: &mut FrameAllocator) -> (r: Option<Addr>)
    requires
        old(alloc).wf(),
        old(alloc).initialized(),
    ensures
        final(alloc).wf(),
        final(alloc).initialized(),
        final(alloc).start() == old(alloc).start(),
        final(alloc).kernel_end() == old(alloc).kernel_end(),
        r is None <==> exhausted(old(alloc)),
        match r {
            Some(a) => allocated(old(alloc), final(alloc), a@),
            None => *final(alloc) == *old(alloc),
        },
{
    proof {
        alloc.lemma_wf_bounds();
    }
    // Last physical address
    let last: u64 = last_addr(alloc.skernel);
    // Check if the page after latest is free
    let next: u64 = alloc.latest + PAGE_SIZE as u64;
    if next < last && read_bit(alloc, next) == 0 {
        alloc.latest = next;
        write_bit(alloc, next, 1);
        return Some(Addr::new(next));
    }
    // If the page after latest was not free
    let mut addr: u64 = first_addr(alloc.ekernel);
    while addr < last
        invariant
            alloc.wf(),
            alloc == old(alloc),
            !next_is_free(old(alloc)),
            last == alloc.last(),
            addr % 4096 == 0,
            alloc.first() <= addr <= alloc.last() + 4096,
            forall|b: int| #[trigger] alloc.is_frame(b) && b < addr ==> alloc.used(b),
        decreases alloc.last() + 4096 - addr,
    {
        // Return the free frame pointer
        if read_bit(alloc, addr) == 0 {
            assert(old(alloc).is_frame(addr as int));
            alloc.latest = addr;
            write_bit(alloc, addr, 1);
            return Some(Addr::new(addr));
        }
        addr = addr + PAGE_SIZE as u64;
    }
    None
}

/// Free an used frame
/// # Arguments
///  - `ptr`: pointer to the page
pub fn kfree(alloc: &mut FrameAllocator, ptr: Addr)
    requires
        old(alloc).wf(),
        old(alloc).is_frame(ptr@ as int),
        old(alloc).used(ptr@ as int),
    ensures
        final(alloc).wf(),
        final(alloc).start() == old(alloc).start(),
        final(alloc).kernel_end() == old(alloc).kernel_end(),
        final(alloc).latest() == old(alloc).latest(),
        final(alloc).bits() == old(alloc).bits().update(old(alloc).index_of(ptr@ as int), false),
{
    proof {
        alloc.lemma_wf_bounds();
    }
    let addr: u64 = ptr.as_integer();
    write_bit(alloc, addr, 0);
}

/// Set the last freed or allocated frame to the first usable
/// frame address
pub fn init_frame_alloc(alloc: &mut FrameAllocator)
    requires
        old(alloc).wf(),
    ensures
        final(alloc).wf(),
        final(alloc).initialized(),
        final(alloc).latest() == old(alloc).first(),
        final(alloc).bits() == old(alloc).bits(),
        final(alloc).start() == old(alloc).start(),
        final(alloc).kernel_end() == old(alloc).kernel_end(),
{
    proof {
        alloc.lemma_wf_bounds();
    }
    // First address after the end of the kernel that is multiple
    // of PAGE_SIZE.
    alloc.latest = first_addr(alloc.ekernel);
}

/// Freeing the frame that an allocation handed out gives back the
/// bitmap of before the allocation.
pub proof fn lemma_alloc_free(a0: &FrameAllocator, a1: &FrameAllocator, a2: &FrameAllocator, f: u64)
    requires
        a0.wf(),
        allocated(a0, a1, f),
        a2.bits() == a1.bits().update(a1.index_of(f as int), false),
    ensures
        a2.bits() == a0.bits(),
{
    a0.lemma_wf_bounds();
    a0.lemma_frame_index(f as int, f as int);
    assert(a2.bits() =~= a0.bits());
}

/// The frames that can be allocated and are free.
pub open spec fn free_frames(a: &FrameAllocator) -> Set<int> {
    Set::new(|b: int| a.is_frame(b) && !a.used(b))
}

/// Number of frames that can be allocated and are free.
pub open spec fn free_count(a: &FrameAllocator) -> nat {
    free_frames(a).len()
}

/// The free frames are finitely many.
pub proof fn lemma_free_frames_finite(a: &FrameAllocator)
    ensures
        free_frames(a).finite(),
{
    let hi = if a.last() >= a.first() { a.last() } else { a.first() };
    let r = vstd::set_lib::set_int_range(a.first(), hi);
    vstd::set_lib::lemma_int_range(a.first(), hi);
    assert(free_frames(a).subset_of(r));
    vstd::set_lib::lemma_len_subset(free_frames(a), r);
}

/// With a free frame left, the allocator is not exhausted.
pub proof fn lemma_free_not_exhausted(a: &FrameAllocator)
    requires
        free_count(a) > 0,
    ensures
        !exhausted(a),
{
    lemma_free_frames_finite(a);
    let b = free_frames(a).choose();
    assert(free_frames(a).contains(b));
}

/// An allocation keeps the used frames used and marks the allocated
/// one used.
pub proof fn lemma_alloc_keeps_used(a0: &FrameAllocator, a1: &FrameAllocator, f: u64)
    requires
        a0.wf(),
        allocated(a0, a1, f),
    ensures
        a1.used(f as int),
        forall|b: int| #[trigger] a0.is_frame(b) && a0.used(b) ==> a1.used(b),
        forall|b: int| #[trigger] a1.is_frame(b) == a0.is_frame(b),
{
    a0.lemma_wf_bounds();
    a0.lemma_frame_index(f as int, f as int);
    assert forall|b: int| #[trigger] a0.is_frame(b) && a0.used(b) implies a1.used(b) by {
        a0.lemma_frame_index(b, f as int);
    }
}

/// An allocation takes one frame from the free ones.
pub proof fn lemma_alloc_count(a0: &FrameAllocator, a1: &FrameAllocator, f: u64)
    requires
        a0.wf(),
        allocated(a0, a1, f),
    ensures
        free_frames(a1) == free_frames(a0).remove(f as int),
        free_count(a1) == free_count(a0) - 1,
        !free_frames(a1).contains(f as int),
{
    lemma_free_frames_finite(a0);
    assert forall|b: int| #[trigger] free_frames(a1).contains(b) <==> free_frames(a0).remove(f as int).contains(b) by {
        if a0.is_frame(b) {
            a0.lemma_frame_index(b, f as int);
        }
    }
    assert(free_frames(a1) =~= free_frames(a0).remove(f as int));
    assert(free_frames(a0).contains(f as int)) by {
        a0.lemma_frame_index(f as int, f as int);
    }
}

} // verus!
