//! Model of the physical address space.
//!
//! The kernel reads and writes physical memory through raw
//! pointers. Here the physical address space is a byte store:
//! every address holds a byte, and bytes that were never written
//! hold zero, as freshly cleared RAM does.

use vstd::prelude::*;
use vstd::hash_map::HashMapWithView;

verus! {

broadcast use vstd::std_specs::hash::group_hash_axioms;

/// Little-endian composition of four bytes into a 32-bit word.
pub open spec fn le_word(b0: u8, b1: u8, b2: u8, b3: u8) -> u32 {
    (b0 as u32) | ((b1 as u32) << 8u32) | ((b2 as u32) << 16u32) | ((b3 as u32) << 24u32)
}

/// Byte `k` (0 is the least significant) of a 32-bit word.
pub open spec fn word_byte(w: u32, k: int) -> u8 {
    ((w >> ((8 * k) as u32)) & 0xffu32) as u8
}

proof fn lemma_le_word_bytes(w: u32)
    ensures
        le_word(
            ((w >> 0u32) & 0xffu32) as u8,
            ((w >> 8u32) & 0xffu32) as u8,
            ((w >> 16u32) & 0xffu32) as u8,
            ((w >> 24u32) & 0xffu32) as u8,
        ) == w,
{
    assert(
        ((((w >> 0u32) & 0xffu32) as u8) as u32) | (((((w >> 8u32) & 0xffu32) as u8) as u32) << 8u32)
        | (((((w >> 16u32) & 0xffu32) as u8) as u32) << 16u32)
        | (((((w >> 24u32) & 0xffu32) as u8) as u32) << 24u32) == w) by (bit_vector);
}

/// A word whose four bytes lie outside `[lo, hi)` is the same in
/// two memories that differ only inside `[lo, hi)`.
pub proof fn lemma_word_kept(m1: &PhysMem, m2: &PhysMem, lo: int, hi: int, a: int)
    requires
        m2.same_outside(m1, lo, hi),
        0 <= a,
        a + 4 <= 0x1_0000_0000_0000_0000,
        a + 4 <= lo || hi <= a,
    ensures
        m2.word(a) == m1.word(a),
{
    assert(m2.byte(a) == m1.byte(a));
    assert(m2.byte(a + 1) == m1.byte(a + 1));
    assert(m2.byte(a + 2) == m1.byte(a + 2));
    assert(m2.byte(a + 3) == m1.byte(a + 3));
}

/// A word is the little-endian composition of its four bytes.
pub proof fn lemma_word_from_bytes(m: &PhysMem, a: int, w: u32)
    requires
        forall|k: int| 0 <= k < 4 ==> #[trigger] m.byte(a + k) == word_byte(w, k),
    ensures
        m.word(a) == w,
{
    lemma_le_word_bytes(w);
    assert(w >> 0u32 == w) by (bit_vector);
    assert(m.byte(a + 0) == word_byte(w, 0));
    assert(m.byte(a + 1) == word_byte(w, 1));
    assert(m.byte(a + 2) == word_byte(w, 2));
    assert(m.byte(a + 3) == word_byte(w, 3));
}

/// A word of four zero bytes is zero.
pub proof fn lemma_zero_word(m: &PhysMem, a: int)
    requires
        m.byte(a) == 0,
        m.byte(a + 1) == 0,
        m.byte(a + 2) == 0,
        m.byte(a + 3) == 0,
    ensures
        m.word(a) == 0,
{
    assert(le_word(0u8, 0u8, 0u8, 0u8) == 0u32) by (bit_vector);
}

/// The physical address space as a byte store.
pub struct PhysMem {
    bytes: HashMapWithView<u64, u8>,
}

impl PhysMem {
    /// The byte at physical address `a`.
    pub closed spec fn byte(&self, a: int) -> u8 {
        if self.bytes@.contains_key(a as u64) {
            self.bytes@[a as u64]
        } else {
            0
        }
    }

    /// The little-endian 32-bit word at physical address `a`.
    pub open spec fn word(&self, a: int) -> u32 {
        le_word(self.byte(a), self.byte(a + 1), self.byte(a + 2), self.byte(a + 3))
    }

    /// Every byte outside `[lo, hi)` is the same in `self` and `other`.
    pub open spec fn same_outside(&self, other: &PhysMem, lo: int, hi: int) -> bool {
        forall|a: int| 0 <= a < 0x1_0000_0000_0000_0000 && !(lo <= a < hi) ==>
            #[trigger] self.byte(a) == other.byte(a)
    }

    /// Physical memory in which every byte is zero.
    pub fn new() -> (m: Self)
        ensures
            forall|a: int| #[trigger] m.byte(a) == 0,
    {
        PhysMem { bytes: HashMapWithView::new() }
    }

    /// Read the byte at `addr`.
    pub fn read_u8(&self, addr: u64) -> (b: u8)
        ensures
            b == self.byte(addr as int),
    {
        match self.bytes.get(&addr) {
            Some(b) => *b,
            None => 0,
        }
    }

    /// Write `value` to the byte at `addr`.
    pub fn write_u8(&mut self, addr: u64, value: u8)
        ensures
            final(self).byte(addr as int) == value,
            forall|a: int| 0 <= a < 0x1_0000_0000_0000_0000 && a != addr ==>
                #[trigger] final(self).byte(a) == old(self).byte(a),
    {
        self.bytes.insert(addr, value);
    }

    /// Read the little-endian 32-bit word at `addr`.
    pub fn read_u32(&self, addr: u64) -> (w: u32)
        requires
            addr + 3 <= u64::MAX,
        ensures
            w == self.word(addr as int),
    {
        let b0 = self.read_u8(addr);
        let b1 = self.read_u8(addr + 1);
        let b2 = self.read_u8(addr + 2);
        let b3 = self.read_u8(addr + 3);
        (b0 as u32) | ((b1 as u32) << 8u32) | ((b2 as u32) << 16u32) | ((b3 as u32) << 24u32)
    }

    /// Write the 32-bit word `value` in little-endian order at `addr`.
    pub fn write_u32(&mut self, addr: u64, value: u32)
        requires
            addr + 3 <= u64::MAX,
        ensures
            final(self).word(addr as int) == value,
            forall|k: int| 0 <= k < 4 ==> #[trigger] final(self).byte(addr + k) == word_byte(value, k),
            final(self).same_outside(old(self), addr as int, addr + 4),
    {
        let b0: u8 = (value & 0xffu32) as u8;
        let b1: u8 = ((value >> 8u32) & 0xffu32) as u8;
        let b2: u8 = ((value >> 16u32) & 0xffu32) as u8;
        let b3: u8 = ((value >> 24u32) & 0xffu32) as u8;
        self.write_u8(addr, b0);
        self.write_u8(addr + 1, b1);
        self.write_u8(addr + 2, b2);
        self.write_u8(addr + 3, b3);
        proof {
            lemma_le_word_bytes(value);
            assert(value >> 0u32 == value) by (bit_vector);
            assert(self.byte(addr + 0) == word_byte(value, 0));
            assert(self.byte(addr + 1) == word_byte(value, 1));
            assert(self.byte(addr + 2) == word_byte(value, 2));
            assert(self.byte(addr + 3) == word_byte(value, 3));
        }
    }

    /// Write `value` to the `len` bytes starting at `addr`.
    pub fn memset(&mut self, addr: u64, value: u8, len: usize)
        requires
            addr + len <= u64::MAX,
        ensures
            forall|a: int| addr <= a < addr + len ==> #[trigger] final(self).byte(a) == value,
            final(self).same_outside(old(self), addr as int, addr + len),
    {
        let mut i: usize = 0;
        while i < len
            invariant
                i <= len,
                addr + len <= u64::MAX,
                forall|a: int| addr <= a < addr + i ==> #[trigger] self.byte(a) == value,
                self.same_outside(old(self), addr as int, addr + i),
            decreases len - i,
        {
            self.write_u8(addr + i as u64, value);
            i = i + 1;
        }
    }

    /// Copy `len` bytes from `src` to `dst`. The source bytes are
    /// read before any byte is written, so the ranges may overlap.
    pub fn copy(&mut self, dst: u64, src: u64, len: usize)
        requires
            dst + len <= u64::MAX,
            src + len <= u64::MAX,
        ensures
            forall|t: int| 0 <= t < len ==> #[trigger] final(self).byte(dst + t) == old(self).byte(src + t),
            final(self).same_outside(old(self), dst as int, dst + len),
    {
        let mut buf: Vec<u8> = Vec::new();
        let mut i: usize = 0;
        while i < len
            invariant
                i <= len,
                src + len <= u64::MAX,
                buf.len() == i,
                forall|t: int| 0 <= t < i ==> #[trigger] buf@[t] == self.byte(src + t),
            decreases len - i,
        {
            let b = self.read_u8(src + i as u64);
            buf.push(b);
            i = i + 1;
        }
        let ghost start = *self;
        i = 0;
        while i < len
            invariant
                i <= len,
                dst + len <= u64::MAX,
                buf.len() == len,
                forall|t: int| 0 <= t < len ==> #[trigger] buf@[t] == start.byte(src + t),
                forall|t: int| 0 <= t < i ==> #[trigger] self.byte(dst + t) == buf@[t],
                self.same_outside(&start, dst as int, dst + i),
            decreases len - i,
        {
            self.write_u8(dst + i as u64, buf[i]);
            i = i + 1;
        }
    }
}


} // verus!
