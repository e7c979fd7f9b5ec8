//! Trap handling related types.
//!
//! This module contains data structures necessary for trap
//! handling: the kernel context of a process and the trapframe,
//! the page through which user registers reach the kernel.

use vstd::prelude::*;
use crate::memory::phys_mem::{PhysMem, lemma_word_kept};

verus! {

/// These registers represent a context of execution and must be
/// preserved to make a context switch. This is used to switch
/// from a kernel's context to the scheduler and back. Read
/// chapter 1.1. of the RISCV ABI doc.
#[derive(Copy, Clone)]
pub struct Context {
    pub ra: usize,
    pub sp: usize,
    pub s0: usize,
    pub s1: usize,
    pub s2: usize,
    pub s3: usize,
    pub s4: usize,
    pub s5: usize,
    pub s6: usize,
    pub s7: usize,
    pub s8: usize,
    pub s9: usize,
    pub s10: usize,
    pub s11: usize,
}

impl Context {
    /// Initialize a default Context
    pub fn new() -> (r: Self)
        ensures
            r == Context::zero(),
    {
        Context { ra: 0, sp: 0, s0: 0, s1: 0, s2: 0, s3: 0, s4: 0, s5: 0, s6: 0, s7: 0, s8: 0, s9: 0, s10: 0, s11: 0 }
    }

    /// The context with every register zero.
    pub open spec fn zero() -> Context {
        Context { ra: 0, sp: 0, s0: 0, s1: 0, s2: 0, s3: 0, s4: 0, s5: 0, s6: 0, s7: 0, s8: 0, s9: 0, s10: 0, s11: 0 }
    }
}

/// Number of 32-bit words in a trapframe.
pub const TRAPFRAME_WORDS: usize = 35;

/// The trapframe is the region of memory in every process' address
/// space that stores the data necessary to start the trap handling
/// in the kernel and go back to the process later. Every register
/// is a 32-bit word of RV32.
#[derive(Copy, Clone)]
pub struct Trapframe {
    pub kernel_satp: usize,  // Kernel page table
    pub kernel_sp: usize,  // Top of trap stack for this process
    pub kernel_hartid: usize,  // CPU ID
    pub epc: usize,  // Next instruction to be executed coming back from the kernel
    pub ra: usize,  // Return address
    pub sp: usize,  // Stack pointer
    pub gp: usize,  // Global pointer
    pub tp: usize,  // Thread pointer
    pub t0: usize,
    pub t1: usize,
    pub t2: usize,
    pub s0: usize,
    pub s1: usize,
    pub a0: usize,
    pub a1: usize,
    pub a2: usize,
    pub a3: usize,
    pub a4: usize,
    pub a5: usize,
    pub a6: usize,
    pub a7: usize,
    pub s2: usize,
    pub s3: usize,
    pub s4: usize,
    pub s5: usize,
    pub s6: usize,
    pub s7: usize,
    pub s8: usize,
    pub s9: usize,
    pub s10: usize,
    pub s11: usize,
    pub t3: usize,
    pub t4: usize,
    pub t5: usize,
    pub t6: usize,
}

impl Trapframe {
    /// The words of the trapframe in memory order.
    /// Every register fits in 32 bits, as on RV32.
    pub open spec fn fits32(self) -> bool {
        &&& self.kernel_satp <= u32::MAX
        &&& self.kernel_sp <= u32::MAX
        &&& self.kernel_hartid <= u32::MAX
        &&& self.epc <= u32::MAX
        &&& self.ra <= u32::MAX
        &&& self.sp <= u32::MAX
        &&& self.gp <= u32::MAX
        &&& self.tp <= u32::MAX
        &&& self.t0 <= u32::MAX
        &&& self.t1 <= u32::MAX
        &&& self.t2 <= u32::MAX
        &&& self.s0 <= u32::MAX
        &&& self.s1 <= u32::MAX
        &&& self.a0 <= u32::MAX
        &&& self.a1 <= u32::MAX
        &&& self.a2 <= u32::MAX
        &&& self.a3 <= u32::MAX
        &&& self.a4 <= u32::MAX
        &&& self.a5 <= u32::MAX
        &&& self.a6 <= u32::MAX
        &&& self.a7 <= u32::MAX
        &&& self.s2 <= u32::MAX
        &&& self.s3 <= u32::MAX
        &&& self.s4 <= u32::MAX
        &&& self.s5 <= u32::MAX
        &&& self.s6 <= u32::MAX
        &&& self.s7 <= u32::MAX
        &&& self.s8 <= u32::MAX
        &&& self.s9 <= u32::MAX
        &&& self.s10 <= u32::MAX
        &&& self.s11 <= u32::MAX
        &&& self.t3 <= u32::MAX
        &&& self.t4 <= u32::MAX
        &&& self.t5 <= u32::MAX
        &&& self.t6 <= u32::MAX
    }

    pub open spec fn words(self) -> Seq<u32> {
        seq![self.kernel_satp as u32, self.kernel_sp as u32, self.kernel_hartid as u32, self.epc as u32, self.ra as u32, self.sp as u32, self.gp as u32, self.tp as u32, self.t0 as u32, self.t1 as u32, self.t2 as u32, self.s0 as u32, self.s1 as u32, self.a0 as u32, self.a1 as u32, self.a2 as u32, self.a3 as u32, self.a4 as u32, self.a5 as u32, self.a6 as u32, self.a7 as u32, self.s2 as u32, self.s3 as u32, self.s4 as u32, self.s5 as u32, self.s6 as u32, self.s7 as u32, self.s8 as u32, self.s9 as u32, self.s10 as u32, self.s11 as u32, self.t3 as u32, self.t4 as u32, self.t5 as u32, self.t6 as u32]
    }

    /// The trapframe stored in memory at `addr`.
    pub open spec fn from_mem(mem: &PhysMem, addr: u64) -> Trapframe {
        Trapframe {
            kernel_satp: mem.word(addr + 0) as usize,
            kernel_sp: mem.word(addr + 4) as usize,
            kernel_hartid: mem.word(addr + 8) as usize,
            epc: mem.word(addr + 12) as usize,
            ra: mem.word(addr + 16) as usize,
            sp: mem.word(addr + 20) as usize,
            gp: mem.word(addr + 24) as usize,
            tp: mem.word(addr + 28) as usize,
            t0: mem.word(addr + 32) as usize,
            t1: mem.word(addr + 36) as usize,
            t2: mem.word(addr + 40) as usize,
            s0: mem.word(addr + 44) as usize,
            s1: mem.word(addr + 48) as usize,
            a0: mem.word(addr + 52) as usize,
            a1: mem.word(addr + 56) as usize,
            a2: mem.word(addr + 60) as usize,
            a3: mem.word(addr + 64) as usize,
            a4: mem.word(addr + 68) as usize,
            a5: mem.word(addr + 72) as usize,
            a6: mem.word(addr + 76) as usize,
            a7: mem.word(addr + 80) as usize,
            s2: mem.word(addr + 84) as usize,
            s3: mem.word(addr + 88) as usize,
            s4: mem.word(addr + 92) as usize,
            s5: mem.word(addr + 96) as usize,
            s6: mem.word(addr + 100) as usize,
            s7: mem.word(addr + 104) as usize,
            s8: mem.word(addr + 108) as usize,
            s9: mem.word(addr + 112) as usize,
            s10: mem.word(addr + 116) as usize,
            s11: mem.word(addr + 120) as usize,
            t3: mem.word(addr + 124) as usize,
            t4: mem.word(addr + 128) as usize,
            t5: mem.word(addr + 132) as usize,
            t6: mem.word(addr + 136) as usize,
        }
    }

    /// Read the trapframe stored in memory at `addr`.
    pub fn read_from(mem: &PhysMem, addr: u64) -> (r: Trapframe)
        requires
            addr + 4 * TRAPFRAME_WORDS <= u64::MAX,
        ensures
            r == Trapframe::from_mem(mem, addr),
    {
        Trapframe {
            kernel_satp: mem.read_u32(addr + 0) as usize,
            kernel_sp: mem.read_u32(addr + 4) as usize,
            kernel_hartid: mem.read_u32(addr + 8) as usize,
            epc: mem.read_u32(addr + 12) as usize,
            ra: mem.read_u32(addr + 16) as usize,
            sp: mem.read_u32(addr + 20) as usize,
            gp: mem.read_u32(addr + 24) as usize,
            tp: mem.read_u32(addr + 28) as usize,
            t0: mem.read_u32(addr + 32) as usize,
            t1: mem.read_u32(addr + 36) as usize,
            t2: mem.read_u32(addr + 40) as usize,
            s0: mem.read_u32(addr + 44) as usize,
            s1: mem.read_u32(addr + 48) as usize,
            a0: mem.read_u32(addr + 52) as usize,
            a1: mem.read_u32(addr + 56) as usize,
            a2: mem.read_u32(addr + 60) as usize,
            a3: mem.read_u32(addr + 64) as usize,
            a4: mem.read_u32(addr + 68) as usize,
            a5: mem.read_u32(addr + 72) as usize,
            a6: mem.read_u32(addr + 76) as usize,
            a7: mem.read_u32(addr + 80) as usize,
            s2: mem.read_u32(addr + 84) as usize,
            s3: mem.read_u32(addr + 88) as usize,
            s4: mem.read_u32(addr + 92) as usize,
            s5: mem.read_u32(addr + 96) as usize,
            s6: mem.read_u32(addr + 100) as usize,
            s7: mem.read_u32(addr + 104) as usize,
            s8: mem.read_u32(addr + 108) as usize,
            s9: mem.read_u32(addr + 112) as usize,
            s10: mem.read_u32(addr + 116) as usize,
            s11: mem.read_u32(addr + 120) as usize,
            t3: mem.read_u32(addr + 124) as usize,
            t4: mem.read_u32(addr + 128) as usize,
            t5: mem.read_u32(addr + 132) as usize,
            t6: mem.read_u32(addr + 136) as usize,
        }
    }

    /// Write the trapframe to memory at `addr`.
    pub fn write_to(&self, mem: &mut PhysMem, addr: u64)
        requires
            addr + 4 * TRAPFRAME_WORDS <= u64::MAX,
        ensures
            forall|k: int| 0 <= k < TRAPFRAME_WORDS ==>
                #[trigger] final(mem).word(addr + 4 * k) == self.words()[k],
            final(mem).same_outside(old(mem), addr as int, addr + 4 * TRAPFRAME_WORDS),
    {
        let mut ws: Vec<u32> = Vec::new();
        ws.push(self.kernel_satp as u32);
        ws.push(self.kernel_sp as u32);
        ws.push(self.kernel_hartid as u32);
        ws.push(self.epc as u32);
        ws.push(self.ra as u32);
        ws.push(self.sp as u32);
        ws.push(self.gp as u32);
        ws.push(self.tp as u32);
        ws.push(self.t0 as u32);
        ws.push(self.t1 as u32);
        ws.push(self.t2 as u32);
        ws.push(self.s0 as u32);
        ws.push(self.s1 as u32);
        ws.push(self.a0 as u32);
        ws.push(self.a1 as u32);
        ws.push(self.a2 as u32);
        ws.push(self.a3 as u32);
        ws.push(self.a4 as u32);
        ws.push(self.a5 as u32);
        ws.push(self.a6 as u32);
        ws.push(self.a7 as u32);
        ws.push(self.s2 as u32);
        ws.push(self.s3 as u32);
        ws.push(self.s4 as u32);
        ws.push(self.s5 as u32);
        ws.push(self.s6 as u32);
        ws.push(self.s7 as u32);
        ws.push(self.s8 as u32);
        ws.push(self.s9 as u32);
        ws.push(self.s10 as u32);
        ws.push(self.s11 as u32);
        ws.push(self.t3 as u32);
        ws.push(self.t4 as u32);
        ws.push(self.t5 as u32);
        ws.push(self.t6 as u32);
        assert(ws@ =~= self.words());
        let ghost m0 = *mem;
        let mut k: usize = 0;
        while k < TRAPFRAME_WORDS
            invariant
                k <= TRAPFRAME_WORDS,
                ws@ == self.words(),
                addr + 4 * TRAPFRAME_WORDS <= u64::MAX,
                m0 == *old(mem),
                forall|i: int| 0 <= i < k ==> #[trigger] mem.word(addr + 4 * i) == ws@[i],
                mem.same_outside(&m0, addr as int, addr + 4 * k),
            decreases TRAPFRAME_WORDS - k,
        {
            let ghost m1 = *mem;
            let loc: u64 = addr + 4 * k as u64;
            mem.write_u32(loc, ws[k]);
            proof {
                assert forall|i: int| 0 <= i < k + 1 implies #[trigger] mem.word(addr + 4 * i) == ws@[i] by {
                    if i < k {
                        lemma_word_kept(&m1, mem, loc as int, loc + 4, addr + 4 * i);
                    }
                }
            }
            k = k + 1;
        }
    }
}

/// Slot of the a0 register in a trapframe.
pub const A0_SLOT: usize = 13;

/// Slot of the saved program counter in a trapframe.
pub const EPC_SLOT: usize = 3;

/// Each word of a trapframe read from memory is the word stored there.
#[verifier::spinoff_prover]
#[verifier::rlimit(40)]
pub proof fn lemma_words_of_mem(mem: &PhysMem, addr: u64)
    ensures
        forall|k: int| 0 <= k < TRAPFRAME_WORDS ==>
            #[trigger] Trapframe::from_mem(mem, addr).words()[k] == mem.word(addr + 4 * k),
{
    let t = Trapframe::from_mem(mem, addr);
    assert forall|k: int| 0 <= k < TRAPFRAME_WORDS implies
        #[trigger] t.words()[k] == mem.word(addr + 4 * k) by {
    }
}

/// A trapframe written to memory is read back with the same words
/// (each register as its 32 bits).
pub proof fn lemma_trapframe_round_trip(t: Trapframe, mem: &PhysMem, addr: u64)
    requires
        forall|k: int| 0 <= k < TRAPFRAME_WORDS ==> #[trigger] mem.word(addr + 4 * k) == t.words()[k],
    ensures
        Trapframe::from_mem(mem, addr).words() == t.words(),
{
    lemma_words_of_mem(mem, addr);
    assert(Trapframe::from_mem(mem, addr).words() =~= t.words());
}

/// A trapframe whose registers fit in 32 bits, written to memory, is
/// read back as it was.
#[verifier::spinoff_prover]
pub proof fn lemma_trapframe_read_back(t: Trapframe, mem: &PhysMem, addr: u64)
    requires
        t.fits32(),
        forall|k: int| 0 <= k < TRAPFRAME_WORDS ==> #[trigger] mem.word(addr + 4 * k) == t.words()[k],
    ensures
        Trapframe::from_mem(mem, addr) == t,
{
    lemma_trapframe_round_trip(t, mem, addr);
    lemma_words_of_mem(mem, addr);
    let r = Trapframe::from_mem(mem, addr);
    assert forall|k: int| 0 <= k < TRAPFRAME_WORDS implies r.words()[k] == t.words()[k] by {}
    assert(r =~= t);
}

/// A trapframe with a new a0 has the same words but the a0 slot.
pub proof fn lemma_words_set_a0(t: Trapframe, v: usize)
    ensures
        (Trapframe { a0: v, ..t }).words() == t.words().update(A0_SLOT as int, v as u32),
{
    assert((Trapframe { a0: v, ..t }).words() =~= t.words().update(A0_SLOT as int, v as u32));
}

/// A trapframe with a new saved program counter has the same words
/// but the epc slot.
pub proof fn lemma_words_set_epc(t: Trapframe, v: usize)
    ensures
        (Trapframe { epc: v, ..t }).words() == t.words().update(EPC_SLOT as int, v as u32),
{
    assert((Trapframe { epc: v, ..t }).words() =~= t.words().update(EPC_SLOT as int, v as u32));
}

/// The registers of a trapframe read from memory are the words of
/// their slots.
pub proof fn lemma_slots_of_mem(mem: &PhysMem, addr: u64)
    ensures
        Trapframe::from_mem(mem, addr).a0 == mem.word(addr + 4 * A0_SLOT) as usize,
        Trapframe::from_mem(mem, addr).epc == mem.word(addr + 4 * EPC_SLOT) as usize,
        Trapframe::from_mem(mem, addr).a1 == mem.word(addr + 4 * 14) as usize,
        Trapframe::from_mem(mem, addr).a7 == mem.word(addr + 4 * 20) as usize,
{
}

} // verus!
