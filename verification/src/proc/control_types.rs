//! Processing related types.
//!
//! This module contains data structures necessary for controlling
//! processes and cpu state.

use vstd::prelude::*;
use crate::riscv::memory_types::{Addr, PageTable, free_addr_space, space_frames};
use crate::trap::trap_types::{Context, Trapframe, TRAPFRAME_WORDS};
use crate::memory::frame_alloc::{FrameAllocator, kfree, clear_frames, lemma_clear_frames_concat};
use crate::memory::phys_mem::PhysMem;

verus! {

/// Possible process states
#[derive(Copy, Clone, Debug, PartialEq, Eq, Structural)]
pub enum ProcState {
    Unused,   // Free PCB
    New,      // The process is being prepared to run
    Ready,    // Process ready to run
    Running,  // Process has the CPU
    Waiting,  // Process is waiting (not busy waiting)
    Zombie,   // A child terminated, but the parent did not wait()
}

/// Signal code to terminate a process
pub const SIGKILL: i32 = 9;

/// Process Control Block (PCB)
pub struct Pcb {
    pub state: ProcState,  // Process state
    pub kill_signal: i32,  // Signal received from kill()
    pub exit_status: i32,  // Exit status
    pub pid: usize,  // Process ID
    // Fields that only one context accesses at a time
    pub kstack: Option<Addr>,  // Address of the process kernel stack
    pub size: usize,  // Size of process memory in bytes
    pub pagetable: Option<PageTable>,  // Process page table
    pub trapframe: Option<Addr>,  // Process trapframe page
    pub ctx: Context,  // Kernel context for this process
    pub parent: Option<usize>,  // Position of the parent PCB in the process table
    pub sleep_until: Option<u64>,  // Tick count at which a pending sleep() ends
}

/// Addresses of a held address, if any.
pub open spec fn addr_opt(a: Option<Addr>) -> Option<u64> {
    match a {
        Some(x) => Some(x@),
        None => None,
    }
}

impl Pcb {
    /// Address of the kernel stack, if one is allocated.
    pub open spec fn kstack_opt(&self) -> Option<u64> {
        addr_opt(self.kstack)
    }

    /// Address of the page table, if one is allocated.
    pub open spec fn pagetable_opt(&self) -> Option<u64> {
        match self.pagetable {
            Some(p) => Some(p@),
            None => None,
        }
    }

    /// Address of the trapframe page, if one is allocated.
    pub open spec fn trapframe_opt(&self) -> Option<u64> {
        addr_opt(self.trapframe)
    }

    /// The fields of the PCB apart from the kernel stack, page table
    /// and trapframe are those of `other`.
    pub open spec fn same_public(&self, other: &Pcb) -> bool {
        &&& self.state == other.state
        &&& self.kill_signal == other.kill_signal
        &&& self.exit_status == other.exit_status
        &&& self.pid == other.pid
        &&& self.size == other.size
        &&& self.ctx == other.ctx
        &&& self.parent == other.parent
        &&& self.sleep_until == other.sleep_until
    }

    /// Initialize a default PCB
    pub fn new() -> (r: Self)
        ensures
            r.state == ProcState::Unused,
            r.kill_signal == i32::MAX,
            r.exit_status == i32::MAX,
            r.pid == usize::MAX,
            r.kstack_opt() is None,
            r.size == 0,
            r.pagetable_opt() is None,
            r.trapframe_opt() is None,
            r.ctx == Context::zero(),
            r.parent is None,
            r.sleep_until is None,
    {
        Pcb {
            state: ProcState::Unused,
            kill_signal: i32::MAX,
            exit_status: i32::MAX,
            pid: usize::MAX,
            kstack: None,
            size: 0,
            pagetable: None,
            trapframe: None,
            ctx: Context::new(),
            parent: None,
            sleep_until: None,
        }
    }

    /// Init trapframe memory
    pub fn init_trapframe(&mut self, addr: Addr)
        requires
            old(self).trapframe_opt() is None,
        ensures
            final(self).trapframe_opt() == Some(addr@),
            final(self).pagetable == old(self).pagetable,
            final(self).kstack == old(self).kstack,
            final(self).same_public(old(self)),
    {
        self.trapframe = Some(addr);
    }

    /// Free the trapframe page
    pub fn free_trapframe(&mut self, falloc: &mut FrameAllocator)
        requires
            old(self).trapframe_opt() is Some,
            old(falloc).wf(),
            old(falloc).is_frame(old(self).trapframe_opt()->0 as int),
            old(falloc).used(old(self).trapframe_opt()->0 as int),
        ensures
            final(self).trapframe_opt() is None,
            final(self).pagetable == old(self).pagetable,
            final(self).kstack == old(self).kstack,
            final(self).same_public(old(self)),
            final(falloc).wf(),
            final(falloc).start() == old(falloc).start(),
            final(falloc).kernel_end() == old(falloc).kernel_end(),
            final(falloc).latest() == old(falloc).latest(),
            final(falloc).bits() == old(falloc).bits().update(
                old(falloc).index_of(old(self).trapframe_opt()->0 as int), false),
    {
        let tf: Addr = match self.trapframe {
            Some(a) => a,
            None => Addr::new(0),
        };
        kfree(falloc, tf);
        self.trapframe = None;
    }

    /// Read the trapframe
    pub fn trapframe(&self, mem: &PhysMem) -> (r: Trapframe)
        requires
            self.trapframe_opt() is Some,
            self.trapframe_opt()->0 + 4 * TRAPFRAME_WORDS <= u64::MAX,
        ensures
            r == Trapframe::from_mem(mem, self.trapframe_opt()->0),
    {
        let tpf: Addr = match self.trapframe {
            Some(a) => a,
            None => Addr::new(0),
        };
        Trapframe::read_from(mem, tpf.as_integer())
    }

    /// Write the trapframe
    pub fn write_trapframe(&self, frame: Trapframe, mem: &mut PhysMem)
        requires
            self.trapframe_opt() is Some,
            self.trapframe_opt()->0 + 4 * TRAPFRAME_WORDS <= u64::MAX,
        ensures
            forall|k: int| 0 <= k < TRAPFRAME_WORDS ==>
                #[trigger] final(mem).word(self.trapframe_opt()->0 + 4 * k) == frame.words()[k],
            final(mem).same_outside(old(mem), self.trapframe_opt()->0 as int,
                self.trapframe_opt()->0 + 4 * TRAPFRAME_WORDS),
    {
        let tpf: Addr = match self.trapframe {
            Some(a) => a,
            None => Addr::new(0),
        };
        frame.write_to(mem, tpf.as_integer());
    }

    /// Get the trapframe address
    pub fn trapframe_addr(&self) -> (r: Addr)
        requires
            self.trapframe_opt() is Some,
        ensures
            Some(r@) == self.trapframe_opt(),
    {
        match self.trapframe {
            Some(a) => a,
            None => Addr::new(0),
        }
    }

    /// Init pagetable memory
    pub fn init_pagetable(&mut self, pgt: PageTable)
        requires
            old(self).pagetable_opt() is None,
        ensures
            final(self).pagetable_opt() == Some(pgt@),
            final(self).trapframe == old(self).trapframe,
            final(self).kstack == old(self).kstack,
            final(self).same_public(old(self)),
    {
        self.pagetable = Some(pgt);
    }

    /// Free the pagetable page and every frame it maps
    pub fn free_pagetable(&mut self, mem: &PhysMem, falloc: &mut FrameAllocator)
        requires
            old(self).pagetable_opt() is Some,
            old(self).pagetable_opt()->0 + 4096 <= u64::MAX,
            old(falloc).wf(),
            space_frames(mem, old(self).pagetable_opt()->0).no_duplicates(),
            forall|k: int| 0 <= k < space_frames(mem, old(self).pagetable_opt()->0).len() ==> {
                let x = #[trigger] space_frames(mem, old(self).pagetable_opt()->0)[k] as int;
                old(falloc).is_frame(x) && old(falloc).used(x)
            },
        ensures
            final(self).pagetable_opt() is None,
            final(self).size == 0,
            final(self).trapframe == old(self).trapframe,
            final(self).kstack == old(self).kstack,
            final(self).state == old(self).state,
            final(self).pid == old(self).pid,
            final(self).kill_signal == old(self).kill_signal,
            final(self).exit_status == old(self).exit_status,
            final(self).parent == old(self).parent,
            final(self).ctx == old(self).ctx,
            final(self).sleep_until == old(self).sleep_until,
            final(falloc).wf(),
            final(falloc).start() == old(falloc).start(),
            final(falloc).kernel_end() == old(falloc).kernel_end(),
            final(falloc).latest() == old(falloc).latest(),
            final(falloc).bits() == clear_frames(old(falloc).bits(), old(falloc).start(),
                space_frames(mem, old(self).pagetable_opt()->0)),
    {
        let pgt: PageTable = match self.pagetable {
            Some(p) => p,
            None => PageTable::new(Addr::new(0)),
        };
        free_addr_space(pgt, mem, falloc);
        self.size = 0;
        self.pagetable = None;
    }

    /// Get the pagetable
    pub fn pagetable(&self) -> (r: PageTable)
        requires
            self.pagetable_opt() is Some,
        ensures
            Some(r@) == self.pagetable_opt(),
    {
        match self.pagetable {
            Some(p) => p,
            None => PageTable::new(Addr::new(0)),
        }
    }

    /// Init kstack memory
    pub fn init_kstack(&mut self, addr: Addr)
        requires
            old(self).kstack_opt() is None,
        ensures
            final(self).kstack_opt() == Some(addr@),
            final(self).trapframe == old(self).trapframe,
            final(self).pagetable == old(self).pagetable,
            final(self).same_public(old(self)),
    {
        self.kstack = Some(addr);
    }

    /// Free the kstack page
    pub fn free_kstack(&mut self, falloc: &mut FrameAllocator)
        requires
            old(self).kstack_opt() is Some,
            old(falloc).wf(),
            old(falloc).is_frame(old(self).kstack_opt()->0 as int),
            old(falloc).used(old(self).kstack_opt()->0 as int),
        ensures
            final(self).kstack_opt() is None,
            final(self).trapframe == old(self).trapframe,
            final(self).pagetable == old(self).pagetable,
            final(self).same_public(old(self)),
            final(falloc).wf(),
            final(falloc).start() == old(falloc).start(),
            final(falloc).kernel_end() == old(falloc).kernel_end(),
            final(falloc).latest() == old(falloc).latest(),
            final(falloc).bits() == old(falloc).bits().update(
                old(falloc).index_of(old(self).kstack_opt()->0 as int), false),
    {
        let ks: Addr = match self.kstack {
            Some(a) => a,
            None => Addr::new(0),
        };
        kfree(falloc, ks);
        self.kstack = None;
    }

    /// Get the kstack
    pub fn kstack(&self) -> (r: Addr)
        requires
            self.kstack_opt() is Some,
        ensures
            Some(r@) == self.kstack_opt(),
    {
        match self.kstack {
            Some(a) => a,
            None => Addr::new(0),
        }
    }
}

impl Pcb {
    /// The frames that `free_memory` releases, in order: the
    /// trapframe page, then every frame of the address space.
    pub open spec fn memory_frames(&self, mem: &PhysMem) -> Seq<u64> {
        let tf: Seq<u64> = match self.trapframe_opt() {
            Some(a) => seq![a],
            None => Seq::empty(),
        };
        let pt: Seq<u64> = match self.pagetable_opt() {
            Some(p) => space_frames(mem, p),
            None => Seq::empty(),
        };
        tf + pt
    }

    /// Free the process allocated memory: the trapframe page and
    /// the address space.
    pub fn free_memory(&mut self, mem: &PhysMem, falloc: &mut FrameAllocator)
        requires
            old(falloc).wf(),
            old(self).pagetable_opt() is Some ==> old(self).pagetable_opt()->0 + 4096 <= u64::MAX,
            old(self).memory_frames(mem).no_duplicates(),
            forall|k: int| 0 <= k < old(self).memory_frames(mem).len() ==> {
                let x = #[trigger] old(self).memory_frames(mem)[k] as int;
                old(falloc).is_frame(x) && old(falloc).used(x)
            },
        ensures
            final(self).trapframe_opt() is None,
            final(self).pagetable_opt() is None,
            final(self).kstack == old(self).kstack,
            final(self).size == if old(self).pagetable_opt() is Some { 0 } else { old(self).size },
            final(self).state == old(self).state,
            final(self).pid == old(self).pid,
            final(self).kill_signal == old(self).kill_signal,
            final(self).exit_status == old(self).exit_status,
            final(self).parent == old(self).parent,
            final(self).ctx == old(self).ctx,
            final(self).sleep_until == old(self).sleep_until,
            final(falloc).wf(),
            final(falloc).start() == old(falloc).start(),
            final(falloc).kernel_end() == old(falloc).kernel_end(),
            final(falloc).latest() == old(falloc).latest(),
            final(falloc).bits() == clear_frames(old(falloc).bits(), old(falloc).start(),
                old(self).memory_frames(mem)),
    {
        let ghost all = self.memory_frames(mem);
        let ghost b0 = falloc.bits();
        let ghost s0 = falloc.start();
        let ghost tf: Seq<u64> = match self.trapframe_opt() {
            Some(a) => seq![a],
            None => Seq::empty(),
        };
        let ghost pt: Seq<u64> = match self.pagetable_opt() {
            Some(p) => space_frames(mem, p),
            None => Seq::empty(),
        };
        proof {
            lemma_clear_frames_concat(b0, s0, tf, pt);
            assert(all == tf + pt);
        }
        if self.trapframe.is_some() {
            proof {
                assert(all[0] == self.trapframe_opt()->0);
            }
            // Free Trapframe page
            self.free_trapframe(falloc);
            proof {
                assert(tf.drop_last() =~= Seq::<u64>::empty());
                assert(clear_frames(b0, s0, tf.drop_last()) == b0);
                assert(falloc.bits() == clear_frames(b0, s0, tf));
            }
        } else {
            assert(tf =~= Seq::<u64>::empty());
        }
        if self.pagetable.is_some() {
            proof {
                let a1 = *falloc;
                let p = self.pagetable_opt()->0;
                assert forall|k: int| 0 <= k < space_frames(mem, p).len() implies {
                    let x = #[trigger] space_frames(mem, p)[k] as int;
                    a1.is_frame(x) && a1.used(x)
                } by {
                    let x = space_frames(mem, p)[k] as int;
                    assert(all[tf.len() + k] == x);
                    if tf.len() == 1 {
                        assert(all[0] == tf[0]);
                        assert(tf[0] != x);
                        old(falloc).lemma_update_used(&a1, tf[0] as int, false, x);
                    }
                }
                assert(space_frames(mem, p).no_duplicates()) by {
                    assert forall|i: int, j: int| 0 <= i < j < pt.len() implies pt[i] != pt[j] by {
                        assert(all[tf.len() + i] == pt[i]);
                        assert(all[tf.len() + j] == pt[j]);
                    }
                }
            }
            // Free pagetable page
            self.free_pagetable(mem, falloc);
        } else {
            assert(pt =~= Seq::<u64>::empty());
        }
    }
}

/// CPU control struct. lock_count and intena are used to
/// enable/disable interrupts when necessary to make it possible to
/// nest mutex locks.
pub struct Cpu {
    pub proc: Option<usize>,  // Position in the process table of the process running
    pub ctx: Context,  // Context to go back to the scheduler
    pub lock_count: usize,  // Amount of mutex locks in sequence
    pub intena: bool,  // Interrupts were enabled before locking a mutex
}

impl Cpu {
    /// Initialize a default CPU
    pub fn new() -> (r: Self)
        ensures
            r.proc is None,
            r.ctx == Context::zero(),
            r.lock_count == 0,
            !r.intena,
    {
        Cpu { proc: None, ctx: Context::new(), lock_count: 0, intena: false }
    }
}

} // verus!
