//! The state of the kernel: the process table, the physical memory
//! and its frame allocator, the console, the clock ticks and the
//! condition variables on which processes wait.

use vstd::prelude::*;
use crate::proc::processing::ProcTable;
use crate::proc::sync::Condvar;
use crate::memory::phys_mem::PhysMem;
use crate::memory::frame_alloc::FrameAllocator;
use crate::io::console::Console;

verus! {

/// The kernel's state.
pub struct Kernel {
    /// Process control blocks and CPUs
    pub table: ProcTable,
    /// Physical memory
    pub mem: PhysMem,
    /// Allocator of the physical frames
    pub falloc: FrameAllocator,
    /// Monitor and keyboard input
    pub console: Console,
    /// Synchronize kill() and pause()
    pub kill_cvar: Condvar,
    /// Synchronize exit() and waitpid()
    pub exit_cvar: Condvar,
    /// Number of clock ticks
    pub ticks: u64,
    /// Processes waiting for ticks
    pub ticks_cvar: Condvar,
}

impl Kernel {
    /// Each part is well formed.
    pub open spec fn wf(&self) -> bool {
        &&& self.table.wf()
        &&& self.falloc.wf()
        &&& self.console.wf()
        &&& self.kill_cvar.wf()
        &&& self.exit_cvar.wf()
        &&& self.ticks_cvar.wf()
    }
}

} // verus!
