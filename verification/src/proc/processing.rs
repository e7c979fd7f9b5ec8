//! The process table and the per-CPU state.
//!
//! The kernel keeps the process control blocks in a fixed table and
//! one control struct per CPU. Processes are named by their position
//! in the table.

use vstd::prelude::*;
use crate::config::constants::{NUM_PROC, NUM_CPU};
use crate::riscv::memory_types::{Addr, PageTable};
use crate::memory::phys_mem::PhysMem;
use crate::memory::frame_alloc::FrameAllocator;
use crate::memory::virtual_memory::{copyin, copyin_disjoint, user_range_ok, user_addr};
use crate::trap::trap_types::Context;
use super::control_types::{Pcb, Cpu, ProcState, SIGKILL};

verus! {

/// The process control blocks, the CPU control structs and the next
/// process ID available.
pub struct ProcTable {
    pub pcbs: Vec<Pcb>,
    pub cpus: Vec<Cpu>,
    pub next_pid: usize,
}

impl ProcTable {
    /// The table has a PCB for each process and a struct for each CPU.
    pub open spec fn wf(&self) -> bool {
        &&& self.pcbs@.len() == NUM_PROC
        &&& self.cpus@.len() == NUM_CPU
    }

    /// A table with every PCB unused, no process running and the
    /// first process ID, 1, available.
    pub fn new() -> (r: Self)
        ensures
            r.wf(),
            r.next_pid == 1,
            forall|i: int| 0 <= i < NUM_PROC ==> (#[trigger] r.pcbs@[i]).state == ProcState::Unused
                && r.pcbs@[i].pid == usize::MAX && r.pcbs@[i].parent is None
                && r.pcbs@[i].kill_signal == i32::MAX,
            forall|c: int| 0 <= c < NUM_CPU ==> (#[trigger] r.cpus@[c]).proc is None
                && r.cpus@[c].lock_count == 0 && !r.cpus@[c].intena,
    {
        let mut pcbs: Vec<Pcb> = Vec::new();
        let mut i: usize = 0;
        while i < NUM_PROC
            invariant
                i <= NUM_PROC,
                pcbs@.len() == i,
                forall|k: int| 0 <= k < i ==> (#[trigger] pcbs@[k]).state == ProcState::Unused
                    && pcbs@[k].pid == usize::MAX && pcbs@[k].parent is None
                    && pcbs@[k].kill_signal == i32::MAX,
            decreases NUM_PROC - i,
        {
            pcbs.push(Pcb::new());
            i = i + 1;
        }
        let mut cpus: Vec<Cpu> = Vec::new();
        let mut c: usize = 0;
        while c < NUM_CPU
            invariant
                c <= NUM_CPU,
                cpus@.len() == c,
                forall|k: int| 0 <= k < c ==> (#[trigger] cpus@[k]).proc is None
                    && cpus@[k].lock_count == 0 && !cpus@[k].intena,
            decreases NUM_CPU - c,
        {
            cpus.push(Cpu::new());
            c = c + 1;
        }
        ProcTable { pcbs, cpus, next_pid: 1 }
    }

    /// Every PCB other than the one at `i` is unchanged, and so are
    /// the CPUs.
    pub open spec fn same_except(&self, other: &ProcTable, i: int) -> bool {
        &&& self.pcbs@.len() == other.pcbs@.len()
        &&& forall|k: int| 0 <= k < self.pcbs@.len() && k != i ==> #[trigger] self.pcbs@[k] == other.pcbs@[k]
        &&& self.cpus@ == other.cpus@
    }
}

// All the following CPU functions must be called with interrupts
// disabled to avoid a process changing CPUs while holding the
// previous CPU's data; the caller ensures it.

/// Get the current CPU's process.
pub fn current_proc(table: &ProcTable, cpu: usize) -> (r: Option<usize>)
    requires
        table.wf(),
        cpu < NUM_CPU,
    ensures
        r == table.cpus@[cpu as int].proc,
{
    table.cpus[cpu].proc
}

/// Get the current CPU's process. Receives a string informing
/// which module called, which names the caller if no process runs.
pub fn current_proc_unwrap(table: &ProcTable, cpu: usize, loc: &str) -> (r: usize)
    requires
        table.wf(),
        cpu < NUM_CPU,
        table.cpus@[cpu as int].proc is Some,
    ensures
        Some(r) == table.cpus@[cpu as int].proc,
{
    match table.cpus[cpu].proc {
        Some(p) => p,
        None => 0,
    }
}

/// Set the current CPU's process.
pub fn set_current_proc(table: &mut ProcTable, cpu: usize, proc: Option<usize>)
    requires
        old(table).wf(),
        cpu < NUM_CPU,
    ensures
        final(table).wf(),
        final(table).pcbs@ == old(table).pcbs@,
        final(table).next_pid == old(table).next_pid,
        final(table).cpus@.len() == old(table).cpus@.len(),
        forall|c: int| 0 <= c < NUM_CPU && c != cpu ==> #[trigger] final(table).cpus@[c] == old(table).cpus@[c],
        final(table).cpus@[cpu as int].proc == proc,
        final(table).cpus@[cpu as int].ctx == old(table).cpus@[cpu as int].ctx,
        final(table).cpus@[cpu as int].lock_count == old(table).cpus@[cpu as int].lock_count,
        final(table).cpus@[cpu as int].intena == old(table).cpus@[cpu as int].intena,
{
    table.cpus[cpu].proc = proc;
}

/// Get the current CPU's context.
pub fn cpu_context(table: &ProcTable, cpu: usize) -> (r: Context)
    requires
        table.wf(),
        cpu < NUM_CPU,
    ensures
        r == table.cpus@[cpu as int].ctx,
{
    table.cpus[cpu].ctx
}

/// Whether the process received the termination signal.
/// # Arguments
/// - `proc`: process' PCB
/// # Return
/// `true` if terminated, `false` otherwise
pub fn terminated(proc: &Pcb) -> (r: bool)
    ensures
        r == (proc.kill_signal == SIGKILL),
{
    // Check if the process received a termination signal
    if proc.kill_signal == SIGKILL {
        return true;
    }
    false
}

/// Whether the PCB at `i` is the first one with the PID `pid`.
pub open spec fn first_with_pid(table: &ProcTable, pid: usize, i: int) -> bool {
    &&& 0 <= i < NUM_PROC
    &&& table.pcbs@[i].pid == pid
    &&& forall|j: int| 0 <= j < i ==> (#[trigger] table.pcbs@[j]).pid != pid
}

/// Whether a process in this state is active (neither unused nor
/// being prepared).
pub open spec fn active(s: ProcState) -> bool {
    s != ProcState::New && s != ProcState::Unused
}

/// Find the PCB of the process that has the PID.
/// # Arguments
/// - `pid`: process' PID
/// # Return
/// Option containing the position of the process that has the PID
/// if it is active, None otherwise
pub fn find_proc(table: &ProcTable, pid: usize) -> (r: Option<usize>)
    requires
        table.wf(),
    ensures
        match r {
            Some(i) => first_with_pid(table, pid, i as int) && active(table.pcbs@[i as int].state),
            None => forall|i: int| #[trigger] first_with_pid(table, pid, i) ==> !active(table.pcbs@[i].state),
        },
{
    // Search the PCB array
    let mut i: usize = 0;
    while i < NUM_PROC
        invariant
            table.wf(),
            i <= NUM_PROC,
            forall|j: int| 0 <= j < i ==> (#[trigger] table.pcbs@[j]).pid != pid,
        decreases NUM_PROC - i,
    {
        if table.pcbs[i].pid == pid {
            // Check if the process is active
            if table.pcbs[i].state != ProcState::New && table.pcbs[i].state != ProcState::Unused {
                return Some(i);
            }
            proof {
                assert forall|k: int| #[trigger] first_with_pid(table, pid, k) implies !active(table.pcbs@[k].state) by {
                    if k != i as int {
                        if k < i {
                        } else {
                            assert(table.pcbs@[i as int].pid == pid);
                        }
                    }
                }
            }
            return None;
        }
        i = i + 1;
    }
    None
}

/// Get the PCB of a child of the current process that has the
/// specified PID.
/// # Arguments
/// - `pid`: child process' PID
/// # Return
/// Option containing the position of the child that has the PID,
/// None otherwise
pub fn current_proc_child(table: &ProcTable, cpu: usize, pid: usize) -> (r: Option<usize>)
    requires
        table.wf(),
        cpu < NUM_CPU,
        table.cpus@[cpu as int].proc is Some,
    ensures
        match r {
            Some(c) => {
                &&& first_with_pid(table, pid, c as int)
                &&& active(table.pcbs@[c as int].state)
                &&& table.pcbs@[c as int].parent == table.cpus@[cpu as int].proc
            },
            None => forall|c: int| #[trigger] first_with_pid(table, pid, c) ==> !active(table.pcbs@[c].state)
                || table.pcbs@[c].parent != table.cpus@[cpu as int].proc,
        },
{
    // Current process
    let proc: usize = current_proc_unwrap(table, cpu, "proc");
    // Look for a process with the specified PID
    let opt: Option<usize> = find_proc(table, pid);
    match opt {
        None => None,
        Some(c) => {
            // Check if the child has a parent
            match table.pcbs[c].parent {
                None => {
                    proof {
                        assert forall|k: int| #[trigger] first_with_pid(table, pid, k) implies
                            !active(table.pcbs@[k].state) || table.pcbs@[k].parent != table.cpus@[cpu as int].proc by {
                            assert(k == c as int);
                        }
                    }
                    None
                },
                Some(parent) => {
                    // Check if proc is the child's parent
                    if parent == proc {
                        return Some(c);
                    }
                    proof {
                        assert forall|k: int| #[trigger] first_with_pid(table, pid, k) implies
                            !active(table.pcbs@[k].state) || table.pcbs@[k].parent != table.cpus@[cpu as int].proc by {
                            assert(k == c as int);
                        }
                    }
                    None
                },
            }
        },
    }
}

/// Allocate a new PID.
fn alloc_pid(table: &mut ProcTable) -> (r: usize)
    requires
        old(table).next_pid < usize::MAX,
    ensures
        r == old(table).next_pid,
        final(table).next_pid == old(table).next_pid + 1,
        final(table).pcbs == old(table).pcbs,
        final(table).cpus == old(table).cpus,
{
    let new_pid: usize = table.next_pid;
    table.next_pid = table.next_pid + 1;
    new_pid
}

/// Whether the PCB at `i` is the first unused one.
pub open spec fn first_unused(table: &ProcTable, i: int) -> bool {
    &&& 0 <= i < NUM_PROC
    &&& table.pcbs@[i].state == ProcState::Unused
    &&& forall|j: int| 0 <= j < i ==> (#[trigger] table.pcbs@[j]).state != ProcState::Unused
}

/// Allocate an `Unused` PCB, if one is available: it becomes `New`
/// and gets the next PID.
pub fn alloc_pcb(table: &mut ProcTable) -> (r: Option<usize>)
    requires
        old(table).wf(),
        old(table).next_pid < usize::MAX,
    ensures
        final(table).wf(),
        match r {
            Some(i) => {
                &&& first_unused(old(table), i as int)
                &&& final(table).pcbs@[i as int].state == ProcState::New
                &&& final(table).pcbs@[i as int].pid == old(table).next_pid
                &&& final(table).next_pid == old(table).next_pid + 1
                &&& final(table).same_except(old(table), i as int)
                &&& final(table).pcbs@[i as int].kill_signal == old(table).pcbs@[i as int].kill_signal
                &&& final(table).pcbs@[i as int].parent == old(table).pcbs@[i as int].parent
            },
            None => {
                &&& forall|i: int| 0 <= i < NUM_PROC ==> (#[trigger] old(table).pcbs@[i]).state != ProcState::Unused
                &&& *final(table) == *old(table)
            },
        },
{
    // Search for Unused PCB in the PCB array
    let mut i: usize = 0;
    while i < NUM_PROC
        invariant
            table.wf(),
            *table == *old(table),
            i <= NUM_PROC,
            table.next_pid < usize::MAX,
            forall|j: int| 0 <= j < i ==> (#[trigger] table.pcbs@[j]).state != ProcState::Unused,
        decreases NUM_PROC - i,
    {
        if table.pcbs[i].state == ProcState::Unused {
            let pid: usize = alloc_pid(table);
            table.pcbs[i].state = ProcState::New;
            table.pcbs[i].pid = pid;
            return Some(i);
        }
        i = i + 1;
    }
    None
}

/// Copy bytes to a kernel destination from a source address either
/// in kernel or userspace.
/// # Arguments
/// - `dst`: destination address
/// - `usr_src`: `true` if the source address is from a user
/// - `src`: source address
/// - `len`: length in bytes of the output
/// # Return
/// `true` if the copy is successful, `false` otherwise.
pub fn either_copyin(
    table: &ProcTable,
    cpu: usize,
    dst: Addr,
    usr_src: bool,
    src: Addr,
    len: usize,
    mem: &mut PhysMem,
    falloc: &mut FrameAllocator,
) -> (r: bool)
    requires
        table.wf(),
        cpu < NUM_CPU,
        old(falloc).wf(),
        dst@ + len <= u64::MAX,
        src@ + len <= u64::MAX,
        usr_src ==> {
            &&& table.cpus@[cpu as int].proc is Some
            &&& table.cpus@[cpu as int].proc->0 < NUM_PROC
            &&& table.pcbs@[table.cpus@[cpu as int].proc->0 as int].pagetable_opt() is Some
            &&& ({
                let pt = table.pcbs@[table.cpus@[cpu as int].proc->0 as int].pagetable_opt()->0;
                &&& pt + 4096 <= u64::MAX
                &&& copyin_disjoint(old(mem), pt, dst@, src@, len as int)
            })
        },
    ensures
        *final(falloc) == *old(falloc),
        final(mem).same_outside(old(mem), dst@ as int, dst@ + len),
        !usr_src ==> r && forall|t: int| 0 <= t < len ==> #[trigger] final(mem).byte(dst@ + t) == old(mem).byte(src@ + t),
        usr_src ==> {
            let pt = table.pcbs@[table.cpus@[cpu as int].proc->0 as int].pagetable_opt()->0;
            &&& r == user_range_ok(old(mem), pt, src@, len as int)
            &&& r ==> forall|t: int| 0 <= t < len ==>
                #[trigger] final(mem).byte(dst@ + t) == old(mem).byte(user_addr(old(mem), pt, src@, t))
        },
{
    // If it is an user address
    if usr_src {
        // Get the current process PCB
        let proc: usize = current_proc_unwrap(table, cpu, "either_copyin");
        // Copy from the user process using its pagetable
        let pgt: PageTable = table.pcbs[proc].pagetable();
        return copyin(pgt, dst, src, len, mem, falloc);
    }
    // Copy len bytes from src to dst
    mem.copy(dst.as_integer(), src.as_integer(), len);
    true
}

} // verus!
