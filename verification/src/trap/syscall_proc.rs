//! Process related system calls.
//!
//! Each system call reads its arguments from the trapframe of the
//! current process (RISC-V calling convention: a0, a1, ...). A call
//! that has to wait reports it; the caller then switches to the
//! scheduler and calls again when the process runs again.

use vstd::prelude::*;
use crate::config::constants::{NUM_PROC, NUM_CPU};
use crate::riscv::memory_types::Addr;
use crate::memory::phys_mem::PhysMem;
use crate::memory::frame_alloc::{FrameAllocator, clear_frames};
use crate::proc::control_types::{Pcb, ProcState, SIGKILL};
use crate::proc::processing::{ProcTable, current_proc_unwrap, current_proc_child, find_proc, first_with_pid, active};
use crate::riscv::memory_types::PageTable;
use crate::memory::phys_mem::word_byte;
use crate::memory::virtual_memory::{
    copyout_word, user_dst_disjoint, user_dst_away, user_range_ok, user_addr, changed_only_user, lemma_user_changes_away,
};
use crate::riscv::memory_types::changes_away_from_tables;
use crate::proc::sync::{Condvar, woken, same_but_state};
use crate::riscv::memory_types::{
    lemma_space_frames_kept, lemma_table_in_space, pte_location, pte_addr_of, space_frames, space_frames_from,
};
use crate::trap::trap_types::{
    Trapframe, TRAPFRAME_WORDS, A0_SLOT, EPC_SLOT, lemma_words_of_mem, lemma_words_set_a0, lemma_words_set_epc,
};

verus! {

/// Outcome of a step of a system call.
#[derive(Copy, Clone, Debug, PartialEq, Eq, Structural)]
pub enum SyscallStep {
    /// The call returns this value to the process.
    Done(usize),
    /// The process waits on a condition variable; the call must be
    /// made again when it runs again.
    Blocked,
    /// The process must exit with this status.
    Exit(i32),
}

/// A process runs on `cpu`.
pub open spec fn has_current(table: &ProcTable, cpu: usize) -> bool {
    &&& table.wf()
    &&& cpu < NUM_CPU
    &&& table.cpus@[cpu as int].proc is Some
    &&& table.cpus@[cpu as int].proc->0 < NUM_PROC
}

/// Position of the process running on `cpu`.
pub open spec fn current(table: &ProcTable, cpu: usize) -> int {
    table.cpus@[cpu as int].proc->0 as int
}

/// The process running on `cpu` has a trapframe.
pub open spec fn has_trapframe(table: &ProcTable, cpu: usize) -> bool {
    &&& table.pcbs@[current(table, cpu)].trapframe_opt() is Some
    &&& table.pcbs@[current(table, cpu)].trapframe_opt()->0 + 4 * TRAPFRAME_WORDS <= u64::MAX
}

/// The trapframe of the process running on `cpu`.
pub open spec fn current_tf(table: &ProcTable, cpu: usize, mem: &PhysMem) -> Trapframe {
    Trapframe::from_mem(mem, table.pcbs@[current(table, cpu)].trapframe_opt()->0)
}

/// Get process PID.
/// # Wrapper
/// `pid_t getpid(void)`
pub fn sys_getpid(table: &ProcTable, cpu: usize) -> (r: usize)
    requires
        has_current(table, cpu),
    ensures
        r == table.pcbs@[current(table, cpu)].pid,
{
    let p: usize = current_proc_unwrap(table, cpu, "getpid");
    table.pcbs[p].pid
}

/// Create a new process that is a copy of the original's address
/// space. Not implemented yet: returns 0.
/// # Wrapper
/// `pid_t fork(void)`
pub fn sys_fork() -> (r: usize)
    ensures
        r == 0,
{
    0
}

/// Load a file and execute it with arguments. Not implemented yet:
/// returns 0.
/// # Wrapper
/// `int execv(const char *path, char *const argv[])`
pub fn sys_execv() -> (r: usize)
    ensures
        r == 0,
{
    0
}

/// The PCBs of `n` are those of `o` but for the states of the
/// processes in `q`, which are `Ready`, and the kill signal of the
/// process at `i`, which is `sig`.
pub open spec fn signalled(o: &ProcTable, n: &ProcTable, q: Seq<usize>, i: int, sig: i32) -> bool {
    forall|k: int| 0 <= k < NUM_PROC ==> {
        &&& (#[trigger] n.pcbs@[k]).state == if q.contains(k as usize) {
            ProcState::Ready
        } else {
            o.pcbs@[k].state
        }
        &&& n.pcbs@[k].kill_signal == if k == i { sig } else { o.pcbs@[k].kill_signal }
        &&& n.pcbs@[k].pid == o.pcbs@[k].pid
        &&& n.pcbs@[k].exit_status == o.pcbs@[k].exit_status
        &&& n.pcbs@[k].parent == o.pcbs@[k].parent
        &&& n.pcbs@[k].trapframe == o.pcbs@[k].trapframe
        &&& n.pcbs@[k].pagetable == o.pcbs@[k].pagetable
    }
}

/// A PCB as it is when no process uses it.
pub open spec fn unused_pcb(p: Pcb) -> bool {
    &&& p.state == ProcState::Unused
    &&& p.kill_signal == i32::MAX
    &&& p.exit_status == i32::MAX
    &&& p.pid == usize::MAX
    &&& p.kstack_opt() is None
    &&& p.size == 0
    &&& p.pagetable_opt() is None
    &&& p.trapframe_opt() is None
    &&& p.parent is None
}

/// The position of the child of the process at `p` with PID `pid`.
pub open spec fn child_with_pid(table: &ProcTable, p: int, pid: usize, c: int) -> bool {
    &&& first_with_pid(table, pid, c)
    &&& active(table.pcbs@[c].state)
    &&& table.pcbs@[c].parent == Some(p as usize)
}

/// Result of `waitpid` for the process at `p` with the arguments of
/// `tf`: see `sys_waitpid`.
pub open spec fn waitpid_done(
    o: &ProcTable,
    n: &ProcTable,
    ocv: &Condvar,
    ncv: &Condvar,
    m0: &PhysMem,
    m1: &PhysMem,
    p: int,
    tf: Trapframe,
    r: SyscallStep,
) -> bool {
    let pid = tf.a0;
    let stat = tf.a1 as u64;
    let pt = o.pcbs@[p].pagetable_opt()->0;
    if exists|c: int| #[trigger] child_with_pid(o, p, pid, c) {
        let c = choose|c: int| #[trigger] child_with_pid(o, p, pid, c);
        if o.pcbs@[c].state != ProcState::Zombie {
            &&& r is Blocked
            &&& n.pcbs@[p].state == ProcState::Waiting
            &&& same_but_state(n.pcbs@[p], o.pcbs@[p])
            &&& n.same_except(o, p)
            &&& ncv.waiting() == if ocv.waiting().len() < NUM_PROC {
                ocv.waiting().push(p as usize)
            } else {
                ocv.waiting()
            }
            &&& *m1 == *m0
        } else if stat != 0 && !user_range_ok(m0, pt, stat, 4) {
            &&& r == SyscallStep::Done(usize::MAX)
            &&& *n == *o
            &&& *ncv == *ocv
            &&& changed_only_user(m0, m1, pt, stat, 4)
            &&& changes_away_from_tables(m0, m1, pt)
        } else {
            &&& r == SyscallStep::Done(pid)
            &&& unused_pcb(n.pcbs@[c])
            &&& n.same_except(o, c)
            &&& *ncv == *ocv
            &&& stat != 0 ==> forall|t: int| 0 <= t < 4 ==>
                #[trigger] m1.byte(user_addr(m0, pt, stat, t))
                    == word_byte(o.pcbs@[c].exit_status as u32, t)
            &&& stat != 0 ==> changed_only_user(m0, m1, pt, stat, 4)
            &&& stat != 0 ==> changes_away_from_tables(m0, m1, pt)
            &&& stat == 0 ==> *m1 == *m0
        }
    } else {
        &&& r == SyscallStep::Done(usize::MAX)
        &&& *n == *o
        &&& *ncv == *ocv
        &&& *m1 == *m0
    }
}

/// Wait for the termination of the child with PID `a0` and store
/// its exit status, as a 32-bit word, at the user address `a1` unless
/// it is 0 (NULL); the child's PCB is then freed. While the child has
/// not exited the process waits.
/// # Wrapper
/// `pid_t waitpid(pid_t pid, int *status)`
/// # Return
/// The PID, or `usize::MAX` (-1) if there is no such child or the
/// status cannot be stored
pub fn sys_waitpid(
    table: &mut ProcTable,
    cpu: usize,
    mem: &mut PhysMem,
    falloc: &mut FrameAllocator,
    exit_cvar: &mut Condvar,
) -> (r: SyscallStep)
    requires
        has_current(old(table), cpu),
        has_trapframe(old(table), cpu),
        old(falloc).wf(),
        old(exit_cvar).wf(),
        ({
            let pcb = old(table).pcbs@[current(old(table), cpu)];
            let stat = current_tf(old(table), cpu, old(mem)).a1 as u64;
            stat != 0 ==> {
                &&& pcb.pagetable_opt() is Some
                &&& pcb.pagetable_opt()->0 + 4096 <= u64::MAX
                &&& user_dst_disjoint(old(mem), pcb.pagetable_opt()->0, stat, 4)
                &&& user_dst_away(old(mem), pcb.pagetable_opt()->0, stat, 4)
            }
        }),
    ensures
        final(table).wf(),
        final(exit_cvar).wf(),
        final(table).next_pid == old(table).next_pid,
        *final(falloc) == *old(falloc),
        waitpid_done(old(table), final(table), old(exit_cvar), final(exit_cvar), old(mem), final(mem),
            current(old(table), cpu), current_tf(old(table), cpu, old(mem)), r),
{
    // Current process
    let proc: usize = current_proc_unwrap(table, cpu, "waitpid");
    // Get arguments from Trapframe
    let tpf: Trapframe = table.pcbs[proc].trapframe(mem);
    let pid: usize = tpf.a0;
    let stat: Addr = Addr::new(tpf.a1 as u64);
    // Get the child process with this PID
    let opt: Option<usize> = current_proc_child(table, cpu, pid);
    match opt {
        None => {
            proof {
                assert(!exists|c: int| #[trigger] child_with_pid(old(table), proc as int, pid, c));
            }
            // Equivalent to -1 when casting
            SyscallStep::Done(usize::MAX)
        },
        Some(child) => {
            proof {
                assert(child_with_pid(old(table), proc as int, pid, child as int));
                let c = choose|c: int| #[trigger] child_with_pid(old(table), proc as int, pid, c);
                assert(c == child as int);
            }
            // While child is not Zombie, wait until an exit() notifies
            // the waiting processes
            if table.pcbs[child].state != ProcState::Zombie {
                exit_cvar.wait(table, cpu);
                return SyscallStep::Blocked;
            }
            // Copy the child's exit_status to the address of the
            // *status argument, unless it is 0 (NULL)
            if stat.as_integer() != 0 {
                let pgt: PageTable = table.pcbs[proc].pagetable();
                let status: u32 = table.pcbs[child].exit_status as u32;
                let ghost m0 = *mem;
                let ok: bool = copyout_word(pgt, stat, status, mem, falloc);
                proof {
                    lemma_user_changes_away(&m0, mem, pgt@, stat@, 4);
                }
                if !ok {
                    // If the copy is unsuccessful
                    return SyscallStep::Done(usize::MAX);
                }
            }
            // Free child's PCB
            let ghost t0 = *table;
            table.pcbs.set(child, Pcb::new());
            proof {
                assert(table.same_except(&t0, child as int));
            }
            SyscallStep::Done(pid)
        },
    }
}

/// Result of `kill` with the arguments of `tf`: the signal `a1` is
/// placed in the first active process with PID `a0` and the processes
/// waiting on the condition variable are woken; without such a
/// process nothing changes and the result is `usize::MAX`.
pub open spec fn kill_done(o: &ProcTable, n: &ProcTable, ocv: &Condvar, ncv: &Condvar, tf: Trapframe, r: usize) -> bool {
    let pid = tf.a0;
    let sig = tf.a1 as i32;
    if exists|i: int| #[trigger] first_with_pid(o, pid, i) && active(o.pcbs@[i].state) {
        let i = choose|i: int| #[trigger] first_with_pid(o, pid, i) && active(o.pcbs@[i].state);
        &&& r == 0
        &&& ncv.waiting() == Seq::<usize>::empty()
        &&& signalled(o, n, ocv.waiting(), i, sig)
    } else {
        &&& r == usize::MAX
        &&& *n == *o
        &&& *ncv == *ocv
    }
}

/// Send a signal to a process: the signal `a1` is placed in the PCB
/// of the active process with PID `a0` and every process waiting in
/// `pause()` is woken.
/// # Wrapper
/// `int kill(pid_t pid, int sig)`
/// # Return
/// 0, or `usize::MAX` (-1) if no active process has the PID
pub fn sys_kill(table: &mut ProcTable, cpu: usize, mem: &PhysMem, kill_cvar: &mut Condvar) -> (r: usize)
    requires
        has_current(old(table), cpu),
        has_trapframe(old(table), cpu),
        old(kill_cvar).wf(),
    ensures
        final(table).wf(),
        final(kill_cvar).wf(),
        final(table).next_pid == old(table).next_pid,
        final(table).cpus@ == old(table).cpus@,
        kill_done(old(table), final(table), old(kill_cvar), final(kill_cvar), current_tf(old(table), cpu, mem), r),
{
    // Current process
    let proc: usize = current_proc_unwrap(table, cpu, "kill");
    // Get arguments from Trapframe
    let tpf: Trapframe = table.pcbs[proc].trapframe(mem);
    let pid: usize = tpf.a0;
    let sig: i32 = tpf.a1 as i32;
    // Search for the process with the pid
    let opt: Option<usize> = find_proc(table, pid);
    match opt {
        None => {
            proof {
                assert(!exists|i: int| #[trigger] first_with_pid(old(table), pid, i) && active(old(table).pcbs@[i].state));
            }
            usize::MAX
        },
        Some(t) => {
            proof {
                assert(first_with_pid(old(table), pid, t as int) && active(old(table).pcbs@[t as int].state));
                let i = choose|i: int| #[trigger] first_with_pid(old(table), pid, i) && active(old(table).pcbs@[i].state);
                assert(i == t as int);
            }
            // Place the signal in the target PCB
            table.pcbs[t].kill_signal = sig;
            let ghost mid = *table;
            // Notify all processes waiting on pause()
            kill_cvar.notify_all(table);
            proof {
                assert forall|k: int| 0 <= k < NUM_PROC implies {
                    &&& (#[trigger] table.pcbs@[k]).state == if old(kill_cvar).waiting().contains(k as usize) {
                        ProcState::Ready
                    } else {
                        old(table).pcbs@[k].state
                    }
                    &&& table.pcbs@[k].kill_signal == if k == t as int { sig } else { old(table).pcbs@[k].kill_signal }
                    &&& table.pcbs@[k].pid == old(table).pcbs@[k].pid
                    &&& table.pcbs@[k].exit_status == old(table).pcbs@[k].exit_status
                    &&& table.pcbs@[k].parent == old(table).pcbs@[k].parent
                    &&& table.pcbs@[k].trapframe == old(table).pcbs@[k].trapframe
                    &&& table.pcbs@[k].pagetable == old(table).pcbs@[k].pagetable
                } by {
                    assert(same_but_state(table.pcbs@[k], mid.pcbs@[k]));
                    if k != t as int {
                        assert(mid.pcbs@[k] == old(table).pcbs@[k]);
                    }
                }
                assert(signalled(old(table), table, old(kill_cvar).waiting(), t as int, sig));
            }
            0
        },
    }
}

/// The PCBs of `n` are those of `o` but for the process at `p`, which
/// exited with `status` and released its memory, and the states of
/// the processes in `q`, which are `Ready`.
pub open spec fn exited(o: &ProcTable, n: &ProcTable, q: Seq<usize>, p: int, status: i32) -> bool {
    &&& n.pcbs@.len() == o.pcbs@.len()
    &&& forall|k: int| 0 <= k < NUM_PROC ==> {
        &&& (#[trigger] n.pcbs@[k]).state == if q.contains(k as usize) {
            ProcState::Ready
        } else if k == p {
            ProcState::Zombie
        } else {
            o.pcbs@[k].state
        }
        &&& k != p ==> same_but_state(n.pcbs@[k], o.pcbs@[k])
    }
    &&& n.pcbs@[p].exit_status == status
    &&& n.pcbs@[p].trapframe is None
    &&& n.pcbs@[p].pagetable is None
    &&& n.pcbs@[p].kstack == o.pcbs@[p].kstack
    &&& n.pcbs@[p].pid == o.pcbs@[p].pid
    &&& n.pcbs@[p].parent == o.pcbs@[p].parent
    &&& n.pcbs@[p].kill_signal == o.pcbs@[p].kill_signal
}

/// The frames that `pcb` holds are distinct used frames, and its page
/// table address leaves room for a page.
pub open spec fn holds_frames(pcb: Pcb, mem: &PhysMem, falloc: &FrameAllocator) -> bool {
    &&& pcb.pagetable_opt() is Some ==> pcb.pagetable_opt()->0 + 4096 <= u64::MAX
    &&& pcb.memory_frames(mem).no_duplicates()
    &&& forall|k: int| 0 <= k < pcb.memory_frames(mem).len() ==> {
        let x = #[trigger] pcb.memory_frames(mem)[k] as int;
        falloc.is_frame(x) && falloc.used(x)
    }
}

/// The current process can release its memory: the frames it holds
/// are distinct used frames of a well formed allocator.
pub open spec fn can_free_current(table: &ProcTable, cpu: usize, mem: &PhysMem, falloc: &FrameAllocator) -> bool {
    &&& falloc.wf()
    &&& holds_frames(table.pcbs@[current(table, cpu)], mem, falloc)
}

/// Terminate a process: its exit status is taken from a0, it becomes
/// a `Zombie`, its trapframe and address space are freed and every
/// process waiting for an exit is woken. The caller then switches
/// to the scheduler; the process does not run again.
/// # Wrapper
/// `void exit(int status)`
pub fn sys_exit(
    table: &mut ProcTable,
    cpu: usize,
    mem: &PhysMem,
    falloc: &mut FrameAllocator,
    exit_cvar: &mut Condvar,
)
    requires
        has_current(old(table), cpu),
        has_trapframe(old(table), cpu),
        can_free_current(old(table), cpu, mem, old(falloc)),
        old(exit_cvar).wf(),
    ensures
        final(table).wf(),
        final(exit_cvar).wf(),
        final(table).next_pid == old(table).next_pid,
        final(table).cpus@ == old(table).cpus@,
        final(exit_cvar).waiting() == Seq::<usize>::empty(),
        exited(old(table), final(table), old(exit_cvar).waiting(), current(old(table), cpu),
            current_tf(old(table), cpu, mem).a0 as i32),
        final(falloc).wf(),
        final(falloc).start() == old(falloc).start(),
        final(falloc).kernel_end() == old(falloc).kernel_end(),
        final(falloc).latest() == old(falloc).latest(),
        final(falloc).bits() == clear_frames(old(falloc).bits(), old(falloc).start(),
            old(table).pcbs@[current(old(table), cpu)].memory_frames(mem)),
{
    let proc: usize = current_proc_unwrap(table, cpu, "exit");
    // Get status from trapframe argument
    let tpf: Trapframe = table.pcbs[proc].trapframe(mem);
    let mut pcb: Pcb = Pcb::new();
    std::mem::swap(&mut pcb, &mut table.pcbs[proc]);
    pcb.exit_status = tpf.a0 as i32;
    pcb.state = ProcState::Zombie;
    // Free process' address space and Trapframe
    pcb.free_memory(mem, falloc);
    std::mem::swap(&mut pcb, &mut table.pcbs[proc]);
    let ghost mid = *table;
    proof {
        assert forall|k: int| 0 <= k < NUM_PROC && k != proc as int implies
            #[trigger] mid.pcbs@[k] == old(table).pcbs@[k] by {}
    }
    // Notify all processes waiting
    exit_cvar.notify_all(table);
    proof {
        assert forall|k: int| 0 <= k < NUM_PROC implies {
            &&& (#[trigger] table.pcbs@[k]).state == if old(exit_cvar).waiting().contains(k as usize) {
                ProcState::Ready
            } else if k == proc as int {
                ProcState::Zombie
            } else {
                old(table).pcbs@[k].state
            }
            &&& k != proc as int ==> same_but_state(table.pcbs@[k], old(table).pcbs@[k])
        } by {
            assert(same_but_state(table.pcbs@[k], mid.pcbs@[k]));
        }
        assert(same_but_state(table.pcbs@[proc as int], mid.pcbs@[proc as int]));
    }
}

/// Writing the trapframe page of a process does not change the frames
/// that it holds.
proof fn lemma_frames_kept_by_tf_write(pcb0: Pcb, m0: &PhysMem, m1: &PhysMem, falloc: &FrameAllocator)
    requires
        pcb0.trapframe_opt() is Some,
        pcb0.memory_frames(m0).no_duplicates(),
        forall|k: int| 0 <= k < pcb0.memory_frames(m0).len() ==> {
            let x = #[trigger] pcb0.memory_frames(m0)[k] as int;
            falloc.is_frame(x) && falloc.used(x)
        },
        pcb0.pagetable_opt() is Some ==> pcb0.pagetable_opt()->0 + 4096 <= u64::MAX,
        m1.same_outside(m0, pcb0.trapframe_opt()->0 as int, pcb0.trapframe_opt()->0 + 4 * TRAPFRAME_WORDS),
    ensures
        pcb0.memory_frames(m1) == pcb0.memory_frames(m0),
        pcb0.pagetable_opt() is Some ==> changes_away_from_tables(m0, m1, pcb0.pagetable_opt()->0),
{
    let tf = pcb0.trapframe_opt()->0;
    let frames = pcb0.memory_frames(m0);
    assert(frames[0] == tf);
    assert(falloc.is_frame(tf as int));
    if pcb0.pagetable_opt() is Some {
        let root = pcb0.pagetable_opt()->0;
        let sf = space_frames(m0, root);
        assert(frames =~= seq![tf] + sf);
        assert(frames[sf.len() as int] == root);
        assert(falloc.is_frame(root as int));
        assert(tf != root);
        assert(tf + 4096 <= root || root + 4096 <= tf) by (nonlinear_arith)
            requires tf % 4096 == 0, root % 4096 == 0, tf != root;
        assert forall|k: int| 0 <= k < 1024 && #[trigger] m0.word(pte_location(root, k)) != 0 implies {
            let t = pte_addr_of(m0.word(pte_location(root, k)));
            tf + 4 * TRAPFRAME_WORDS <= t || t + 4096 <= tf
        } by {
            let t = pte_addr_of(m0.word(pte_location(root, k)));
            lemma_table_in_space(m0, root, 0, k);
            let j = choose|j: int| 0 <= j < space_frames_from(m0, root, 0).len()
                && space_frames_from(m0, root, 0)[j] == t;
            assert(sf[j] == t);
            assert(frames[1 + j] == t);
            assert(falloc.is_frame(t as int));
            assert(t != tf);
            assert(tf + 4096 <= t || t + 4096 <= tf) by (nonlinear_arith)
                requires tf % 4096 == 0, t % 4096 == 0, tf != t;
        }
        lemma_space_frames_kept(m0, m1, root, tf as int, tf + 4 * TRAPFRAME_WORDS);
        assert forall|a: int| 0 <= a < 0x1_0000_0000_0000_0000 && #[trigger] m1.byte(a) != m0.byte(a) implies {
            &&& !(root <= a < root + 4096)
            &&& forall|k: int| 0 <= k < 1024 && #[trigger] m0.word(pte_location(root, k)) != 0 ==> {
                let t = pte_addr_of(m0.word(pte_location(root, k)));
                !(t <= a < t + 4096)
            }
        } by {
            assert(tf <= a < tf + 4 * TRAPFRAME_WORDS);
        }
    }
}

/// A status stored in the a0 slot reads back unchanged.
proof fn lemma_status_read_back(mem: &PhysMem, tf: u64, status: i32)
    requires
        mem.word(tf + 4 * 13) == (status as usize) as u32,
    ensures
        Trapframe::from_mem(mem, tf).a0 as i32 == status,
        mem.word(tf + 4 * 13) == status as u32,
{
    assert((((status as usize) as u32) as usize) as i32 == status) by (bit_vector);
    assert((status as usize) as u32 == status as u32) by (bit_vector);
}

/// Write `tpf` as the trapframe of the process at `proc`; the frames
/// that the process holds stay the same.
pub(crate) fn store_trapframe(table: &ProcTable, proc: usize, tpf: Trapframe, mem: &mut PhysMem, falloc: &FrameAllocator)
    requires
        table.wf(),
        proc < NUM_PROC,
        table.pcbs@[proc as int].trapframe_opt() is Some,
        table.pcbs@[proc as int].trapframe_opt()->0 + 4 * TRAPFRAME_WORDS <= u64::MAX,
        holds_frames(table.pcbs@[proc as int], old(mem), falloc),
    ensures
        ({
            let pcb = table.pcbs@[proc as int];
            let tf = pcb.trapframe_opt()->0;
            &&& final(mem).same_outside(old(mem), tf as int, tf + 4 * TRAPFRAME_WORDS)
            &&& forall|k: int| 0 <= k < TRAPFRAME_WORDS ==> #[trigger] final(mem).word(tf + 4 * k) == tpf.words()[k]
            &&& pcb.memory_frames(final(mem)) == pcb.memory_frames(old(mem))
            &&& pcb.pagetable_opt() is Some ==> changes_away_from_tables(old(mem), final(mem), pcb.pagetable_opt()->0)
        }),
{
    let ghost m0 = *mem;
    table.pcbs[proc].write_trapframe(tpf, mem);
    proof {
        lemma_frames_kept_by_tf_write(table.pcbs@[proc as int], &m0, mem, falloc);
    }
}

/// Place `value` in the a0 slot of the trapframe of the process at
/// `proc`; the other slots and the frames that the process holds stay
/// the same.
#[verifier::rlimit(30)]
pub(crate) fn set_a0(table: &ProcTable, proc: usize, value: usize, mem: &mut PhysMem, falloc: &FrameAllocator)
    requires
        table.wf(),
        proc < NUM_PROC,
        table.pcbs@[proc as int].trapframe_opt() is Some,
        table.pcbs@[proc as int].trapframe_opt()->0 + 4 * TRAPFRAME_WORDS <= u64::MAX,
        holds_frames(table.pcbs@[proc as int], old(mem), falloc),
    ensures
        ({
            let pcb = table.pcbs@[proc as int];
            let tf = pcb.trapframe_opt()->0;
            &&& final(mem).same_outside(old(mem), tf as int, tf + 4 * TRAPFRAME_WORDS)
            &&& final(mem).word(tf + 4 * A0_SLOT) == value as u32
            &&& forall|k: int| 0 <= k < TRAPFRAME_WORDS && k != A0_SLOT ==>
                #[trigger] final(mem).word(tf + 4 * k) == old(mem).word(tf + 4 * k)
            &&& pcb.memory_frames(final(mem)) == pcb.memory_frames(old(mem))
            &&& pcb.pagetable_opt() is Some ==> changes_away_from_tables(old(mem), final(mem), pcb.pagetable_opt()->0)
        }),
{
    let ghost tf = table.pcbs@[proc as int].trapframe_opt()->0;
    let mut tpf: Trapframe = table.pcbs[proc].trapframe(mem);
    proof {
        lemma_words_of_mem(mem, tf);
        lemma_words_set_a0(tpf, value);
    }
    tpf.a0 = value;
    store_trapframe(table, proc, tpf, mem, falloc);
}

/// Advance the saved program counter of the process at `proc` past
/// the `ecall` instruction (4 bytes); the other slots and the frames
/// that the process holds stay the same.
#[verifier::rlimit(30)]
pub(crate) fn advance_epc(table: &ProcTable, proc: usize, mem: &mut PhysMem, falloc: &FrameAllocator)
    requires
        table.wf(),
        proc < NUM_PROC,
        table.pcbs@[proc as int].trapframe_opt() is Some,
        table.pcbs@[proc as int].trapframe_opt()->0 + 4 * TRAPFRAME_WORDS <= u64::MAX,
        holds_frames(table.pcbs@[proc as int], old(mem), falloc),
        Trapframe::from_mem(old(mem), table.pcbs@[proc as int].trapframe_opt()->0).epc + 4 <= usize::MAX,
    ensures
        ({
            let pcb = table.pcbs@[proc as int];
            let tf = pcb.trapframe_opt()->0;
            &&& final(mem).same_outside(old(mem), tf as int, tf + 4 * TRAPFRAME_WORDS)
            &&& final(mem).word(tf + 4 * EPC_SLOT) == (Trapframe::from_mem(old(mem), tf).epc + 4) as u32
            &&& forall|k: int| 0 <= k < TRAPFRAME_WORDS && k != EPC_SLOT ==>
                #[trigger] final(mem).word(tf + 4 * k) == old(mem).word(tf + 4 * k)
            &&& pcb.memory_frames(final(mem)) == pcb.memory_frames(old(mem))
            &&& pcb.pagetable_opt() is Some ==> changes_away_from_tables(old(mem), final(mem), pcb.pagetable_opt()->0)
        }),
{
    let ghost tf = table.pcbs@[proc as int].trapframe_opt()->0;
    let mut tpf: Trapframe = table.pcbs[proc].trapframe(mem);
    proof {
        lemma_words_of_mem(mem, tf);
        lemma_words_set_epc(tpf, (tpf.epc + 4) as usize);
    }
    tpf.epc = tpf.epc + 4;
    store_trapframe(table, proc, tpf, mem, falloc);
}

/// Exit the current process running on kernel mode by setting the
/// exit status in its trapframe (a0) and doing the `exit` system
/// call as if it came from user mode.
pub fn kexit(
    status: i32,
    table: &mut ProcTable,
    cpu: usize,
    mem: &mut PhysMem,
    falloc: &mut FrameAllocator,
    exit_cvar: &mut Condvar,
)
    requires
        has_current(old(table), cpu),
        has_trapframe(old(table), cpu),
        can_free_current(old(table), cpu, old(mem), old(falloc)),
        old(exit_cvar).wf(),
    ensures
        final(table).wf(),
        final(exit_cvar).wf(),
        final(table).next_pid == old(table).next_pid,
        final(table).cpus@ == old(table).cpus@,
        final(exit_cvar).waiting() == Seq::<usize>::empty(),
        exited(old(table), final(table), old(exit_cvar).waiting(), current(old(table), cpu), status),
        final(falloc).wf(),
        final(falloc).start() == old(falloc).start(),
        final(falloc).kernel_end() == old(falloc).kernel_end(),
        final(falloc).latest() == old(falloc).latest(),
        final(falloc).bits() == clear_frames(old(falloc).bits(), old(falloc).start(),
            old(table).pcbs@[current(old(table), cpu)].memory_frames(old(mem))),
        ({
            let tf = old(table).pcbs@[current(old(table), cpu)].trapframe_opt()->0;
            &&& final(mem).same_outside(old(mem), tf as int, tf + 4 * TRAPFRAME_WORDS)
            &&& final(mem).word(tf + 4 * 13) == status as u32
        }),
{
    let proc: usize = current_proc_unwrap(table, cpu, "kexit");
    // Set the argument for status
    set_a0(table, proc, status as usize, mem, falloc);
    proof {
        let tf = table.pcbs@[proc as int].trapframe_opt()->0;
        lemma_status_read_back(mem, tf, status);
    }
    // Call syscall function
    sys_exit(table, cpu, mem, falloc, exit_cvar);
}

/// Wait for a signal to this process: while no signal arrived the
/// process waits; `SIGKILL` makes it exit; any other signal is
/// cleared and the call returns `usize::MAX` (-1).
/// # Wrapper
/// `int pause(void)`
pub fn sys_pause(table: &mut ProcTable, cpu: usize, kill_cvar: &mut Condvar) -> (r: SyscallStep)
    requires
        has_current(old(table), cpu),
        old(kill_cvar).wf(),
    ensures
        final(table).wf(),
        final(kill_cvar).wf(),
        final(table).next_pid == old(table).next_pid,
        ({
            let p = current(old(table), cpu);
            let sig = old(table).pcbs@[p].kill_signal;
            if sig == i32::MAX {
                &&& r is Blocked
                &&& final(table).pcbs@[p].state == ProcState::Waiting
                &&& same_but_state(final(table).pcbs@[p], old(table).pcbs@[p])
                &&& final(table).same_except(old(table), p)
                &&& final(kill_cvar).waiting() == if old(kill_cvar).waiting().len() < NUM_PROC {
                    old(kill_cvar).waiting().push(p as usize)
                } else {
                    old(kill_cvar).waiting()
                }
            } else if sig == SIGKILL {
                &&& r == SyscallStep::Exit(SIGKILL)
                &&& *final(table) == *old(table)
                &&& *final(kill_cvar) == *old(kill_cvar)
            } else {
                &&& r == SyscallStep::Done(usize::MAX)
                &&& final(table).pcbs@[p].kill_signal == i32::MAX
                &&& same_but_signal(final(table).pcbs@[p], old(table).pcbs@[p])
                &&& final(table).same_except(old(table), p)
                &&& *final(kill_cvar) == *old(kill_cvar)
            }
        }),
{
    // Process mutex
    let proc: usize = current_proc_unwrap(table, cpu, "pause");
    // Wait while the kill_signal is the default value
    if table.pcbs[proc].kill_signal == i32::MAX {
        // Process waits on its own PCB
        kill_cvar.wait_self(table, proc);
        return SyscallStep::Blocked;
    }
    // Other signals may be added, only SIGKILL for now
    if table.pcbs[proc].kill_signal == SIGKILL {
        return SyscallStep::Exit(SIGKILL);
    }
    // Clear kill_signal field
    table.pcbs[proc].kill_signal = i32::MAX;
    // This is equivalent to -1 when casting to i32
    SyscallStep::Done(usize::MAX)
}

/// Every field but the kill signal is the same in the two PCBs.
pub open spec fn same_but_signal(n: Pcb, o: Pcb) -> bool {
    &&& n.pid == o.pid && n.state == o.state && n.exit_status == o.exit_status
    &&& n.parent == o.parent && n.size == o.size && n.ctx == o.ctx
    &&& n.kstack == o.kstack && n.pagetable == o.pagetable && n.trapframe == o.trapframe
    &&& n.sleep_until == o.sleep_until
}

/// Number of ticks that `sleep(ticks)` asks for: a0 holds the low
/// 32 bits and a1 the high ones.
pub open spec fn sleep_request(tf: Trapframe) -> int {
    tf.a0 as u64 + ((tf.a1 as u64) << 32u64)
}

/// Tick count at which the sleep of `pcb` ends: the one kept from
/// its first check, or the request added to the current tick count.
pub open spec fn sleep_target(pcb: Pcb, tf: Trapframe, now: u64) -> int {
    match pcb.sleep_until {
        Some(t) => t as int,
        None => sleep_request(tf) + now,
    }
}

/// Sleep for the specified number of ticks: the tick count at which
/// the sleep ends is computed at the first check and kept in the PCB
/// until the sleep ends; the process waits until it is reached.
/// # Wrapper
/// `unsigned sleep(unsigned ticks)`
/// # Return
/// The tick count at which the sleep ends and the step taken
pub fn sys_sleep(
    table: &mut ProcTable,
    cpu: usize,
    mem: &PhysMem,
    now: u64,
    ticks_cvar: &mut Condvar,
) -> (r: (u64, SyscallStep))
    requires
        has_current(old(table), cpu),
        has_trapframe(old(table), cpu),
        old(ticks_cvar).wf(),
        sleep_target(old(table).pcbs@[current(old(table), cpu)], current_tf(old(table), cpu, mem), now) <= u64::MAX,
    ensures
        r.0 == sleep_target(old(table).pcbs@[current(old(table), cpu)], current_tf(old(table), cpu, mem), now),
        sleep_waited(old(table), final(table), old(ticks_cvar), final(ticks_cvar), cpu, r.0, now, r.1),
{
    let proc: usize = current_proc_unwrap(table, cpu, "sleep");
    let tpf: Trapframe = table.pcbs[proc].trapframe(mem);
    let ticks: u64 = match table.pcbs[proc].sleep_until {
        Some(t) => t,
        None => {
            // Get the argument for sleep() and add the current TICKS count
            let request: u64 = tpf.a0 as u64 + ((tpf.a1 as u64) << 32u64);
            request + now
        },
    };
    let step: SyscallStep = sleep_step(table, cpu, ticks, now, ticks_cvar);
    (ticks, step)
}

/// The step of a sleep until the tick count `target`, at the tick
/// count `now`: done when the target is reached, the process leaving
/// no target in its PCB; waiting otherwise, with the target kept in
/// its PCB.
pub open spec fn sleep_waited(
    old_table: &ProcTable,
    new_table: &ProcTable,
    old_cvar: &Condvar,
    new_cvar: &Condvar,
    cpu: usize,
    target: u64,
    now: u64,
    r: SyscallStep,
) -> bool {
    let p = current(old_table, cpu);
    let o = old_table.pcbs@[p];
    &&& new_table.wf()
    &&& new_cvar.wf()
    &&& new_table.next_pid == old_table.next_pid
    &&& new_table.same_except(old_table, p)
    &&& if now < target {
        &&& r is Blocked
        &&& new_table.pcbs@[p].state == ProcState::Waiting
        &&& same_but_state(new_table.pcbs@[p], Pcb { sleep_until: Some(target), ..o })
        &&& new_cvar.waiting() == if old_cvar.waiting().len() < NUM_PROC {
            old_cvar.waiting().push(p as usize)
        } else {
            old_cvar.waiting()
        }
    } else {
        &&& r == SyscallStep::Done(0)
        &&& new_table.pcbs@[p] == Pcb { sleep_until: None, ..o }
        &&& *new_cvar == *old_cvar
    }
}

/// One check of a sleep: wait on the ticks condition variable until
/// the tick count `now` reaches `target`.
pub fn sleep_step(table: &mut ProcTable, cpu: usize, target: u64, now: u64, ticks_cvar: &mut Condvar) -> (r: SyscallStep)
    requires
        has_current(old(table), cpu),
        old(ticks_cvar).wf(),
    ensures
        sleep_waited(old(table), final(table), old(ticks_cvar), final(ticks_cvar), cpu, target, now, r),
{
    let proc: usize = current_proc_unwrap(table, cpu, "sleep");
    // Wait until TICKS reaches the specified value
    if now < target {
        table.pcbs[proc].sleep_until = Some(target);
        ticks_cvar.wait(table, cpu);
        return SyscallStep::Blocked;
    }
    table.pcbs[proc].sleep_until = None;
    SyscallStep::Done(0)
}

/// Return the system uptime in milliseconds, given the tick count
/// and the length of a tick in milliseconds.
/// # Wrapper
/// `unsigned uptime(void)`
pub fn sys_uptime(ticks: u64, tick_time: u64) -> (r: usize)
    requires
        ticks * tick_time <= u64::MAX,
    ensures
        r == (ticks * tick_time) as usize,
{
    (ticks * tick_time) as usize
}

/// A process that `kill` sends `SIGKILL` holds it in its PCB: it is
/// then terminated, and its next `pause` makes it exit.
pub proof fn lemma_kill_then_terminated(
    o: &ProcTable,
    n: &ProcTable,
    ocv: &Condvar,
    ncv: &Condvar,
    tf: Trapframe,
    r: usize,
    i: int,
)
    requires
        kill_done(o, n, ocv, ncv, tf, r),
        first_with_pid(o, tf.a0, i),
        active(o.pcbs@[i].state),
        tf.a1 as i32 == SIGKILL,
    ensures
        r == 0,
        n.pcbs@[i].kill_signal == SIGKILL,
{
    let j = choose|j: int| #[trigger] first_with_pid(o, tf.a0, j) && active(o.pcbs@[j].state);
    assert(j == i) by {
        if j < i {
            assert(o.pcbs@[j].pid != tf.a0);
        } else if j > i {
            assert(o.pcbs@[i].pid != tf.a0);
        }
    }
}

/// `kill` of an active process wakes every process paused on the kill
/// condition variable: each of them is `Ready` afterwards, so it sees
/// the signal, the queue is empty, the target holds the signal and the
/// call returns 0.
pub proof fn lemma_kill_wakes_paused(
    o: &ProcTable,
    n: &ProcTable,
    ocv: &Condvar,
    ncv: &Condvar,
    tf: Trapframe,
    r: usize,
    i: int,
)
    requires
        kill_done(o, n, ocv, ncv, tf, r),
        first_with_pid(o, tf.a0, i),
        active(o.pcbs@[i].state),
    ensures
        r == 0,
        ncv.waiting() == Seq::<usize>::empty(),
        forall|q: usize| #[trigger] ocv.waiting().contains(q) && q < NUM_PROC ==>
            n.pcbs@[q as int].state == ProcState::Ready,
        n.pcbs@[i].kill_signal == tf.a1 as i32,
        forall|k: int| 0 <= k < NUM_PROC && k != i ==> #[trigger] n.pcbs@[k].kill_signal == o.pcbs@[k].kill_signal,
        forall|k: int| 0 <= k < NUM_PROC && !ocv.waiting().contains(k as usize) ==>
            #[trigger] n.pcbs@[k].state == o.pcbs@[k].state,
{
    let j = choose|j: int| #[trigger] first_with_pid(o, tf.a0, j) && active(o.pcbs@[j].state);
    assert(j == i) by {
        if j < i {
            assert(o.pcbs@[j].pid != tf.a0);
        } else if j > i {
            assert(o.pcbs@[i].pid != tf.a0);
        }
    }
    assert forall|q: usize| #[trigger] ocv.waiting().contains(q) && q < NUM_PROC implies
        n.pcbs@[q as int].state == ProcState::Ready by {
        assert(n.pcbs@[q as int].state == ProcState::Ready);
    }
}

/// `kill` of a PID that no active process has returns `usize::MAX`
/// (-1) and changes nothing: no signal is placed and no process wakes.
pub proof fn lemma_kill_without_target(
    o: &ProcTable,
    n: &ProcTable,
    ocv: &Condvar,
    ncv: &Condvar,
    tf: Trapframe,
    r: usize,
)
    requires
        kill_done(o, n, ocv, ncv, tf, r),
        forall|i: int| 0 <= i < NUM_PROC && #[trigger] o.pcbs@[i].pid == tf.a0 ==> !active(o.pcbs@[i].state),
    ensures
        r == usize::MAX,
        *n == *o,
        *ncv == *ocv,
{
    if exists|i: int| #[trigger] first_with_pid(o, tf.a0, i) && active(o.pcbs@[i].state) {
        let i = choose|i: int| #[trigger] first_with_pid(o, tf.a0, i) && active(o.pcbs@[i].state);
        assert(o.pcbs@[i].pid == tf.a0);
    }
}

/// A child that exited with `status` is reaped by its parent's
/// `waitpid`: the call returns its PID, stores the status at the
/// status address (when it is not 0 and lies in user pages) and frees
/// its PCB.
pub proof fn lemma_exit_then_waitpid(
    o: &ProcTable,
    n: &ProcTable,
    ocv: &Condvar,
    ncv: &Condvar,
    m0: &PhysMem,
    m1: &PhysMem,
    p: int,
    c: int,
    tf: Trapframe,
    r: SyscallStep,
)
    requires
        child_with_pid(o, p, tf.a0, c),
        o.pcbs@[c].state == ProcState::Zombie,
        tf.a1 != 0 ==> user_range_ok(m0, o.pcbs@[p].pagetable_opt()->0, tf.a1 as u64, 4),
        waitpid_done(o, n, ocv, ncv, m0, m1, p, tf, r),
    ensures
        r == SyscallStep::Done(tf.a0),
        unused_pcb(n.pcbs@[c]),
        tf.a1 != 0 ==> forall|t: int| 0 <= t < 4 ==>
            #[trigger] m1.byte(user_addr(m0, o.pcbs@[p].pagetable_opt()->0, tf.a1 as u64, t))
                == word_byte(o.pcbs@[c].exit_status as u32, t),
{
    let j = choose|j: int| #[trigger] child_with_pid(o, p, tf.a0, j);
    assert(j == c) by {
        if j < c {
            assert(o.pcbs@[j].pid != tf.a0);
        } else if j > c {
            assert(o.pcbs@[c].pid != tf.a0);
        }
    }
}

} // verus!
