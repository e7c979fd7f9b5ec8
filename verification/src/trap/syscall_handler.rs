//! System call handling.
//!
//! This module contains mechanisms for handling and dispatching
//! system calls, i.e. system call codes and handler function.

use vstd::prelude::*;
use crate::kernel::Kernel;
use crate::memory::phys_mem::PhysMem;
use crate::memory::frame_alloc::clear_frames;
use crate::memory::virtual_memory::{user_dst_disjoint, user_dst_away};
use crate::mmio::monitor::MonitorView;
use crate::mmio::uart::{decimal, push_decimal, lemma_usize_digits};
use crate::io::console::ConsoleView;
use crate::proc::processing::current_proc_unwrap;
use crate::riscv::memory_types::lemma_space_frames_kept_away;
use crate::trap::trap_types::{Trapframe, TRAPFRAME_WORDS, A0_SLOT};
use crate::trap::syscall_proc::{
    SyscallStep, has_current, has_trapframe, current, current_tf, holds_frames, exited, kill_done,
    waitpid_done, sleep_target, sleep_waited, set_a0, sys_exit, sys_fork, sys_waitpid, sys_execv,
    sys_kill, sys_getpid, sys_sleep, sys_pause, kexit, same_but_signal,
};
use crate::proc::sync::same_but_state;
use crate::proc::control_types::{ProcState, SIGKILL};
use crate::config::constants::NUM_PROC;
use crate::trap::syscall_file::{sys_read, sys_write, sys_open, sys_close, sys_pipe, sys_dup};

verus! {

// System call codes to invoke a system call
pub const SYS_EXIT: usize = 1;
pub const SYS_FORK: usize = 2;
pub const SYS_READ: usize = 3;
pub const SYS_WRITE: usize = 4;
pub const SYS_OPEN: usize = 5;
pub const SYS_CLOSE: usize = 6;
pub const SYS_WAITPID: usize = 7;
pub const SYS_EXECV: usize = 8;
pub const SYS_PIPE: usize = 9;
pub const SYS_DUP: usize = 10;
pub const SYS_KILL: usize = 11;
pub const SYS_PAUSE: usize = 12;
pub const SYS_GETPID: usize = 13;
pub const SYS_SLEEP: usize = 14;

/// What became of the process that made a system call.
#[derive(Copy, Clone, Debug, PartialEq, Eq, Structural)]
pub enum SyscallOutcome {
    /// The call returned this value, now in a0 of the trapframe.
    Returned(usize),
    /// The process waits; the call is made again when it runs again.
    Blocked,
    /// The process exited; it does not run again.
    Exited,
}

/// The system call numbers that the handler dispatches.
pub open spec fn dispatched(n: usize) -> bool {
    n == SYS_EXIT || n == SYS_FORK || n == SYS_READ || n == SYS_WRITE || n == SYS_OPEN
        || n == SYS_CLOSE || n == SYS_WAITPID || n == SYS_EXECV || n == SYS_PIPE || n == SYS_DUP
        || n == SYS_KILL || n == SYS_PAUSE || n == SYS_GETPID || n == SYS_SLEEP
}

/// The message printed for an unknown system call:
/// `"\n\rUnknown system call. PID: "` and the PID in decimal.
pub open spec fn unknown_message(pid: usize) -> Seq<u8> {
    seq![10u8, 13u8, 85u8, 110u8, 107u8, 110u8, 111u8, 119u8, 110u8, 32u8, 115u8, 121u8, 115u8, 116u8,
        101u8, 109u8, 32u8, 99u8, 97u8, 108u8, 108u8, 46u8, 32u8, 80u8, 73u8, 68u8, 58u8, 32u8]
        + decimal(pid as nat)
}

/// What a system call by the process on `cpu` needs: a trapframe,
/// frames that it can release, a sleep that ends within the tick
/// counter, for `waitpid` a caller that has not exited and a status
/// address that lies in user pages away from the page table, and room
/// on the monitor for the message of an unknown call.
pub open spec fn syscall_ok(k: &Kernel, cpu: usize) -> bool {
    let p = current(&k.table, cpu);
    let pcb = k.table.pcbs@[p];
    let tf = current_tf(&k.table, cpu, &k.mem);
    let stat = tf.a1 as u64;
    &&& k.wf()
    &&& has_current(&k.table, cpu)
    &&& has_trapframe(&k.table, cpu)
    &&& holds_frames(pcb, &k.mem, &k.falloc)
    &&& tf.a7 == SYS_SLEEP ==> sleep_target(pcb, tf, k.ticks) <= u64::MAX
    &&& tf.a7 == SYS_WAITPID ==> {
        &&& pcb.state != ProcState::Zombie
        &&& stat != 0 ==> {
            &&& pcb.pagetable_opt() is Some
            &&& pcb.pagetable_opt()->0 + 4096 <= u64::MAX
            &&& user_dst_disjoint(&k.mem, pcb.pagetable_opt()->0, stat, 4)
            &&& user_dst_away(&k.mem, pcb.pagetable_opt()->0, stat, 4)
        }
    }
    &&& !dispatched(tf.a7) ==> k.console.monitor@.room(48)
}

/// `m1` is `m0` with `v` in the a0 slot of the trapframe at `tf`.
pub open spec fn a0_written(m0: &PhysMem, m1: &PhysMem, tf: u64, v: usize) -> bool {
    &&& m1.same_outside(m0, tf as int, tf + 4 * TRAPFRAME_WORDS)
    &&& m1.word(tf + 4 * A0_SLOT) == v as u32
    &&& forall|k: int| 0 <= k < TRAPFRAME_WORDS && k != A0_SLOT ==>
        #[trigger] m1.word(tf + 4 * k) == m0.word(tf + 4 * k)
}

/// Effect of the system call `a7` made by the process on `cpu`, from
/// the kernel state `o` to `n`, with outcome `r`; `out0` and `out1` are
/// the monitor output before and after.
#[verifier::opaque]
pub open spec fn syscall_effect(
    o: &Kernel,
    n: &Kernel,
    cpu: usize,
    r: SyscallOutcome,
    out0: Seq<u8>,
    out1: Seq<u8>,
) -> bool {
    let p = current(&o.table, cpu);
    let tf = current_tf(&o.table, cpu, &o.mem);
    let tfa = o.table.pcbs@[p].trapframe_opt()->0;
    let a7 = tf.a7;
    let sig = o.table.pcbs@[p].kill_signal;
    &&& a7 != SYS_EXIT && a7 != SYS_KILL && a7 != SYS_WAITPID && a7 != SYS_SLEEP && a7 != SYS_PAUSE ==> {
        &&& n.table == o.table
        &&& n.kill_cvar == o.kill_cvar && n.exit_cvar == o.exit_cvar && n.ticks_cvar == o.ticks_cvar
    }
    &&& a7 != SYS_EXIT && a7 != SYS_PAUSE ==> n.falloc == o.falloc
    &&& a7 != SYS_EXIT && a7 != SYS_KILL && a7 != SYS_PAUSE ==> n.kill_cvar == o.kill_cvar
    &&& a7 != SYS_WAITPID && a7 != SYS_EXIT && a7 != SYS_PAUSE ==> n.exit_cvar == o.exit_cvar
    &&& a7 == SYS_PAUSE ==> {
        &&& sig == i32::MAX ==> {
            &&& r is Blocked
            &&& n.table.pcbs@[p].state == ProcState::Waiting
            &&& same_but_state(n.table.pcbs@[p], o.table.pcbs@[p])
            &&& n.table.same_except(&o.table, p)
            &&& n.kill_cvar.waiting() == if o.kill_cvar.waiting().len() < NUM_PROC {
                o.kill_cvar.waiting().push(p as usize)
            } else {
                o.kill_cvar.waiting()
            }
            &&& n.falloc == o.falloc && n.exit_cvar == o.exit_cvar && n.mem == o.mem
        }
        &&& sig == SIGKILL ==> {
            &&& r is Exited
            &&& exited(&o.table, &n.table, o.exit_cvar.waiting(), p, SIGKILL)
            &&& n.exit_cvar.waiting() == Seq::<usize>::empty()
            &&& n.falloc.bits() == clear_frames(o.falloc.bits(), o.falloc.start(),
                o.table.pcbs@[p].memory_frames(&o.mem))
            &&& n.falloc.start() == o.falloc.start()
            &&& n.kill_cvar == o.kill_cvar
            &&& n.mem.same_outside(&o.mem, tfa as int, tfa + 4 * TRAPFRAME_WORDS)
            &&& n.mem.word(tfa + 4 * A0_SLOT) == SIGKILL as u32
        }
        &&& sig != i32::MAX && sig != SIGKILL ==> {
            &&& r == SyscallOutcome::Returned(usize::MAX)
            &&& n.table.pcbs@[p].kill_signal == i32::MAX
            &&& same_but_signal(n.table.pcbs@[p], o.table.pcbs@[p])
            &&& n.table.same_except(&o.table, p)
            &&& n.falloc == o.falloc && n.exit_cvar == o.exit_cvar && n.kill_cvar == o.kill_cvar
            &&& a0_written(&o.mem, &n.mem, tfa, usize::MAX)
        }
    }
    &&& a7 != SYS_SLEEP ==> n.ticks_cvar == o.ticks_cvar
    &&& dispatched(a7) ==> n.console == o.console && out1 == out0
    &&& a7 == SYS_EXIT ==> {
        &&& r is Exited
        &&& exited(&o.table, &n.table, o.exit_cvar.waiting(), p, tf.a0 as i32)
        &&& n.exit_cvar.waiting() == Seq::<usize>::empty()
        &&& n.falloc.bits() == clear_frames(o.falloc.bits(), o.falloc.start(),
            o.table.pcbs@[p].memory_frames(&o.mem))
        &&& n.falloc.start() == o.falloc.start()
        &&& n.mem == o.mem
    }
    &&& a7 == SYS_KILL ==> exists|v: usize| {
        &&& r == SyscallOutcome::Returned(v)
        &&& #[trigger] kill_done(&o.table, &n.table, &o.kill_cvar, &n.kill_cvar, tf, v)
        &&& a0_written(&o.mem, &n.mem, tfa, v)
    }
    &&& a7 == SYS_WAITPID ==> exists|mid: PhysMem, step: SyscallStep| {
        &&& #[trigger] waitpid_done(&o.table, &n.table, &o.exit_cvar, &n.exit_cvar, &o.mem, &mid, p, tf, step)
        &&& step is Blocked ==> r is Blocked && n.mem == mid
        &&& step matches SyscallStep::Done(v) ==> r == SyscallOutcome::Returned(v) && a0_written(&mid, &n.mem, tfa, v)
    }
    &&& a7 == SYS_SLEEP ==> {
        let target = sleep_target(o.table.pcbs@[p], tf, o.ticks);
        exists|step: SyscallStep| {
            &&& #[trigger] sleep_waited(&o.table, &n.table, &o.ticks_cvar, &n.ticks_cvar, cpu, target as u64, o.ticks, step)
            &&& step is Blocked ==> r is Blocked && n.mem == o.mem
            &&& step matches SyscallStep::Done(v) ==> r == SyscallOutcome::Returned(v) && a0_written(&o.mem, &n.mem, tfa, v)
        }
    }
    &&& a7 == SYS_GETPID ==> r == SyscallOutcome::Returned(o.table.pcbs@[p].pid) && a0_written(&o.mem, &n.mem, tfa, o.table.pcbs@[p].pid)
    &&& (a7 == SYS_FORK || a7 == SYS_READ || a7 == SYS_WRITE || a7 == SYS_OPEN || a7 == SYS_CLOSE
        || a7 == SYS_EXECV || a7 == SYS_PIPE || a7 == SYS_DUP) ==> r == SyscallOutcome::Returned(0)
        && a0_written(&o.mem, &n.mem, tfa, 0)
    &&& !dispatched(a7) ==> {
        let msg = unknown_message(o.table.pcbs@[p].pid);
        &&& r == SyscallOutcome::Returned(0)
        &&& a0_written(&o.mem, &n.mem, tfa, 0)
        &&& n.console@ == (ConsoleView { monitor: o.console.monitor@.write_bytes(msg).0, ..o.console@ })
        &&& n.console.input_cvar == o.console.input_cvar
        &&& out1 == out0 + o.console.monitor@.write_bytes(msg).1
    }
}

/// Print the message of an unknown system call.
fn print_unknown(k: &mut Kernel, pid: usize, out: &mut Vec<u8>)
    requires
        old(k).wf(),
        old(k).console.monitor@.room(48),
    ensures
        final(k).wf(),
        final(k).table == old(k).table,
        final(k).mem == old(k).mem,
        final(k).falloc == old(k).falloc,
        final(k).kill_cvar == old(k).kill_cvar,
        final(k).exit_cvar == old(k).exit_cvar,
        final(k).ticks_cvar == old(k).ticks_cvar,
        final(k).ticks == old(k).ticks,
        final(k).console@ == (ConsoleView {
            monitor: old(k).console.monitor@.write_bytes(unknown_message(pid)).0,
            ..old(k).console@
        }),
        final(k).console.input_cvar == old(k).console.input_cvar,
        final(out)@ == old(out)@ + old(k).console.monitor@.write_bytes(unknown_message(pid)).1,
{
    let mut msg: Vec<u8> = vec![10u8, 13u8, 85u8, 110u8, 107u8, 110u8, 111u8, 119u8, 110u8, 32u8, 115u8,
        121u8, 115u8, 116u8, 101u8, 109u8, 32u8, 99u8, 97u8, 108u8, 108u8, 46u8, 32u8, 80u8, 73u8, 68u8,
        58u8, 32u8];
    push_decimal(&mut msg, pid);
    proof {
        assert(msg@ =~= unknown_message(pid));
        lemma_usize_digits(pid);
    }
    k.console.monitor.write_slice(msg.as_slice(), out);
}

/// System call handler: reads the a7 register from the trapframe of
/// the process on `cpu` to dispatch a system call, and places the
/// value it returns in a0. An unknown call is reported on the
/// monitor and returns 0.
pub fn syscall(k: &mut Kernel, cpu: usize, out: &mut Vec<u8>) -> (r: SyscallOutcome)
    requires
        syscall_ok(old(k), cpu),
    ensures
        final(k).wf(),
        final(k).ticks == old(k).ticks,
        final(k).table.cpus@ == old(k).table.cpus@,
        final(k).table.next_pid == old(k).table.next_pid,
        syscall_effect(old(k), final(k), cpu, r, old(out)@, final(out)@),
        !(r is Exited) ==> {
            let p = current(&old(k).table, cpu);
            &&& final(k).table.pcbs@[p].trapframe == old(k).table.pcbs@[p].trapframe
            &&& final(k).table.pcbs@[p].pagetable == old(k).table.pcbs@[p].pagetable
            &&& holds_frames(final(k).table.pcbs@[p], &final(k).mem, &final(k).falloc)
        },
{
    proof {
        reveal(syscall_effect);
    }
    // Current process on this CPU
    let proc: usize = current_proc_unwrap(&k.table, cpu, "syscall");
    // Get trapframe
    let tpf: Trapframe = k.table.pcbs[proc].trapframe(&k.mem);
    let mut ret: usize = 0; // Syscall return code
    let pid: usize = k.table.pcbs[proc].pid; // Process pid
    let ghost o = *k;
    let ghost pcb0 = k.table.pcbs@[proc as int];
    let ghost mut m_mid: PhysMem = k.mem;
    let ghost mut step0: SyscallStep = SyscallStep::Blocked;
    // Call the system call function
    if tpf.a7 == SYS_EXIT {
        sys_exit(&mut k.table, cpu, &k.mem, &mut k.falloc, &mut k.exit_cvar);
        return SyscallOutcome::Exited;
    } else if tpf.a7 == SYS_FORK {
        ret = sys_fork();
    } else if tpf.a7 == SYS_READ {
        ret = sys_read();
    } else if tpf.a7 == SYS_WRITE {
        ret = sys_write();
    } else if tpf.a7 == SYS_OPEN {
        ret = sys_open();
    } else if tpf.a7 == SYS_CLOSE {
        ret = sys_close();
    } else if tpf.a7 == SYS_WAITPID {
        let ghost m0 = k.mem;
        let step: SyscallStep = sys_waitpid(&mut k.table, cpu, &mut k.mem, &mut k.falloc, &mut k.exit_cvar);
        proof {
            m_mid = k.mem;
            step0 = step;
            if step matches SyscallStep::Done(_) {
                let pt = pcb0.pagetable_opt();
                if pt is Some && k.mem != m0 {
                    lemma_space_frames_kept_away(&m0, &k.mem, pt->0);
                }
                assert(pcb0.memory_frames(&k.mem) == pcb0.memory_frames(&m0));
            }
        }
        match step {
            SyscallStep::Done(v) => {
                ret = v;
            },
            _ => {
                return SyscallOutcome::Blocked;
            },
        }
    } else if tpf.a7 == SYS_EXECV {
        ret = sys_execv();
    } else if tpf.a7 == SYS_PIPE {
        ret = sys_pipe();
    } else if tpf.a7 == SYS_DUP {
        ret = sys_dup();
    } else if tpf.a7 == SYS_KILL {
        ret = sys_kill(&mut k.table, cpu, &k.mem, &mut k.kill_cvar);
    } else if tpf.a7 == SYS_PAUSE {
        let step: SyscallStep = sys_pause(&mut k.table, cpu, &mut k.kill_cvar);
        match step {
            SyscallStep::Done(v) => {
                ret = v;
            },
            SyscallStep::Exit(status) => {
                kexit(status, &mut k.table, cpu, &mut k.mem, &mut k.falloc, &mut k.exit_cvar);
                return SyscallOutcome::Exited;
            },
            _ => {
                return SyscallOutcome::Blocked;
            },
        }
    } else if tpf.a7 == SYS_GETPID {
        ret = sys_getpid(&k.table, cpu);
    } else if tpf.a7 == SYS_SLEEP {
        let (target, step) = sys_sleep(&mut k.table, cpu, &k.mem, k.ticks, &mut k.ticks_cvar);
        proof {
            step0 = step;
            assert(sleep_waited(&o.table, &k.table, &o.ticks_cvar, &k.ticks_cvar, cpu,
                sleep_target(o.table.pcbs@[proc as int], tpf, o.ticks) as u64, o.ticks, step));
        }
        match step {
            SyscallStep::Done(v) => {
                ret = v;
            },
            _ => {
                return SyscallOutcome::Blocked;
            },
        }
    } else {
        print_unknown(k, pid, out);
    }
    // Place return in the process trapframe
    let ghost before_a0 = k.mem;
    set_a0(&k.table, proc, ret, &mut k.mem, &k.falloc);
    proof {
        let pcb = k.table.pcbs@[proc as int];
        assert(pcb.memory_frames(&k.mem) == pcb.memory_frames(&before_a0));
        assert(holds_frames(pcb, &k.mem, &k.falloc));
        let tf = current_tf(&o.table, cpu, &o.mem);
        if tpf.a7 == SYS_KILL {
            assert(kill_done(&o.table, &k.table, &o.kill_cvar, &k.kill_cvar, tf, ret));
        } else if tpf.a7 == SYS_WAITPID {
            assert(waitpid_done(&o.table, &k.table, &o.exit_cvar, &k.exit_cvar, &o.mem, &m_mid, proc as int,
                tf, step0));
        } else if tpf.a7 == SYS_SLEEP {
            assert(sleep_waited(&o.table, &k.table, &o.ticks_cvar, &k.ticks_cvar, cpu,
                sleep_target(o.table.pcbs@[proc as int], tf, o.ticks) as u64, o.ticks, step0));
        }
    }
    SyscallOutcome::Returned(ret)
}

} // verus!
