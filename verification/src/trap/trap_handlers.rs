//! Trap handlers for kernel and userspace.
//!
//! Trap handlers to treat interrupts and exceptions from kernel and
//! userspace. The registers (scause, sepc, sstatus, stvec, satp) are
//! read and written by the caller, which also claims and completes
//! device interrupts and reads the UART; the handlers take the values
//! read and say what to write back.

use vstd::prelude::*;
use crate::config::constants::UART0_IRQ;
use crate::kernel::Kernel;
use crate::memory::frame_alloc::clear_frames;
use crate::io::console::ConsoleView;
use crate::proc::control_types::SIGKILL;
use crate::proc::processing::{current_proc_unwrap, terminated};
use crate::proc::sync::{same_but_state, woken};
use crate::riscv::memory_types::{satp_format, SATP_SV32, PageTable};
use crate::riscv::supervisor_mode::{sie_set, SPP_S, SPP_U};
use crate::memory::virtual_memory::lemma_user_dst_kept;
use crate::trap::trap_codes::{ENVIRONMENT_CALL_FROM_U_MODE, EXTERNAL_INT, TIMER_INT};
use crate::trap::trap_types::{Trapframe, TRAPFRAME_WORDS, A0_SLOT, EPC_SLOT, lemma_slots_of_mem};
use crate::trap::syscall_proc::{
    has_current, has_trapframe, current, current_tf, holds_frames, exited, kexit, advance_epc,
};
use crate::trap::syscall_handler::{SyscallOutcome, syscall, syscall_ok, syscall_effect};
use crate::trap::device::dev_intr;
use crate::trap::clock::clock_intr;

verus! {

/// What the caller does when a trap from user mode was handled.
#[derive(Copy, Clone, Debug, PartialEq, Eq, Structural)]
pub enum TrapAction {
    /// Go back to the process: write `sepc` and `sstatus`, install the
    /// user trap vector and switch to the page table `satp`.
    Resume { sepc: usize, sstatus: usize, satp: usize },
    /// The process waits in a system call: switch to the scheduler;
    /// when the process runs again, make the call again with
    /// `syscall` and finish with `usertrap_ret`.
    Blocked,
    /// The process exited: switch to the scheduler.
    Exited,
}

/// The interrupt bit of scause (its last bit on RV32).
pub open spec fn cause_int(scause: usize) -> usize {
    scause >> 31usize
}

/// The exception code of scause (all bits but the last on RV32).
pub open spec fn cause_code(scause: usize) -> usize {
    scause & 0x7fff_ffffusize
}

/// The interrupt bit and the exception code of a 32-bit scause make it
/// up again, and the interrupt bit is 0 or 1.
pub proof fn lemma_cause_parts(scause: usize)
    requires
        scause <= 0xffff_ffff,
    ensures
        cause_int(scause) <= 1,
        (cause_int(scause) << 31usize) | cause_code(scause) == scause,
{
    assert(scause <= 0xffff_ffffusize ==> (scause >> 31usize) <= 1usize
        && ((scause >> 31usize) << 31usize) | (scause & 0x7fff_ffffusize) == scause) by (bit_vector);
}

/// Get interrupt bit and exception code
/// Read section 12.1.8. of RISC-V privileged doc.
pub fn catch_cause(scause: usize) -> (r: (usize, usize))
    ensures
        r == (cause_int(scause), cause_code(scause)),
{
    // Interrupt bit (last bit)
    let interrupt: usize = scause >> 31usize;
    // Exception code bits (except last bit)
    let code: usize = scause & 0x7fff_ffffusize;
    (interrupt, code)
}

/// The process on `cpu` exits with `SIGKILL`, from `o` to `n`: it is
/// a zombie with that status, its memory is released and the
/// processes waiting for an exit are woken.
pub open spec fn killed_exit(o: &Kernel, n: &Kernel, cpu: usize) -> bool {
    let p = current(&o.table, cpu);
    let pcb = o.table.pcbs@[p];
    let tf = pcb.trapframe_opt()->0;
    &&& exited(&o.table, &n.table, o.exit_cvar.waiting(), p, SIGKILL)
    &&& n.table.cpus@ == o.table.cpus@
    &&& n.table.next_pid == o.table.next_pid
    &&& n.exit_cvar.waiting() == Seq::<usize>::empty()
    &&& n.falloc.bits() == clear_frames(o.falloc.bits(), o.falloc.start(), pcb.memory_frames(&o.mem))
    &&& n.falloc.start() == o.falloc.start()
    &&& n.mem.same_outside(&o.mem, tf as int, tf + 4 * TRAPFRAME_WORDS)
    &&& n.mem.word(tf + 4 * A0_SLOT) == SIGKILL as u32
    &&& n.console == o.console
    &&& n.kill_cvar == o.kill_cvar
    &&& n.ticks == o.ticks
    &&& n.ticks_cvar == o.ticks_cvar
}

/// The end of a trap from user mode, from `o` to `n`: a process that
/// received `SIGKILL` exits; any other goes back to its saved program
/// counter with `sstatus` and its page table.
pub open spec fn trap_return(o: &Kernel, n: &Kernel, cpu: usize, sstatus: usize, r: TrapAction) -> bool {
    let pcb = o.table.pcbs@[current(&o.table, cpu)];
    if pcb.kill_signal == SIGKILL {
        &&& r is Exited
        &&& killed_exit(o, n, cpu)
    } else {
        &&& r == TrapAction::Resume {
            sepc: current_tf(&o.table, cpu, &o.mem).epc,
            sstatus: sstatus,
            satp: SATP_SV32 | ((pcb.pagetable_opt()->0 >> 12u64) as usize),
        }
        &&& *n == *o
    }
}

/// What the end of a trap from user mode needs: a process with a
/// trapframe and a page table, whose frames can be released.
pub open spec fn trap_return_ok(k: &Kernel, cpu: usize) -> bool {
    let pcb = k.table.pcbs@[current(&k.table, cpu)];
    &&& k.wf()
    &&& has_current(&k.table, cpu)
    &&& has_trapframe(&k.table, cpu)
    &&& holds_frames(pcb, &k.mem, &k.falloc)
    &&& pcb.pagetable_opt() is Some
}

/// The end of a trap from user mode: a process that received
/// `SIGKILL` exits; otherwise the values to write back are given.
pub fn usertrap_ret(k: &mut Kernel, cpu: usize, sstatus: usize) -> (r: TrapAction)
    requires
        trap_return_ok(old(k), cpu),
    ensures
        final(k).wf(),
        trap_return(old(k), final(k), cpu, sstatus, r),
{
    // Process PCB
    let proc: usize = current_proc_unwrap(&k.table, cpu, "trap_handlers");
    // Check if the process terminated
    if terminated(&k.table.pcbs[proc]) {
        kexit(SIGKILL, &mut k.table, cpu, &mut k.mem, &mut k.falloc, &mut k.exit_cvar);
        return TrapAction::Exited;
    }
    // Set sepc to the process program counter
    let tpf: Trapframe = k.table.pcbs[proc].trapframe(&k.mem);
    let pgt: PageTable = k.table.pcbs[proc].pagetable();
    // Return process page table to userret
    TrapAction::Resume { sepc: tpf.epc, sstatus, satp: satp_format(pgt.as_integer()) }
}

/// `n` is `o` with the saved program counter of the process on `cpu`
/// advanced past its `ecall`.
pub open spec fn epc_advanced(o: &Kernel, n: &Kernel, cpu: usize) -> bool {
    let tf = o.table.pcbs@[current(&o.table, cpu)].trapframe_opt()->0;
    &&& n.table == o.table
    &&& n.falloc == o.falloc
    &&& n.console == o.console
    &&& n.kill_cvar == o.kill_cvar
    &&& n.exit_cvar == o.exit_cvar
    &&& n.ticks == o.ticks
    &&& n.ticks_cvar == o.ticks_cvar
    &&& n.mem.same_outside(&o.mem, tf as int, tf + 4 * TRAPFRAME_WORDS)
    &&& n.mem.word(tf + 4 * EPC_SLOT) == (current_tf(&o.table, cpu, &o.mem).epc + 4) as u32
    &&& forall|k: int| 0 <= k < TRAPFRAME_WORDS && k != EPC_SLOT ==>
        #[trigger] n.mem.word(tf + 4 * k) == o.mem.word(tf + 4 * k)
}

/// `n` is `o` after the characters `received` from the UART were
/// handed to the console; `out0` and `out1` are the output before and
/// after. Where a character completes a line, exactly the processes
/// waiting for input become ready and none waits any more; otherwise
/// the process table and the queue of waiting processes stay.
pub open spec fn uart_effect(o: &Kernel, n: &Kernel, received: Seq<u8>, out0: Seq<u8>, out1: Seq<u8>) -> bool {
    &&& n.console.wf()
    &&& n.console@ == o.console@.intr_all(received).0
    &&& out1 == out0 + o.console@.intr_all(received).1
    &&& n.table.wf()
    &&& n.table.next_pid == o.table.next_pid
    &&& n.table.cpus@ == o.table.cpus@
    &&& if o.console@.intr_all_wakes(received) {
        &&& n.console.input_cvar.waiting() == Seq::<usize>::empty()
        &&& woken(&o.table, &n.table, o.console.input_cvar.waiting())
    } else {
        &&& n.console.input_cvar == o.console.input_cvar
        &&& n.table == o.table
    }
    &&& n.mem == o.mem
    &&& n.falloc == o.falloc
    &&& n.kill_cvar == o.kill_cvar
    &&& n.exit_cvar == o.exit_cvar
    &&& n.ticks == o.ticks
    &&& n.ticks_cvar == o.ticks_cvar
}

/// `n` is `o` after a clock interrupt on `cpu`: CPU 0 counts a tick
/// and wakes the processes waiting for ticks.
pub open spec fn clock_effect(o: &Kernel, n: &Kernel, cpu: usize) -> bool {
    if cpu == 0 {
        &&& n.ticks == o.ticks + 1
        &&& n.ticks_cvar.wf()
        &&& n.ticks_cvar.waiting() == Seq::<usize>::empty()
        &&& woken(&o.table, &n.table, o.ticks_cvar.waiting())
        &&& n.table.wf()
        &&& n.table.next_pid == o.table.next_pid
        &&& n.table.cpus@ == o.table.cpus@
        &&& n.mem == o.mem
        &&& n.falloc == o.falloc
        &&& n.console == o.console
        &&& n.kill_cvar == o.kill_cvar
        &&& n.exit_cvar == o.exit_cvar
    } else {
        *n == *o
    }
}

/// What a trap from user mode needs: a process with a trapframe and a
/// page table, whose frames can be released; interrupts disabled; an
/// `ecall` or a device or clock interrupt; for the UART, characters
/// that the console can take; a tick counter with room; and what the
/// system call needs.
pub open spec fn usertrap_ok(k: &Kernel, cpu: usize, scause: usize, sstatus: usize, irq: u32, received: Seq<u8>) -> bool {
    let is_int = cause_int(scause);
    let code = cause_code(scause);
    let pcb = k.table.pcbs@[current(&k.table, cpu)];
    &&& trap_return_ok(k, cpu)
    &&& !sie_set(sstatus)
    &&& sstatus & SPP_S == SPP_U
    &&& is_int == 0 ==> code == ENVIRONMENT_CALL_FROM_U_MODE
    &&& is_int == 1 ==> code == EXTERNAL_INT || code == TIMER_INT
    &&& is_int == 1 && code == EXTERNAL_INT ==> irq == UART0_IRQ && k.console@.intr_all_ok(received)
    &&& is_int == 1 && code == TIMER_INT && cpu == 0 ==> k.ticks < u64::MAX
    &&& is_int == 0 && pcb.kill_signal != SIGKILL ==> {
        &&& current_tf(&k.table, cpu, &k.mem).epc + 4 <= usize::MAX
        &&& syscall_ok(k, cpu)
    }
}

/// A system call (`ecall`) from user mode: a process that received
/// `SIGKILL` exits; otherwise its saved program counter goes past the
/// `ecall`, the call is made and the trap ends.
fn user_ecall(k: &mut Kernel, cpu: usize, sstatus: usize, out: &mut Vec<u8>) -> (r: TrapAction)
    requires
        trap_return_ok(old(k), cpu),
        old(k).table.pcbs@[current(&old(k).table, cpu)].kill_signal != SIGKILL ==> {
            &&& current_tf(&old(k).table, cpu, &old(k).mem).epc + 4 <= usize::MAX
            &&& syscall_ok(old(k), cpu)
        },
    ensures
        final(k).wf(),
        ({
            let pcb = old(k).table.pcbs@[current(&old(k).table, cpu)];
            &&& pcb.kill_signal == SIGKILL ==> {
                &&& r is Exited
                &&& killed_exit(old(k), final(k), cpu)
                &&& final(out)@ == old(out)@
            }
            &&& pcb.kill_signal != SIGKILL ==> exists|k1: Kernel, k2: Kernel, rs: SyscallOutcome| {
                &&& #[trigger] epc_advanced(old(k), &k1, cpu)
                &&& #[trigger] syscall_effect(&k1, &k2, cpu, rs, old(out)@, final(out)@)
                &&& rs is Exited ==> r is Exited && *final(k) == k2
                &&& rs is Blocked ==> r is Blocked && *final(k) == k2
                &&& rs is Returned ==> trap_return(&k2, final(k), cpu, sstatus, r)
            }
        }),
{
    let proc: usize = current_proc_unwrap(&k.table, cpu, "trap_handlers");
    let ghost o = *k;
    // Check if the process terminated
    if terminated(&k.table.pcbs[proc]) {
        kexit(SIGKILL, &mut k.table, cpu, &mut k.mem, &mut k.falloc, &mut k.exit_cvar);
        return TrapAction::Exited;
    }
    // Update PC to the instruction after ecall
    let ghost tf = k.table.pcbs@[proc as int].trapframe_opt()->0;
    proof {
        lemma_slots_of_mem(&k.mem, tf);
    }
    advance_epc(&k.table, proc, &mut k.mem, &k.falloc);
    let ghost k1 = *k;
    proof {
        let pcb = k.table.pcbs@[proc as int];
        lemma_slots_of_mem(&k.mem, tf);
        assert(k.mem.word(tf + 4 * 13) == o.mem.word(tf + 4 * 13));
        assert(k.mem.word(tf + 4 * 14) == o.mem.word(tf + 4 * 14));
        assert(k.mem.word(tf + 4 * 20) == o.mem.word(tf + 4 * 20));
        assert(holds_frames(pcb, &k.mem, &k.falloc));
        let stat = current_tf(&o.table, cpu, &o.mem).a1 as u64;
        if current_tf(&o.table, cpu, &o.mem).a7 == crate::trap::syscall_handler::SYS_WAITPID && stat != 0 {
            lemma_user_dst_kept(&o.mem, &k.mem, pcb.pagetable_opt()->0, stat, 4);
        }
        assert(syscall_ok(k, cpu));
        assert(epc_advanced(&o, &k1, cpu));
    }
    // Handle system call
    let rs: SyscallOutcome = syscall(k, cpu, out);
    let ghost k2 = *k;
    match rs {
        SyscallOutcome::Exited => {
            return TrapAction::Exited;
        },
        SyscallOutcome::Blocked => {
            return TrapAction::Blocked;
        },
        SyscallOutcome::Returned(_) => {},
    }
    let r: TrapAction = usertrap_ret(k, cpu, sstatus);
    proof {
        assert(syscall_effect(&k1, &k2, cpu, rs, old(out)@, out@));
    }
    r
}

/// A device or clock interrupt in user mode, then the end of the trap.
fn user_intr(
    k: &mut Kernel,
    cpu: usize,
    code: usize,
    sstatus: usize,
    irq: u32,
    received: &[u8],
    out: &mut Vec<u8>,
) -> (r: TrapAction)
    requires
        trap_return_ok(old(k), cpu),
        code == EXTERNAL_INT || code == TIMER_INT,
        code == EXTERNAL_INT ==> irq == UART0_IRQ && old(k).console@.intr_all_ok(received@),
        code == TIMER_INT && cpu == 0 ==> old(k).ticks < u64::MAX,
    ensures
        final(k).wf(),
        code == EXTERNAL_INT ==> exists|k2: Kernel| {
            &&& #[trigger] uart_effect(old(k), &k2, received@, old(out)@, final(out)@)
            &&& trap_return(&k2, final(k), cpu, sstatus, r)
        },
        code == TIMER_INT ==> exists|k2: Kernel| {
            &&& #[trigger] clock_effect(old(k), &k2, cpu)
            &&& final(out)@ == old(out)@
            &&& trap_return(&k2, final(k), cpu, sstatus, r)
        },
{
    let proc: usize = current_proc_unwrap(&k.table, cpu, "trap_handlers");
    let ghost o = *k;
    if code == EXTERNAL_INT {
        // Handle external device
        dev_intr(irq, &mut k.console, received, &mut k.table, out);
        let ghost k2 = *k;
        proof {
            assert(uart_effect(&o, &k2, received@, old(out)@, out@));
            let p = proc as int;
            assert(same_but_state(k.table.pcbs@[p], o.table.pcbs@[p]));
        }
        usertrap_ret(k, cpu, sstatus)
    } else {
        // Handle clock
        clock_intr(cpu, &mut k.ticks, &mut k.ticks_cvar, &mut k.table);
        let ghost k2 = *k;
        proof {
            assert(clock_effect(&o, &k2, cpu));
            let p = proc as int;
            if cpu == 0 {
                assert(same_but_state(k.table.pcbs@[p], o.table.pcbs@[p]));
            }
        }
        usertrap_ret(k, cpu, sstatus)
    }
}

/// User trap handler. A system call (`ecall`) from a process that
/// received `SIGKILL` makes it exit; otherwise its saved program
/// counter goes past the `ecall` and the call is made. A device
/// interrupt hands the characters received to the console and a clock
/// interrupt counts a tick. The trap then ends with `usertrap_ret`.
/// The call is made on the kernel state that the trap holds, with
/// interrupts left off: nothing is said of interrupts during it.
pub fn usertrap(
    k: &mut Kernel,
    cpu: usize,
    scause: usize,
    sstatus: usize,
    irq: u32,
    received: &[u8],
    out: &mut Vec<u8>,
) -> (r: TrapAction)
    requires
        usertrap_ok(old(k), cpu, scause, sstatus, irq, received@),
    ensures
        final(k).wf(),
        ({
            let is_int = cause_int(scause);
            let code = cause_code(scause);
            let pcb = old(k).table.pcbs@[current(&old(k).table, cpu)];
            &&& is_int == 0 && pcb.kill_signal == SIGKILL ==> {
                &&& r is Exited
                &&& killed_exit(old(k), final(k), cpu)
                &&& final(out)@ == old(out)@
            }
            &&& is_int == 0 && pcb.kill_signal != SIGKILL ==> exists|k1: Kernel, k2: Kernel, rs: SyscallOutcome| {
                &&& #[trigger] epc_advanced(old(k), &k1, cpu)
                &&& #[trigger] syscall_effect(&k1, &k2, cpu, rs, old(out)@, final(out)@)
                &&& rs is Exited ==> r is Exited && *final(k) == k2
                &&& rs is Blocked ==> r is Blocked && *final(k) == k2
                &&& rs is Returned ==> trap_return(&k2, final(k), cpu, sstatus, r)
            }
            &&& is_int == 1 && code == EXTERNAL_INT ==> exists|k2: Kernel| {
                &&& #[trigger] uart_effect(old(k), &k2, received@, old(out)@, final(out)@)
                &&& trap_return(&k2, final(k), cpu, sstatus, r)
            }
            &&& is_int == 1 && code == TIMER_INT ==> exists|k2: Kernel| {
                &&& #[trigger] clock_effect(old(k), &k2, cpu)
                &&& final(out)@ == old(out)@
                &&& trap_return(&k2, final(k), cpu, sstatus, r)
            }
            &&& is_int != 0 && is_int != 1 ==> {
                &&& final(out)@ == old(out)@
                &&& trap_return(old(k), final(k), cpu, sstatus, r)
            }
        }),
{
    // Catch interrupt bit and code for the trap
    let (interrupt, code): (usize, usize) = catch_cause(scause);
    // The trap came from U-mode: the SPP bit is clear (required).
    // Check if the trap is an exception or interrupt
    if interrupt == 0 {
        user_ecall(k, cpu, sstatus, out)
    } else if interrupt == 1 {
        user_intr(k, cpu, code, sstatus, irq, received, out)
    } else {
        usertrap_ret(k, cpu, sstatus)
    }
}

/// Kernel trap handler: only device and clock interrupts are expected
/// while running in the kernel. Gives back the sepc and sstatus to
/// restore.
pub fn kerneltrap(
    k: &mut Kernel,
    cpu: usize,
    scause: usize,
    sepc: usize,
    sstatus: usize,
    irq: u32,
    received: &[u8],
    out: &mut Vec<u8>,
) -> (r: (usize, usize))
    requires
        old(k).wf(),
        !sie_set(sstatus),
        sstatus & SPP_S == SPP_S,
        cause_int(scause) != 0,
        cause_int(scause) == 1 ==> cause_code(scause) == EXTERNAL_INT || cause_code(scause) == TIMER_INT,
        cause_int(scause) == 1 && cause_code(scause) == EXTERNAL_INT ==> irq == UART0_IRQ
            && old(k).console@.intr_all_ok(received@),
        cause_int(scause) == 1 && cause_code(scause) == TIMER_INT && cpu == 0 ==> old(k).ticks < u64::MAX,
    ensures
        r == (sepc, sstatus),
        final(k).wf(),
        cause_int(scause) == 1 && cause_code(scause) == EXTERNAL_INT ==> uart_effect(old(k), final(k), received@,
            old(out)@, final(out)@),
        cause_int(scause) == 1 && cause_code(scause) == TIMER_INT ==> clock_effect(old(k), final(k), cpu)
            && final(out)@ == old(out)@,
        cause_int(scause) != 1 ==> *final(k) == *old(k) && final(out)@ == old(out)@,
{
    // Catch interrupt bit and code for the trap
    let (interrupt, code): (usize, usize) = catch_cause(scause);
    if interrupt == 1 {
        if code == EXTERNAL_INT {
            // Handle external device
            dev_intr(irq, &mut k.console, received, &mut k.table, out);
        } else if code == TIMER_INT {
            // Handle clock
            clock_intr(cpu, &mut k.ticks, &mut k.ticks_cvar, &mut k.table);
        }
    }
    // Restore the sepc and sstatus
    (sepc, sstatus)
}

} // verus!
