use polvoss::io::console::console_init;
use polvoss::kernel::Kernel;
use polvoss::memory::frame_alloc::{init_frame_alloc, kmalloc, FrameAllocator};
use polvoss::memory::phys_mem::PhysMem;
use polvoss::proc::control_types::{Cpu, Pcb, ProcState, SIGKILL};
use polvoss::proc::processing::{
    alloc_pcb, current_proc, current_proc_child, find_proc, set_current_proc, terminated, ProcTable,
};
use polvoss::proc::round_robin::round_robin;
use polvoss::proc::scheduler::{dispatch, scheduler};
use polvoss::proc::spin::{lock_stack_pop, lock_stack_push};
use polvoss::proc::sync::Condvar;
use polvoss::riscv::memory_types::{Addr, PageTable, PTE_R, PTE_U, PTE_W};
use polvoss::trap::clock::clock_intr;
use polvoss::trap::syscall_handler::{
    syscall, SyscallOutcome, SYS_EXIT, SYS_FORK, SYS_GETPID, SYS_KILL, SYS_PAUSE, SYS_SLEEP, SYS_WAITPID,
};
use polvoss::trap::syscall_proc::{sys_pause, sys_uptime, SyscallStep};
use polvoss::trap::trap_handlers::{catch_cause, kerneltrap, usertrap, TrapAction};
use polvoss::trap::trap_types::Trapframe;

const SKERNEL: u64 = 0x8000_0000;
const EKERNEL: u64 = 0x8001_0000;

/// A kernel with one process (PID 1) running on CPU 0, with a
/// trapframe and an empty page table.
fn kernel_with_process() -> (Kernel, usize, u64) {
    let mut falloc = FrameAllocator::new(SKERNEL, EKERNEL);
    init_frame_alloc(&mut falloc);
    let mut mem = PhysMem::new();
    let mut table = ProcTable::new();
    let p = alloc_pcb(&mut table).unwrap();
    let tf = kmalloc(&mut falloc).unwrap();
    table.pcbs[p].init_trapframe(tf);
    let root = kmalloc(&mut falloc).unwrap();
    let pgt = PageTable::new(root);
    pgt.pageset(0, &mut mem);
    table.pcbs[p].init_pagetable(pgt);
    table.pcbs[p].state = ProcState::Running;
    set_current_proc(&mut table, 0, Some(p));
    let k = Kernel {
        table,
        mem,
        falloc,
        console: console_init(),
        kill_cvar: Condvar::new(),
        exit_cvar: Condvar::new(),
        ticks: 0,
        ticks_cvar: Condvar::new(),
    };
    (k, p, tf.as_integer())
}

fn set_regs(k: &mut Kernel, tf: u64, a7: usize, a0: usize, a1: usize) {
    let mut t = Trapframe::read_from(&k.mem, tf);
    t.a7 = a7;
    t.a0 = a0;
    t.a1 = a1;
    t.write_to(&mut k.mem, tf);
}

fn a0_of(k: &Kernel, tf: u64) -> usize {
    Trapframe::read_from(&k.mem, tf).a0
}

/// A second process (a child of `parent` when given) in `state`.
fn add_process(k: &mut Kernel, parent: Option<usize>, state: ProcState) -> (usize, usize) {
    let q = alloc_pcb(&mut k.table).unwrap();
    k.table.pcbs[q].parent = parent;
    k.table.pcbs[q].state = state;
    (q, k.table.pcbs[q].pid)
}

#[test]
fn process_table_allocation() {
    let mut t = ProcTable::new();
    let a = alloc_pcb(&mut t).unwrap();
    let b = alloc_pcb(&mut t).unwrap();
    assert_eq!((a, b), (0, 1));
    assert_eq!(t.pcbs[a].pid, 1);
    assert_eq!(t.pcbs[b].pid, 2);
    assert_eq!(t.pcbs[a].state, ProcState::New);
    // New processes are not active
    assert_eq!(find_proc(&t, 2), None);
    t.pcbs[b].state = ProcState::Ready;
    assert_eq!(find_proc(&t, 2), Some(1));
    assert_eq!(current_proc(&t, 0), None);
}

#[test]
fn round_robin_picks_the_first_ready() {
    let mut t = ProcTable::new();
    for _ in 0..3 {
        alloc_pcb(&mut t).unwrap();
    }
    assert_eq!(round_robin(&t), None);
    t.pcbs[2].state = ProcState::Ready;
    t.pcbs[1].state = ProcState::Ready;
    assert_eq!(round_robin(&t), Some(1));
    dispatch(&mut t, 0, 1);
    assert_eq!(t.pcbs[1].state, ProcState::Running);
    assert_eq!(t.cpus[0].proc, Some(1));
    assert_eq!(round_robin(&t), Some(2));
}

#[test]
fn scheduler_prints_once_when_idle() {
    let mut t = ProcTable::new();
    let mut c = console_init();
    let mut out: Vec<u8> = Vec::new();
    let mut print_msg = true;
    assert_eq!(scheduler(&mut t, 0, &mut print_msg, &mut c, &mut out), None);
    assert!(!print_msg);
    let text: Vec<u8> = c.monitor.chars[80..80 + 31].to_vec();
    assert!(String::from_utf8_lossy(&text).contains("[scheduler]: No process to run."));
    let len = out.len();
    assert_eq!(scheduler(&mut t, 0, &mut print_msg, &mut c, &mut out), None);
    assert_eq!(out.len(), len);
    let p = alloc_pcb(&mut t).unwrap();
    t.pcbs[p].state = ProcState::Ready;
    assert_eq!(scheduler(&mut t, 0, &mut print_msg, &mut c, &mut out), Some(p));
    assert!(print_msg);
    assert_eq!(t.pcbs[p].state, ProcState::Running);
}

#[test]
fn condvar_wait_then_notify() {
    let mut t = ProcTable::new();
    let p = alloc_pcb(&mut t).unwrap();
    let q = alloc_pcb(&mut t).unwrap();
    set_current_proc(&mut t, 0, Some(p));
    let mut cv = Condvar::new();
    cv.wait(&mut t, 0);
    cv.wait_self(&mut t, q);
    assert_eq!(t.pcbs[p].state, ProcState::Waiting);
    assert_eq!(t.pcbs[q].state, ProcState::Waiting);
    cv.notify_all(&mut t);
    assert_eq!(t.pcbs[p].state, ProcState::Ready);
    assert_eq!(t.pcbs[q].state, ProcState::Ready);
}

#[test]
fn lock_stack_push_then_pop() {
    let mut cpu = Cpu::new();
    lock_stack_push(&mut cpu, true);
    assert_eq!(cpu.lock_count, 1);
    assert!(cpu.intena);
    lock_stack_push(&mut cpu, false);
    assert_eq!(cpu.lock_count, 2);
    assert!(!lock_stack_pop(&mut cpu));
    assert!(lock_stack_pop(&mut cpu));
    assert_eq!(cpu.lock_count, 0);
}

#[test]
fn clock_counts_ticks_on_cpu_zero_and_wakes_sleepers() {
    let (mut k, p, tf) = kernel_with_process();
    set_regs(&mut k, tf, SYS_SLEEP, 1, 0);
    assert_eq!(syscall(&mut k, 0, &mut Vec::new()), SyscallOutcome::Blocked);
    assert_eq!(k.table.pcbs[p].state, ProcState::Waiting);
    clock_intr(0, &mut k.ticks, &mut k.ticks_cvar, &mut k.table);
    assert_eq!(k.ticks, 1);
    assert_eq!(k.table.pcbs[p].state, ProcState::Ready);
    clock_intr(1, &mut k.ticks, &mut k.ticks_cvar, &mut k.table);
    assert_eq!(k.ticks, 1);
    assert_eq!(sys_uptime(k.ticks, 10), 10);
}

#[test]
fn getpid_and_stub_calls_return_in_a0() {
    let (mut k, _p, tf) = kernel_with_process();
    let mut out: Vec<u8> = Vec::new();
    set_regs(&mut k, tf, SYS_GETPID, 77, 0);
    assert_eq!(syscall(&mut k, 0, &mut out), SyscallOutcome::Returned(1));
    assert_eq!(a0_of(&k, tf), 1);
    set_regs(&mut k, tf, SYS_FORK, 77, 0);
    assert_eq!(syscall(&mut k, 0, &mut out), SyscallOutcome::Returned(0));
    assert_eq!(a0_of(&k, tf), 0);
    assert!(out.is_empty());
}

#[test]
fn unknown_system_call_is_reported() {
    let (mut k, _p, tf) = kernel_with_process();
    let mut out: Vec<u8> = Vec::new();
    // 99 is no system call
    set_regs(&mut k, tf, 99, 5, 0);
    assert_eq!(syscall(&mut k, 0, &mut out), SyscallOutcome::Returned(0));
    assert_eq!(a0_of(&k, tf), 0);
    let line: Vec<u8> = k.console.monitor.chars[80..80 + 26].to_vec();
    assert_eq!(line, b"Unknown system call. PID: ".to_vec()[..26].to_vec());
    assert_eq!(k.console.monitor.chars[80 + 26], b'1');
}

#[test]
fn kill_places_the_signal() {
    let (mut k, _p, tf) = kernel_with_process();
    let (q, qpid) = add_process(&mut k, None, ProcState::Ready);
    set_regs(&mut k, tf, SYS_KILL, qpid, SIGKILL as usize);
    assert_eq!(syscall(&mut k, 0, &mut Vec::new()), SyscallOutcome::Returned(0));
    assert_eq!(k.table.pcbs[q].kill_signal, SIGKILL);
    assert!(terminated(&k.table.pcbs[q]));
    set_regs(&mut k, tf, SYS_KILL, 999, 9);
    assert_eq!(syscall(&mut k, 0, &mut Vec::new()), SyscallOutcome::Returned(usize::MAX));
    assert_eq!(a0_of(&k, tf) as u32, u32::MAX);
}

#[test]
fn pause_waits_clears_or_exits() {
    let (mut k, p, _tf) = kernel_with_process();
    assert_eq!(sys_pause(&mut k.table, 0, &mut k.kill_cvar), SyscallStep::Blocked);
    assert_eq!(k.table.pcbs[p].state, ProcState::Waiting);
    k.table.pcbs[p].kill_signal = 3;
    assert_eq!(sys_pause(&mut k.table, 0, &mut k.kill_cvar), SyscallStep::Done(usize::MAX));
    assert_eq!(k.table.pcbs[p].kill_signal, i32::MAX);
    k.table.pcbs[p].kill_signal = SIGKILL;
    assert_eq!(sys_pause(&mut k.table, 0, &mut k.kill_cvar), SyscallStep::Exit(SIGKILL));
}

#[test]
fn pause_is_dispatched() {
    let (mut k, p, tf) = kernel_with_process();
    // No signal yet: the process waits
    set_regs(&mut k, tf, SYS_PAUSE, 0, 0);
    assert_eq!(syscall(&mut k, 0, &mut Vec::new()), SyscallOutcome::Blocked);
    assert_eq!(k.table.pcbs[p].state, ProcState::Waiting);
    // Another signal than SIGKILL is cleared and -1 returned
    k.table.pcbs[p].state = ProcState::Running;
    k.table.pcbs[p].kill_signal = 3;
    assert_eq!(syscall(&mut k, 0, &mut Vec::new()), SyscallOutcome::Returned(usize::MAX));
    assert_eq!(k.table.pcbs[p].kill_signal, i32::MAX);
    assert_eq!(a0_of(&k, tf) as u32, u32::MAX);
    // SIGKILL makes the process exit
    k.table.pcbs[p].kill_signal = SIGKILL;
    assert_eq!(syscall(&mut k, 0, &mut Vec::new()), SyscallOutcome::Exited);
    assert_eq!(k.table.pcbs[p].state, ProcState::Zombie);
    assert_eq!(k.table.pcbs[p].exit_status, SIGKILL);
}

#[test]
fn sleep_keeps_its_target_until_it_ends() {
    let (mut k, p, tf) = kernel_with_process();
    k.ticks = 10;
    set_regs(&mut k, tf, SYS_SLEEP, 5, 0);
    assert_eq!(syscall(&mut k, 0, &mut Vec::new()), SyscallOutcome::Blocked);
    assert_eq!(k.table.pcbs[p].sleep_until, Some(15));
    // Woken at tick 13 the call is made again: the target stays 15
    k.table.pcbs[p].state = ProcState::Running;
    k.ticks = 13;
    assert_eq!(syscall(&mut k, 0, &mut Vec::new()), SyscallOutcome::Blocked);
    assert_eq!(k.table.pcbs[p].sleep_until, Some(15));
    k.table.pcbs[p].state = ProcState::Running;
    k.ticks = 15;
    assert_eq!(syscall(&mut k, 0, &mut Vec::new()), SyscallOutcome::Returned(0));
    assert_eq!(k.table.pcbs[p].sleep_until, None);
    // a1 holds the high 32 bits of the request
    set_regs(&mut k, tf, SYS_SLEEP, 1, 1);
    assert_eq!(syscall(&mut k, 0, &mut Vec::new()), SyscallOutcome::Blocked);
    assert_eq!(k.table.pcbs[p].sleep_until, Some(15 + 1 + (1u64 << 32)));
}

#[test]
fn sleep_ends_at_the_target_tick() {
    let (mut k, p, tf) = kernel_with_process();
    // sleep(0) at tick 0 returns at once
    set_regs(&mut k, tf, SYS_SLEEP, 0, 0);
    assert_eq!(syscall(&mut k, 0, &mut Vec::new()), SyscallOutcome::Returned(0));
    assert_eq!(k.table.pcbs[p].state, ProcState::Running);
}

#[test]
fn exit_frees_the_memory_and_wakes_waiters() {
    let (mut k, p, tf) = kernel_with_process();
    let (q, _) = add_process(&mut k, None, ProcState::Ready);
    k.table.pcbs[q].state = ProcState::Waiting;
    k.exit_cvar.wait_self(&mut k.table, q);
    set_regs(&mut k, tf, SYS_EXIT, 5, 0);
    assert_eq!(syscall(&mut k, 0, &mut Vec::new()), SyscallOutcome::Exited);
    assert_eq!(k.table.pcbs[p].state, ProcState::Zombie);
    assert_eq!(k.table.pcbs[p].exit_status, 5);
    assert!(k.table.pcbs[p].trapframe.is_none());
    assert!(k.table.pcbs[p].pagetable.is_none());
    assert_eq!(k.table.pcbs[q].state, ProcState::Ready);
}

#[test]
fn waitpid_reaps_a_zombie_child() {
    let (mut k, p, tf) = kernel_with_process();
    let (c, cpid) = add_process(&mut k, Some(p), ProcState::Ready);
    // The child is not a zombie yet: the parent waits
    set_regs(&mut k, tf, SYS_WAITPID, cpid, 0);
    assert_eq!(syscall(&mut k, 0, &mut Vec::new()), SyscallOutcome::Blocked);
    assert_eq!(k.table.pcbs[p].state, ProcState::Waiting);
    k.table.pcbs[p].state = ProcState::Running;
    k.table.pcbs[c].state = ProcState::Zombie;
    k.table.pcbs[c].exit_status = -2;
    // Status address in a user page
    let pgt = k.table.pcbs[p].pagetable();
    assert!(polvoss::memory::virtual_memory::map(pgt, Addr::new(0x4000), Addr::new(0x8100_0000), 0x1000, PTE_R | PTE_W | PTE_U, &mut k.mem,
        &mut k.falloc));
    set_regs(&mut k, tf, SYS_WAITPID, cpid, 0x4008);
    assert_eq!(syscall(&mut k, 0, &mut Vec::new()), SyscallOutcome::Returned(cpid));
    assert_eq!(k.mem.read_u32(0x8100_0008), (-2i32) as u32);
    assert_eq!(k.table.pcbs[c].state, ProcState::Unused);
    assert_eq!(k.table.pcbs[c].pid, usize::MAX);
    // No such child any more
    assert_eq!(current_proc_child(&k.table, 0, cpid), None);
    set_regs(&mut k, tf, SYS_WAITPID, cpid, 0);
    assert_eq!(syscall(&mut k, 0, &mut Vec::new()), SyscallOutcome::Returned(usize::MAX));
}

#[test]
fn cause_bits() {
    assert_eq!(catch_cause(0x8000_0005), (1, 5));
    assert_eq!(catch_cause(8), (0, 8));
    assert_eq!(catch_cause(0x8000_0009), (1, 9));
}

#[test]
fn usertrap_system_call_advances_the_program_counter() {
    let (mut k, _p, tf) = kernel_with_process();
    let mut t = Trapframe::read_from(&k.mem, tf);
    t.epc = 0x1000;
    t.a7 = SYS_GETPID;
    t.write_to(&mut k.mem, tf);
    let root = k.table.pcbs[0].pagetable().as_integer();
    let r = usertrap(&mut k, 0, 8, 0x20, 0, &[], &mut Vec::new());
    assert_eq!(r, TrapAction::Resume { sepc: 0x1004, sstatus: 0x20, satp: 0x8000_0000 | (root >> 12) as usize });
    assert_eq!(a0_of(&k, tf), 1);
}

#[test]
fn usertrap_ends_a_killed_process() {
    let (mut k, p, _tf) = kernel_with_process();
    k.table.pcbs[p].kill_signal = SIGKILL;
    assert_eq!(usertrap(&mut k, 0, 8, 0, 0, &[], &mut Vec::new()), TrapAction::Exited);
    assert_eq!(k.table.pcbs[p].state, ProcState::Zombie);
    assert_eq!(k.table.pcbs[p].exit_status, SIGKILL);
    // A timer interrupt also ends it when it was killed
    let (mut k, p, _tf) = kernel_with_process();
    k.table.pcbs[p].kill_signal = SIGKILL;
    assert_eq!(usertrap(&mut k, 0, 0x8000_0005, 0, 0, &[], &mut Vec::new()), TrapAction::Exited);
}

#[test]
fn usertrap_interrupts() {
    let (mut k, _p, tf) = kernel_with_process();
    let mut t = Trapframe::read_from(&k.mem, tf);
    t.epc = 0x2000;
    t.write_to(&mut k.mem, tf);
    let mut out: Vec<u8> = Vec::new();
    // Timer
    let r = usertrap(&mut k, 0, 0x8000_0005, 0, 0, &[], &mut out);
    assert!(matches!(r, TrapAction::Resume { sepc: 0x2000, .. }));
    assert_eq!(k.ticks, 1);
    // External: the UART
    let r = usertrap(&mut k, 0, 0x8000_0009, 0, 10, b"q", &mut out);
    assert!(matches!(r, TrapAction::Resume { sepc: 0x2000, .. }));
    assert_eq!(k.console.input.e_offset, 1);
    assert_eq!(k.console.input.chars[0], b'q');
}

#[test]
fn kerneltrap_handles_interrupts() {
    let (mut k, _p, _tf) = kernel_with_process();
    let mut out: Vec<u8> = Vec::new();
    assert_eq!(kerneltrap(&mut k, 0, 0x8000_0005, 0x1234, 0x100, 0, &[], &mut out), (0x1234, 0x100));
    assert_eq!(k.ticks, 1);
    assert_eq!(kerneltrap(&mut k, 0, 0x8000_0009, 0x1234, 0x100, 10, b"a", &mut out), (0x1234, 0x100));
    assert_eq!(k.console.input.e_offset, 1);
}

#[test]
fn fresh_pcb_is_unused() {
    let p = Pcb::new();
    assert_eq!(p.state, ProcState::Unused);
    assert_eq!(p.kill_signal, i32::MAX);
    assert_eq!(p.pid, usize::MAX);
}

#[test]
fn trapframe_round_trip() {
    let mut mem = PhysMem::new();
    let addr: u64 = 0x8200_0000;
    let mut t = Trapframe::read_from(&mem, addr);
    t.epc = 0x1234;
    t.a0 = 7;
    t.a7 = 14;
    t.t6 = 0xdead;
    t.write_to(&mut mem, addr);
    let back = Trapframe::read_from(&mem, addr);
    assert_eq!((back.epc, back.a0, back.a7, back.t6), (0x1234, 7, 14, 0xdead));
    assert_eq!(back.sp, 0);
}
