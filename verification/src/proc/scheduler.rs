//! Scheduler decisions.
//!
//! The scheduler loop runs on each CPU: it picks the next process
//! with `round_robin`, dispatches it and switches to its context.
//! The context switch itself is done by the caller.

use vstd::prelude::*;
use crate::config::constants::{NUM_PROC, NUM_CPU};
use super::control_types::ProcState;
use super::processing::{ProcTable, set_current_proc};
use super::round_robin::round_robin;
use crate::io::console::{Console, ConsoleView};

verus! {

/// Update the process state and make it the current process of the
/// CPU, before the context switch: cpu -> proc.
pub fn dispatch(table: &mut ProcTable, cpu: usize, proc: usize)
    requires
        old(table).wf(),
        cpu < NUM_CPU,
        proc < NUM_PROC,
    ensures
        final(table).wf(),
        final(table).next_pid == old(table).next_pid,
        final(table).cpus@[cpu as int].proc == Some(proc),
        forall|c: int| 0 <= c < NUM_CPU && c != cpu ==> #[trigger] final(table).cpus@[c] == old(table).cpus@[c],
        final(table).pcbs@[proc as int].state == ProcState::Running,
        forall|i: int| 0 <= i < NUM_PROC && i != proc ==> #[trigger] final(table).pcbs@[i] == old(table).pcbs@[i],
{
    // Update current process running on this CPU
    set_current_proc(table, cpu, Some(proc));
    // Update process state
    table.pcbs[proc].state = ProcState::Running;
}

/// The message printed when no process can run:
/// `"\n\r[scheduler]: No process to run.\n\r"`.
pub open spec fn idle_message() -> Seq<u8> {
    seq![10u8, 13u8, 91u8, 115u8, 99u8, 104u8, 101u8, 100u8, 117u8, 108u8, 101u8, 114u8, 93u8, 58u8, 32u8,
        78u8, 111u8, 32u8, 112u8, 114u8, 111u8, 99u8, 101u8, 115u8, 115u8, 32u8, 116u8, 111u8, 32u8, 114u8,
        117u8, 110u8, 46u8, 10u8, 13u8]
}

/// A pass of the scheduler loop that finds no process to run, from
/// the flag `print_msg`, the console `c` and the output `out`: the
/// message is printed when the flag is set, and the flag is cleared.
pub open spec fn idle_pass(print_msg: bool, c: ConsoleView, out: Seq<u8>) -> (bool, ConsoleView, Seq<u8>) {
    if print_msg {
        let (m, bytes) = c.monitor.write_bytes(idle_message());
        (false, ConsoleView { monitor: m, ..c }, out + bytes)
    } else {
        (false, c, out)
    }
}

/// `k` passes of the scheduler loop in a row that find no process to
/// run.
pub open spec fn idle_passes(print_msg: bool, c: ConsoleView, out: Seq<u8>, k: nat) -> (bool, ConsoleView, Seq<u8>)
    decreases k,
{
    if k == 0 {
        (print_msg, c, out)
    } else {
        let (f, c1, o1) = idle_passes(print_msg, c, out, (k - 1) as nat);
        idle_pass(f, c1, o1)
    }
}

/// The message is printed once per idle stretch: after a pass that ran
/// a process (which sets the flag), any number `k > 0` of passes that
/// find no process to run print it once, in the first of them.
pub proof fn lemma_idle_message_once(c: ConsoleView, out: Seq<u8>, k: nat)
    requires
        k > 0,
    ensures
        idle_passes(true, c, out, k) == idle_pass(true, c, out),
    decreases k,
{
    reveal_with_fuel(idle_passes, 2);
    if k > 1 {
        lemma_idle_message_once(c, out, (k - 1) as nat);
        let s = idle_pass(true, c, out);
        assert(idle_pass(s.0, s.1, s.2) == s);
    }
}

/// One pass of the scheduler loop on `cpu`: the first process ready
/// to run is dispatched, and the caller switches to its context (and
/// clears the CPU's current process when it comes back). With no
/// process to run a message is printed, once until a process runs
/// again (`print_msg`).
pub fn scheduler(
    table: &mut ProcTable,
    cpu: usize,
    print_msg: &mut bool,
    console: &mut Console,
    out: &mut Vec<u8>,
) -> (r: Option<usize>)
    requires
        old(table).wf(),
        cpu < NUM_CPU,
        old(console).wf(),
        old(console).monitor@.room(35),
    ensures
        final(table).wf(),
        final(console).wf(),
        final(console).input_cvar == old(console).input_cvar,
        final(table).next_pid == old(table).next_pid,
        match r {
            Some(i) => {
                &&& i < NUM_PROC
                &&& old(table).pcbs@[i as int].state == ProcState::Ready
                &&& forall|j: int| 0 <= j < i ==> (#[trigger] old(table).pcbs@[j]).state != ProcState::Ready
                &&& final(table).cpus@[cpu as int].proc == Some(i)
                &&& final(table).pcbs@[i as int].state == ProcState::Running
                &&& forall|j: int| 0 <= j < NUM_PROC && j != i ==> #[trigger] final(table).pcbs@[j] == old(table).pcbs@[j]
                &&& forall|c: int| 0 <= c < NUM_CPU && c != cpu ==> #[trigger] final(table).cpus@[c] == old(table).cpus@[c]
                &&& *final(print_msg)
                &&& final(console)@ == old(console)@
                &&& final(out)@ == old(out)@
            },
            None => {
                &&& forall|j: int| 0 <= j < NUM_PROC ==> (#[trigger] old(table).pcbs@[j]).state != ProcState::Ready
                &&& *final(table) == *old(table)
                &&& (*final(print_msg), final(console)@, final(out)@)
                    == idle_pass(*old(print_msg), old(console)@, old(out)@)
            },
        },
{
    // Get the next process to run on this CPU
    let opt: Option<usize> = round_robin(table);
    match opt {
        Some(proc) => {
            *print_msg = true;
            // Start process execution
            dispatch(table, cpu, proc);
            Some(proc)
        },
        None => {
            if *print_msg {
                let msg: Vec<u8> = vec![10u8, 13u8, 91u8, 115u8, 99u8, 104u8, 101u8, 100u8, 117u8, 108u8,
                    101u8, 114u8, 93u8, 58u8, 32u8, 78u8, 111u8, 32u8, 112u8, 114u8, 111u8, 99u8, 101u8,
                    115u8, 115u8, 32u8, 116u8, 111u8, 32u8, 114u8, 117u8, 110u8, 46u8, 10u8, 13u8];
                proof {
                    assert(msg@ =~= idle_message());
                }
                console.monitor.write_slice(msg.as_slice(), out);
                *print_msg = false;
            }
            None
        },
    }
}

} // verus!
