//! Clock mechanisms.
//!
//! This module includes the decisions of the clock interrupt
//! handler. Programming the next timer interrupt is done by the
//! caller.

use vstd::prelude::*;
use crate::proc::sync::{Condvar, woken};
use crate::proc::processing::ProcTable;

verus! {

/// Interrupt handler for clock: CPU 0 counts a tick and wakes up
/// every process sleeping on the ticks condition variable. Only CPU
/// 0 counts, to avoid counting a tick more than once.
pub fn clock_intr(cpu: usize, ticks: &mut u64, ticks_cvar: &mut Condvar, table: &mut ProcTable)
    requires
        old(ticks_cvar).wf(),
        old(table).wf(),
        cpu == 0 ==> *old(ticks) < u64::MAX,
    ensures
        final(ticks_cvar).wf(),
        final(table).wf(),
        cpu != 0 ==> *final(ticks) == *old(ticks) && *final(ticks_cvar) == *old(ticks_cvar)
            && *final(table) == *old(table),
        cpu == 0 ==> {
            &&& *final(ticks) == *old(ticks) + 1
            &&& final(ticks_cvar).waiting() == Seq::<usize>::empty()
            &&& final(table).next_pid == old(table).next_pid
            &&& final(table).cpus@ == old(table).cpus@
            &&& woken(old(table), final(table), old(ticks_cvar).waiting())
        },
{
    if cpu == 0 {
        // Increment ticks
        *ticks = *ticks + 1;
        // Wakes up all sleeping processes on this condvar
        ticks_cvar.notify_all(table);
    }
}

} // verus!
