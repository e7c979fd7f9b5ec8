//! External devices mechanisms.
//!
//! This module includes external devices mechanisms such as the
//! device interrupt handler.

use vstd::prelude::*;
use crate::config::constants::UART0_IRQ;
use crate::io::console::Console;
use crate::mmio::uart::uart_intr;
use crate::proc::processing::ProcTable;
use crate::proc::sync::woken;

verus! {

/// Interrupt handler for external devices. The interrupt claimed from
/// the PLIC, `irq`, is the UART's: the characters received are handed
/// to the console. Claiming the interrupt, reading the UART and
/// signalling the end of the handling to the PLIC are done by the
/// caller. Where a character completes a line, the processes waiting
/// for input become ready.
pub fn dev_intr(irq: u32, console: &mut Console, received: &[u8], table: &mut ProcTable, out: &mut Vec<u8>)
    requires
        irq == UART0_IRQ,
        old(console).wf(),
        old(table).wf(),
        old(console)@.intr_all_ok(received@),
    ensures
        final(console).wf(),
        final(console)@ == old(console)@.intr_all(received@).0,
        final(out)@ == old(out)@ + old(console)@.intr_all(received@).1,
        final(table).wf(),
        final(table).next_pid == old(table).next_pid,
        final(table).cpus@ == old(table).cpus@,
        old(console)@.intr_all_wakes(received@) ==> {
            &&& final(console).input_cvar.waiting() == Seq::<usize>::empty()
            &&& woken(old(table), final(table), old(console).input_cvar.waiting())
        },
        !old(console)@.intr_all_wakes(received@) ==> {
            &&& final(console).input_cvar == old(console).input_cvar
            &&& *final(table) == *old(table)
        },
{
    // If the interrupt was UART
    if irq == UART0_IRQ {
        uart_intr(console, received, table, out);
    }
}

} // verus!
