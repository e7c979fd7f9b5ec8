//! Nesting of interrupt-disabling locks.
//!
//! Before a lock is taken the CPU disables interrupts, and after the
//! last nested lock is released it enables them again if they were
//! enabled before the first one. The CPU struct counts the nested
//! locks and remembers whether interrupts were enabled. Turning the
//! interrupts off and on is done by the caller, as these functions
//! say.

use vstd::prelude::*;
use super::control_types::Cpu;

verus! {

/// Lock count and saved interrupt state after a lock is taken with
/// interrupts in the state `intr`.
pub open spec fn pushed(count: usize, intena: bool, intr: bool) -> (usize, bool) {
    ((count + 1) as usize, if count == 0 { intr } else { intena })
}

/// Lock count, saved interrupt state, and whether interrupts must be
/// enabled again, after a lock is released.
pub open spec fn popped(count: usize, intena: bool) -> (usize, bool, bool) {
    ((count - 1) as usize, intena, count - 1 == 0 && intena)
}

/// Save state before locking a mutex. `old_intr` tells whether
/// interrupts were enabled before the caller disabled them to avoid
/// deadlocks.
pub fn lock_stack_push(cpu: &mut Cpu, old_intr: bool)
    requires
        old(cpu).lock_count < usize::MAX,
    ensures
        (final(cpu).lock_count, final(cpu).intena) == pushed(old(cpu).lock_count, old(cpu).intena, old_intr),
        final(cpu).proc == old(cpu).proc,
        final(cpu).ctx == old(cpu).ctx,
{
    // Save the state of interrupts before locks
    if cpu.lock_count == 0 {
        cpu.intena = old_intr;
    }
    // Increment lock_count for nested locks
    cpu.lock_count = cpu.lock_count + 1;
}

/// Update state after unlocking a mutex.
/// # Return
/// Whether interrupts must be enabled again (they were enabled
/// before the first lock and no lock is left).
pub fn lock_stack_pop(cpu: &mut Cpu) -> (enable: bool)
    requires
        old(cpu).lock_count > 0,
    ensures
        (final(cpu).lock_count, final(cpu).intena, enable) == popped(old(cpu).lock_count, old(cpu).intena),
        final(cpu).proc == old(cpu).proc,
        final(cpu).ctx == old(cpu).ctx,
{
    // Decrement lock_count for nested locks
    cpu.lock_count = cpu.lock_count - 1;
    // Check if interrupts need to be enabled again
    cpu.lock_count == 0 && cpu.intena
}

/// Releasing a lock undoes taking it: the lock count comes back, and
/// interrupts are enabled again exactly when no other lock was held
/// and they were enabled before.
pub proof fn lemma_push_pop(count: usize, intena: bool, intr: bool)
    requires
        count < usize::MAX,
    ensures
        ({
            let (c1, i1) = pushed(count, intena, intr);
            let (c2, i2, enable) = popped(c1, i1);
            &&& c2 == count
            &&& enable == (count == 0 && intr)
            &&& i2 == if count == 0 { intr } else { intena }
        }),
{
}

} // verus!
