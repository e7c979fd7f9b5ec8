//! Round-robin scheduling algorithm

use vstd::prelude::*;
use crate::config::constants::NUM_PROC;
use super::control_types::ProcState;
use super::processing::ProcTable;

verus! {

/// Round-robin function. This is called by the scheduler.
/// # Return
/// Option containing the position of the first process that is
/// ready to run, or `None` if there is no process to be executed
pub fn round_robin(table: &ProcTable) -> (r: Option<usize>)
    requires
        table.wf(),
    ensures
        match r {
            Some(i) => {
                &&& i < NUM_PROC
                &&& table.pcbs@[i as int].state == ProcState::Ready
                &&& forall|j: int| 0 <= j < i ==> (#[trigger] table.pcbs@[j]).state != ProcState::Ready
            },
            None => forall|j: int| 0 <= j < NUM_PROC ==> (#[trigger] table.pcbs@[j]).state != ProcState::Ready,
        },
{
    let mut i: usize = 0;
    while i < NUM_PROC
        invariant
            table.wf(),
            i <= NUM_PROC,
            forall|j: int| 0 <= j < i ==> (#[trigger] table.pcbs@[j]).state != ProcState::Ready,
        decreases NUM_PROC - i,
    {
        // The first Ready process is returned to the scheduler to be
        // dispatched
        if table.pcbs[i].state == ProcState::Ready {
            return Some(i);
        }
        i = i + 1;
    }
    None
}

} // verus!
