//! Synchronization mechanisms.
//!
//! A condition variable keeps a stack of the processes waiting on
//! it. Processes can sleep on a condition variable and be woken when
//! another process notifies it; when woken, a process checks its
//! condition again and may wait again. The switch to the scheduler
//! while waiting is done by the caller.

use vstd::prelude::*;
use crate::config::constants::NUM_PROC;
use super::control_types::{Pcb, ProcState};
use super::processing::ProcTable;

verus! {

/// The PCBs of `o` and `n` are the same but for their states, and
/// the states of the processes in `q` are `Ready` in `n`.
pub open spec fn woken(o: &ProcTable, n: &ProcTable, q: Seq<usize>) -> bool {
    &&& n.pcbs@.len() == o.pcbs@.len()
    &&& forall|i: int| 0 <= i < o.pcbs@.len() ==> {
        &&& (#[trigger] n.pcbs@[i]).state == if q.contains(i as usize) { ProcState::Ready } else { o.pcbs@[i].state }
        &&& same_but_state(n.pcbs@[i], o.pcbs@[i])
    }
}

/// Every field but the state is the same in the two PCBs.
pub open spec fn same_but_state(n: Pcb, o: Pcb) -> bool {
    &&& n.pid == o.pid && n.kill_signal == o.kill_signal && n.exit_status == o.exit_status
    &&& n.parent == o.parent && n.size == o.size && n.ctx == o.ctx
    &&& n.kstack == o.kstack && n.pagetable == o.pagetable && n.trapframe == o.trapframe
    &&& n.sleep_until == o.sleep_until
}

/// Condition variable queue: the waiting processes and their number.
struct CondvarQueue {
    procs: Vec<Option<usize>>,
    count: usize,
}

/// Condition variable.
pub struct Condvar {
    queue: CondvarQueue,
}

impl Condvar {
    /// The waiting processes, the most recent last.
    pub closed spec fn waiting(&self) -> Seq<usize> {
        Seq::new(self.queue.count as nat, |i: int| self.queue.procs@[i]->0)
    }

    /// Well-formedness: the queue holds at most `NUM_PROC` processes,
    /// each a position in the process table.
    pub closed spec fn wf(&self) -> bool {
        &&& self.queue.procs@.len() == NUM_PROC
        &&& self.queue.count <= NUM_PROC
        &&& forall|i: int| 0 <= i < self.queue.count ==> (#[trigger] self.queue.procs@[i]) is Some
            && self.queue.procs@[i]->0 < NUM_PROC
    }

    pub proof fn lemma_waiting(&self)
        requires
            self.wf(),
        ensures
            self.waiting().len() <= NUM_PROC,
            forall|i: int| 0 <= i < self.waiting().len() ==> #[trigger] self.waiting()[i] < NUM_PROC,
    {
    }

    /// Initialize the condition variable
    pub fn new() -> (r: Self)
        ensures
            r.wf(),
            r.waiting() == Seq::<usize>::empty(),
    {
        let mut procs: Vec<Option<usize>> = Vec::new();
        let mut i: usize = 0;
        while i < NUM_PROC
            invariant
                i <= NUM_PROC,
                procs@.len() == i,
            decreases NUM_PROC - i,
        {
            procs.push(None);
            i = i + 1;
        }
        let r = Condvar { queue: CondvarQueue { procs, count: 0 } };
        assert(r.waiting() =~= Seq::<usize>::empty());
        r
    }

    /// Push a process to the queue; a full queue is left as it is.
    fn push(&mut self, proc: usize)
        requires
            old(self).wf(),
            proc < NUM_PROC,
        ensures
            final(self).wf(),
            final(self).waiting() == if old(self).waiting().len() < NUM_PROC {
                old(self).waiting().push(proc)
            } else {
                old(self).waiting()
            },
    {
        let count: usize = self.queue.count;
        if count < NUM_PROC {
            self.queue.procs.set(count, Some(proc));
            self.queue.count = count + 1;
            assert(self.waiting() =~= old(self).waiting().push(proc));
        }
    }

    /// Pop a process from the queue
    fn pop(&mut self)
        requires
            old(self).wf(),
        ensures
            final(self).wf(),
            final(self).waiting() == if old(self).waiting().len() > 0 {
                old(self).waiting().drop_last()
            } else {
                old(self).waiting()
            },
    {
        let count: usize = self.queue.count;
        if count > 0 {
            self.queue.procs.set(count - 1, None);
            self.queue.count = count - 1;
            assert(self.waiting() =~= old(self).waiting().drop_last());
        }
    }

    /// Show the next process in the queue
    fn peek(&self) -> (r: Option<usize>)
        requires
            self.wf(),
        ensures
            r == if self.waiting().len() == 0 {
                None
            } else {
                Some(self.waiting().last())
            },
    {
        let count: usize = self.queue.count;
        if count == 0 {
            return None;
        }
        self.queue.procs[count - 1]
    }

    /// The current process waits until it is notified to check a
    /// condition: it is pushed to the queue and becomes `Waiting`.
    /// The caller then releases the condition and switches to the
    /// scheduler, and locks the condition again when it comes back.
    pub fn wait(&mut self, table: &mut ProcTable, cpu: usize)
        requires
            old(self).wf(),
            old(table).wf(),
            cpu < crate::config::constants::NUM_CPU,
            old(table).cpus@[cpu as int].proc is Some,
            old(table).cpus@[cpu as int].proc->0 < NUM_PROC,
        ensures
            final(self).wf(),
            final(table).wf(),
            ({
                let p = old(table).cpus@[cpu as int].proc->0;
                &&& final(self).waiting() == if old(self).waiting().len() < NUM_PROC {
                    old(self).waiting().push(p)
                } else {
                    old(self).waiting()
                }
                &&& final(table).pcbs@[p as int].state == ProcState::Waiting
                &&& same_but_state(final(table).pcbs@[p as int], old(table).pcbs@[p as int])
                &&& final(table).same_except(old(table), p as int)
                &&& final(table).next_pid == old(table).next_pid
            }),
    {
        // Current process
        let proc: usize = match table.cpus[cpu].proc {
            Some(p) => p,
            None => 0,
        };
        // Push the process to the queue
        self.push(proc);
        // Change process state
        table.pcbs[proc].state = ProcState::Waiting;
    }

    /// The process `proc` waits until it is notified to check a
    /// condition on its own PCB. The only difference from `wait` is
    /// that the process is given by the caller, which holds its PCB.
    pub fn wait_self(&mut self, table: &mut ProcTable, proc: usize)
        requires
            old(self).wf(),
            old(table).wf(),
            proc < NUM_PROC,
        ensures
            final(self).wf(),
            final(table).wf(),
            final(self).waiting() == if old(self).waiting().len() < NUM_PROC {
                old(self).waiting().push(proc)
            } else {
                old(self).waiting()
            },
            final(table).pcbs@[proc as int].state == ProcState::Waiting,
            same_but_state(final(table).pcbs@[proc as int], old(table).pcbs@[proc as int]),
            final(table).same_except(old(table), proc as int),
            final(table).next_pid == old(table).next_pid,
    {
        // Push the process to the queue
        self.push(proc);
        // Change process state
        table.pcbs[proc].state = ProcState::Waiting;
    }

    /// Notify all processes on the queue: each becomes `Ready` and
    /// the queue is emptied.
    pub fn notify_all(&mut self, table: &mut ProcTable)
        requires
            old(self).wf(),
            old(table).wf(),
        ensures
            final(self).wf(),
            final(table).wf(),
            final(self).waiting() == Seq::<usize>::empty(),
            final(table).next_pid == old(table).next_pid,
            final(table).cpus@ == old(table).cpus@,
            woken(old(table), final(table), old(self).waiting()),
    {
        let ghost q0 = self.waiting();
        // Get the next process on the queue
        let mut opt: Option<usize> = self.peek();
        while opt.is_some()
            invariant
                self.wf(),
                table.wf(),
                table.next_pid == old(table).next_pid,
                table.cpus@ == old(table).cpus@,
                q0 == old(self).waiting(),
                self.waiting() == q0.take(self.waiting().len() as int),
                self.waiting().len() <= q0.len(),
                opt == if self.waiting().len() == 0 { None } else { Some(self.waiting().last()) },
                forall|i: int| 0 <= i < NUM_PROC ==> {
                    let (n, o) = (#[trigger] table.pcbs@[i], old(table).pcbs@[i]);
                    &&& n.state == if q0.subrange(self.waiting().len() as int, q0.len() as int).contains(i as usize) {
                        ProcState::Ready
                    } else {
                        o.state
                    }
                    &&& n.pid == o.pid && n.kill_signal == o.kill_signal && n.exit_status == o.exit_status
                    &&& n.parent == o.parent && n.size == o.size && n.ctx == o.ctx
                    &&& n.kstack == o.kstack && n.pagetable == o.pagetable && n.trapframe == o.trapframe
                    &&& n.sleep_until == o.sleep_until
                },
            decreases self.waiting().len(),
        {
            let p: usize = match opt {
                Some(p) => p,
                None => 0,
            };
            proof {
                self.lemma_waiting();
            }
            let ghost n0 = self.waiting().len() as int;
            // Change process state
            table.pcbs[p].state = ProcState::Ready;
            // Remove process from the queue
            self.pop();
            proof {
                let n1 = n0 - 1;
                assert(self.waiting() =~= q0.take(n1));
                assert(q0[n1] == p);
                assert forall|i: int| 0 <= i < NUM_PROC implies
                    #[trigger] q0.subrange(n1, q0.len() as int).contains(i as usize)
                    == (q0.subrange(n0, q0.len() as int).contains(i as usize) || i == p) by {
                    let s1 = q0.subrange(n1, q0.len() as int);
                    let s0 = q0.subrange(n0, q0.len() as int);
                    if s1.contains(i as usize) {
                        let k = choose|k: int| 0 <= k < s1.len() && s1[k] == i as usize;
                        if k > 0 {
                            assert(s0[k - 1] == s1[k]);
                        }
                    }
                    if s0.contains(i as usize) {
                        let k = choose|k: int| 0 <= k < s0.len() && s0[k] == i as usize;
                        assert(s1[k + 1] == s0[k]);
                    }
                    if i == p {
                        assert(s1[0] == p);
                    }
                }
            }
            // Get the next process on the queue
            opt = self.peek();
        }
        proof {
            assert(q0.subrange(0, q0.len() as int) =~= q0);
            assert(self.waiting() =~= Seq::<usize>::empty());
        }
    }
}

/// A process that waits on a condition variable is `Ready` once the
/// condition variable is notified.
pub proof fn lemma_wait_then_notify(q: Seq<usize>, o: &ProcTable, n: &ProcTable, p: usize)
    requires
        q.contains(p),
        p < o.pcbs@.len(),
        woken(o, n, q),
    ensures
        n.pcbs@[p as int].state == ProcState::Ready,
        same_but_state(n.pcbs@[p as int], o.pcbs@[p as int]),
{
}

/// No wakeup is lost: a process `p` that waited on a condition
/// variable whose queue `q0` had room (`wait` left the queue
/// `q0.push(p)` and `p` waiting) stays in the queue whatever processes
/// wait after it (`later`), and the next notification of the
/// condition variable (`notify_all`) makes it `Ready`.
pub proof fn lemma_no_lost_wakeup(q0: Seq<usize>, later: Seq<usize>, t1: &ProcTable, t2: &ProcTable, p: usize)
    requires
        q0.len() < NUM_PROC,
        p < t1.pcbs@.len(),
        woken(t1, t2, q0.push(p) + later),
    ensures
        t2.pcbs@[p as int].state == ProcState::Ready,
        same_but_state(t2.pcbs@[p as int], t1.pcbs@[p as int]),
{
    let q = q0.push(p) + later;
    assert(q[q0.len() as int] == p);
    lemma_wait_then_notify(q, t1, t2, p);
}

} // verus!
