//! The queue of high-level warehouse operations: a first-in first-out list
//! of pending tasks and the one currently running, where an operation is
//! never pending or running twice.
use crate::ids::new_uuid;
use std::collections::VecDeque;
use vstd::prelude::*;

verus! {

/// A high-level warehouse operation the planner turns into work units.
#[derive(Debug, Clone, Copy, PartialEq, Eq, Structural)]
pub enum PlannerOperation {
    /// Drain a putaway region into category-matched bulk.
    Putaway { region_id: u128 },
    /// Restock a user pickface region to its configured contents.
    RestockUserPickface { region_id: u128 },
    /// Keep an order-pickface region stocked with a slice of its categories' bulk.
    SyncOrderPickface { region_id: u128 },
    /// Re-index a single container's contents.
    IndexContainer { container_id: u128 },
    /// Fan out reconcile operations for every relevant region.
    ReconcileAll,
}

/// Whether a task waits or runs.
#[derive(Debug, Clone, Copy, PartialEq, Eq, Structural)]
pub enum PlannerTaskStatus {
    Pending,
    Running,
}

/// A queued operation, with its id and when it was enqueued (milliseconds
/// since the Unix epoch).
#[derive(Debug, Clone, Copy, PartialEq, Eq, Structural)]
pub struct PlannerTask {
    pub id: u128,
    pub operation: PlannerOperation,
    pub status: PlannerTaskStatus,
    pub enqueued_at_ms: u64,
}

/// What the queue holds: the running task, if any, and the pending ones.
#[derive(Debug)]
pub struct PlannerQueueSnapshot {
    pub current: Option<PlannerTask>,
    pub pending: Vec<PlannerTask>,
}

/// The pending tasks, front first, and the running one.
#[derive(Debug)]
pub struct PlannerQueueState {
    pending: VecDeque<PlannerTask>,
    current: Option<PlannerTask>,
}

/// Whether `operation` is pending among `pending` or is `current`'s.
pub open spec fn holds_operation(pending: Seq<PlannerTask>, current: Option<PlannerTask>, operation: PlannerOperation) -> bool {
    (exists|i: int| 0 <= i < pending.len() && (#[trigger] pending[i]).operation == operation)
        || (current matches Some(c) && c.operation == operation)
}

/// No operation is pending twice, nor pending while it runs; pending tasks
/// are marked pending.
pub open spec fn queue_wf(pending: Seq<PlannerTask>, current: Option<PlannerTask>) -> bool {
    &&& forall|i: int, j: int| 0 <= i < j < pending.len() ==> (#[trigger] pending[i]).operation != (#[trigger] pending[j]).operation
    &&& forall|i: int| 0 <= i < pending.len() ==> !(current matches Some(c) && c.operation == (#[trigger] pending[i]).operation)
    &&& forall|i: int| 0 <= i < pending.len() ==> (#[trigger] pending[i]).status == PlannerTaskStatus::Pending
}

impl PlannerQueueState {
    /// The pending tasks, front first.
    pub closed spec fn pending(&self) -> Seq<PlannerTask> {
        self.pending@
    }

    /// The running task.
    pub closed spec fn current(&self) -> Option<PlannerTask> {
        self.current
    }

    /// The queue's invariant (see [`queue_wf`]).
    pub open spec fn wf(&self) -> bool {
        queue_wf(self.pending(), self.current())
    }

    #[verifier::type_invariant]
    spec fn well_formed(self) -> bool {
        queue_wf(self.pending@, self.current)
    }

    /// An empty queue.
    pub fn new() -> (queue: Self)
        ensures
            queue.pending() == Seq::<PlannerTask>::empty(),
            queue.current() is None,
            queue.wf(),
    {
        PlannerQueueState { pending: VecDeque::new(), current: None }
    }

    fn holds(&self, operation: PlannerOperation) -> (found: bool)
        ensures
            found == holds_operation(self.pending(), self.current(), operation),
    {
        let mut i: usize = 0;
        while i < self.pending.len()
            invariant
                i <= self.pending@.len(),
                forall|j: int| 0 <= j < i ==> (#[trigger] self.pending@[j]).operation != operation,
            decreases self.pending.len() - i,
        {
            if self.pending[i].operation == operation {
                return true;
            }
            i = i + 1;
        }
        match self.current {
            Some(c) => c.operation == operation,
            None => false,
        }
    }

    /// Enqueues `operation`, stamped `enqueued_at_ms`, under a fresh random
    /// id, which it returns; skips it (returning `None`, changing nothing)
    /// when an equal operation is already pending or running.
    pub fn enqueue(&mut self, operation: PlannerOperation, enqueued_at_ms: u64) -> (id: Option<u128>)
        ensures
            final(self).wf(),
            final(self).current() == old(self).current(),
            holds_operation(old(self).pending(), old(self).current(), operation) ==> {
                &&& id is None
                &&& final(self).pending() == old(self).pending()
            },
            !holds_operation(old(self).pending(), old(self).current(), operation) ==> {
                &&& id matches Some(id) && final(self).pending() == old(self).pending().push(
                    PlannerTask { id, operation, status: PlannerTaskStatus::Pending, enqueued_at_ms },
                )
            },
    {
        proof {
            use_type_invariant(&*self);
        }
        if self.holds(operation) {
            return None;
        }
        let id = new_uuid();
        let ghost before = self.pending@;
        let mut pending = VecDeque::new();
        std::mem::swap(&mut pending, &mut self.pending);
        pending.push_back(PlannerTask { id, operation, status: PlannerTaskStatus::Pending, enqueued_at_ms });
        proof {
            let after = pending@;
            assert forall|i: int, j: int| 0 <= i < j < after.len() implies (#[trigger] after[i]).operation != (#[trigger] after[j]).operation by {
                if j == before.len() {
                    assert(before[i] == after[i]);
                }
            }
        }
        self.pending = pending;
        Some(id)
    }

    /// Takes the front pending task, marks it running and makes it the
    /// current task, and returns it; `None`, changing nothing, when no task
    /// is pending.
    pub fn next(&mut self) -> (task: Option<PlannerTask>)
        ensures
            final(self).wf(),
            old(self).pending().len() == 0 ==> task is None && final(self).pending() == old(self).pending()
                && final(self).current() == old(self).current(),
            old(self).pending().len() > 0 ==> {
                let front = old(self).pending()[0];
                let running = PlannerTask { status: PlannerTaskStatus::Running, ..front };
                &&& task == Some(running)
                &&& final(self).current() == Some(running)
                &&& final(self).pending() == old(self).pending().drop_first()
            },
    {
        proof {
            use_type_invariant(&*self);
        }
        let mut pending = VecDeque::new();
        std::mem::swap(&mut pending, &mut self.pending);
        match pending.pop_front() {
            Some(front) => {
                let running = PlannerTask { status: PlannerTaskStatus::Running, ..front };
                let ghost rest = pending@;
                proof {
                    assert(rest =~= old(self).pending@.drop_first());
                    assert forall|i: int| 0 <= i < rest.len() implies (#[trigger] rest[i]).operation != running.operation by {
                        assert(rest[i] == old(self).pending@[i + 1]);
                        assert(old(self).pending@[0] == front);
                    }
                    assert forall|i: int, j: int| 0 <= i < j < rest.len() implies (#[trigger] rest[i]).operation != (#[trigger] rest[j]).operation by {
                        assert(rest[i] == old(self).pending@[i + 1]);
                        assert(rest[j] == old(self).pending@[j + 1]);
                    }
                    assert forall|i: int| 0 <= i < rest.len() implies (#[trigger] rest[i]).status == PlannerTaskStatus::Pending by {
                        assert(rest[i] == old(self).pending@[i + 1]);
                    }
                }
                self.current = Some(running);
                self.pending = pending;
                Some(running)
            },
            None => {
                self.pending = pending;
                None
            },
        }
    }

    /// The running task is done: no task runs.
    pub fn finish_current(&mut self)
        ensures
            final(self).wf(),
            final(self).current() is None,
            final(self).pending() == old(self).pending(),
    {
        proof {
            use_type_invariant(&*self);
        }
        self.current = None;
    }

    /// The running task and the pending ones, front first.
    pub fn snapshot(&self) -> (snapshot: PlannerQueueSnapshot)
        ensures
            snapshot.current == self.current(),
            snapshot.pending@ == self.pending(),
    {
        let mut pending: Vec<PlannerTask> = Vec::new();
        let mut i: usize = 0;
        while i < self.pending.len()
            invariant
                i <= self.pending@.len(),
                pending@ == self.pending@.take(i as int),
            decreases self.pending.len() - i,
        {
            pending.push(self.pending[i]);
            assert(pending@ =~= self.pending@.take(i + 1));
            i = i + 1;
        }
        assert(pending@ =~= self.pending@);
        PlannerQueueSnapshot { current: self.current, pending }
    }
}

} // verus!
