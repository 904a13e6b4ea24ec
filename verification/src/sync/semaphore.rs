//! Counting semaphores.

use crate::sync::ledger::{
    add_unit, count_of, has_id, lemma_has_first, lemma_with_unit_keeps, take_unit, with_unit,
    without_unit,
};
use crate::sync::waiters::rest;
use crate::task::processor::{Scheduler, SchedulerView};
use crate::task::{TaskStatus, TaskView, WaitChannel};
use std::collections::VecDeque;
use vstd::prelude::*;

verus! {

/// A counting semaphore.
pub struct Semaphore {
    /// Id of the semaphore in its process.
    pub sem_id: usize,
    /// Count and wait queue.
    pub inner: SemaphoreInner,
}

/// The changing part of a semaphore.
pub struct SemaphoreInner {
    /// Units that are free; below zero, the number of tasks that wait.
    pub count: isize,
    /// Handles of the waiting tasks, longest waiting first.
    pub wait_queue: VecDeque<usize>,
}

/// Mathematical form of a [`Semaphore`].
pub ghost struct SemaphoreView {
    pub sem_id: usize,
    pub count: int,
    pub wait_queue: Seq<usize>,
}

impl View for Semaphore {
    type V = SemaphoreView;

    open spec fn view(&self) -> SemaphoreView {
        SemaphoreView {
            sem_id: self.sem_id,
            count: self.inner.count as int,
            wait_queue: self.inner.wait_queue@,
        }
    }
}

impl SemaphoreView {
    /// The count is one that can be stored, and as many tasks wait as the
    /// count is below zero.
    pub open spec fn wf(self) -> bool {
        &&& isize::MIN <= self.count <= isize::MAX
        &&& self.wait_queue.len() == if self.count < 0 {
            -self.count
        } else {
            0
        }
    }

    /// A new semaphore with `res_count` free units.
    pub open spec fn fresh(id: usize, res_count: int) -> SemaphoreView {
        SemaphoreView { sem_id: id, count: res_count, wait_queue: Seq::empty() }
    }

    /// A `down` by the running task makes it wait.
    pub open spec fn down_blocks(self) -> bool {
        self.count - 1 < 0
    }

    /// The semaphore after a `down` by task `caller`.
    pub open spec fn down(self, caller: usize) -> SemaphoreView {
        SemaphoreView {
            count: self.count - 1,
            wait_queue: if self.down_blocks() {
                self.wait_queue.push(caller)
            } else {
                self.wait_queue
            },
            ..self
        }
    }

    /// The task that an `up` wakes: the longest waiting one, if any waits.
    pub open spec fn woken_by_up(self) -> Option<usize> {
        if self.count <= 0 && self.wait_queue.len() > 0 {
            Some(self.wait_queue[0])
        } else {
            None
        }
    }

    /// The semaphore after an `up`.
    pub open spec fn up(self) -> SemaphoreView {
        SemaphoreView {
            count: self.count + 1,
            wait_queue: if self.woken_by_up() is Some {
                rest(self.wait_queue)
            } else {
                self.wait_queue
            },
            ..self
        }
    }

    /// The scheduler after a `down` on this semaphore by the running task:
    /// where the task has to wait, the unit is entered in its need ledger
    /// and the task is blocked; else the unit is entered in its allocation
    /// ledger.
    pub open spec fn sched_after_down(self, sched: SchedulerView) -> SchedulerView {
        let cur = sched.current_task();
        if self.down_blocks() {
            sched.with_current(
                TaskView { need: with_unit(cur.need, self.sem_id), ..cur },
            ).block_current(WaitChannel::Semaphore(self.sem_id))
        } else {
            sched.with_current(
                TaskView { allocation: with_unit(cur.allocation, self.sem_id), ..cur },
            )
        }
    }

    /// The scheduler after an `up` on this semaphore: the woken task, if
    /// there is one, has the unit moved from its need ledger to its
    /// allocation ledger and is ready.
    pub open spec fn sched_after_up(self, sched: SchedulerView) -> SchedulerView {
        match self.woken_by_up() {
            Some(h) => {
                let task = sched.tasks[h as int];
                sched.with_task(
                    h,
                    TaskView {
                        need: without_unit(task.need, self.sem_id),
                        allocation: with_unit(task.allocation, self.sem_id),
                        ..task
                    },
                ).wakeup(h)
            },
            None => sched,
        }
    }

    /// What `up` asks of the task that it wakes: it is a blocked task whose
    /// need ledger has an entry for this semaphore, and whose allocation
    /// ledger can take one more unit.
    pub open spec fn can_wake(self, sched: SchedulerView) -> bool {
        self.woken_by_up() matches Some(h) ==> {
            &&& sched.has_task(h)
            &&& sched.tasks[h as int].task_status == TaskStatus::Blocked
            &&& has_id(sched.tasks[h as int].need, self.sem_id)
            &&& count_of(sched.tasks[h as int].allocation, self.sem_id) < isize::MAX
        }
    }

    /// What `down` asks of the running task: the ledger that gets the unit
    /// can take one more.
    pub open spec fn can_charge(self, sched: SchedulerView) -> bool {
        if self.down_blocks() {
            count_of(sched.current_task().need, self.sem_id) < isize::MAX
        } else {
            count_of(sched.current_task().allocation, self.sem_id) < isize::MAX
        }
    }
}

impl Semaphore {
    /// A semaphore with id `id` and `res_count` free units.
    pub fn new(id: usize, res_count: usize) -> (sem: Semaphore)
        requires
            res_count <= isize::MAX,
        ensures
            sem@ == SemaphoreView::fresh(id, res_count as int),
            sem@.wf(),
    {
        Semaphore {
            sem_id: id,
            inner: SemaphoreInner { count: res_count as isize, wait_queue: VecDeque::new() },
        }
    }

    /// Frees one unit. If tasks wait, the longest waiting one is granted the
    /// unit: it is moved from the task's need ledger to its allocation
    /// ledger, and the task is woken.
    pub fn up(&mut self, sched: &mut Scheduler)
        requires
            old(sched)@.wf(),
            old(self)@.count < isize::MAX,
            old(self)@.can_wake(old(sched)@),
        ensures
            final(self)@ == old(self)@.up(),
            final(sched)@ == old(self)@.sched_after_up(old(sched)@),
            final(sched)@.wf(),
            old(self)@.wf() ==> final(self)@.wf(),
    {
        let before = self.inner.count;
        self.inner.count += 1;
        if before <= 0 {
            match self.inner.wait_queue.pop_front() {
                Some(task) => {
                    proof {
                        lemma_has_first(old(sched)@.tasks[task as int].need, self.sem_id);
                        lemma_with_unit_keeps(
                            old(sched)@.tasks[task as int].allocation,
                            self.sem_id,
                        );
                    }
                    take_unit(&mut sched.tasks[task].need, self.sem_id);
                    add_unit(&mut sched.tasks[task].allocation, self.sem_id);
                    proof {
                        let moved = TaskView {
                            need: without_unit(
                                old(sched)@.tasks[task as int].need,
                                self.sem_id,
                            ),
                            allocation: with_unit(
                                old(sched)@.tasks[task as int].allocation,
                                self.sem_id,
                            ),
                            ..old(sched)@.tasks[task as int]
                        };
                        assert(sched@.tasks =~= old(sched)@.with_task(task, moved).tasks);
                    }
                    sched.wakeup_task(task);
                },
                None => {},
            }
        }
    }

    /// Takes one unit for the running task. If none is free, the unit is
    /// entered in the task's need ledger and the task waits in the queue,
    /// blocked; else the unit is entered in the task's allocation ledger.
    pub fn down(&mut self, sched: &mut Scheduler)
        requires
            old(sched)@.wf(),
            old(sched)@.current is Some,
            old(self)@.count > isize::MIN,
            old(self)@.can_charge(old(sched)@),
        ensures
            final(self)@ == old(self)@.down(old(sched)@.current.unwrap()),
            final(sched)@ == old(self)@.sched_after_down(old(sched)@),
            final(sched)@.wf(),
            old(self)@.wf() ==> final(self)@.wf(),
    {
        self.inner.count -= 1;
        let cur = sched.processor.current().unwrap();
        if self.inner.count < 0 {
            add_unit(&mut sched.tasks[cur].need, self.sem_id);
            self.inner.wait_queue.push_back(cur);
            proof {
                let charged = TaskView {
                    need: with_unit(old(sched)@.tasks[cur as int].need, self.sem_id),
                    ..old(sched)@.tasks[cur as int]
                };
                lemma_with_unit_keeps(old(sched)@.tasks[cur as int].need, self.sem_id);
                assert(sched@.tasks =~= old(sched)@.with_task(cur, charged).tasks);
            }
            sched.block_current_and_run_next(WaitChannel::Semaphore(self.sem_id));
        } else {
            add_unit(&mut sched.tasks[cur].allocation, self.sem_id);
            proof {
                let charged = TaskView {
                    allocation: with_unit(old(sched)@.tasks[cur as int].allocation, self.sem_id),
                    ..old(sched)@.tasks[cur as int]
                };
                lemma_with_unit_keeps(old(sched)@.tasks[cur as int].allocation, self.sem_id);
                assert(sched@.tasks =~= old(sched)@.with_task(cur, charged).tasks);
            }
        }
    }
}

/// One operation on a semaphore.
pub ghost enum SemaphoreOp {
    /// A `down` by the task with this handle.
    Down(usize),
    /// An `up`.
    Up,
}

/// Number of `down` operations in `ops`.
pub open spec fn downs(ops: Seq<SemaphoreOp>) -> int
    decreases ops.len(),
{
    if ops.len() == 0 {
        0
    } else {
        downs(ops.drop_last()) + if ops.last() is Down {
            1int
        } else {
            0int
        }
    }
}

/// Number of `up` operations in `ops`.
pub open spec fn ups(ops: Seq<SemaphoreOp>) -> int
    decreases ops.len(),
{
    if ops.len() == 0 {
        0
    } else {
        ups(ops.drop_last()) + if ops.last() is Up {
            1int
        } else {
            0int
        }
    }
}

impl SemaphoreView {
    /// The semaphore after the operations `ops`, first to last.
    pub open spec fn after(self, ops: Seq<SemaphoreOp>) -> SemaphoreView
        decreases ops.len(),
    {
        if ops.len() == 0 {
            self
        } else {
            let before = self.after(ops.drop_last());
            match ops.last() {
                SemaphoreOp::Down(caller) => before.down(caller),
                SemaphoreOp::Up => before.up(),
            }
        }
    }
}

/// At every moment the count of a semaphore is its first count, less the
/// `down`s and plus the `up`s made so far, and as many tasks wait as the
/// count is below zero.
pub proof fn lemma_count_follows_history(id: usize, initial: int, ops: Seq<SemaphoreOp>)
    requires
        0 <= initial,
    ensures
        SemaphoreView::fresh(id, initial).after(ops).count == initial - downs(ops) + ups(ops),
        SemaphoreView::fresh(id, initial).after(ops).wait_queue.len() == if SemaphoreView::fresh(
            id,
            initial,
        ).after(ops).count < 0 {
            -SemaphoreView::fresh(id, initial).after(ops).count
        } else {
            0
        },
    decreases ops.len(),
{
    if ops.len() > 0 {
        lemma_count_follows_history(id, initial, ops.drop_last());
    }
}

/// Tasks are woken in the order in which they began to wait: after task
/// `first` and then task `second` have blocked on a semaphore on which no
/// task waited, the next `up` wakes `first` and the one after it wakes
/// `second`, each going to the end of the ready queue.
pub proof fn lemma_semaphore_wakes_in_order(
    semaphore: SemaphoreView,
    first: usize,
    second: usize,
    sched: SchedulerView,
    later: SchedulerView,
)
    requires
        semaphore.wf(),
        semaphore.wait_queue.len() == 0,
        semaphore.down_blocks(),
    ensures
        ({
            let waited = semaphore.down(first).down(second);
            &&& semaphore.down(first).down_blocks()
            &&& waited.wait_queue == seq![first, second]
            &&& waited.woken_by_up() == Some(first)
            &&& waited.sched_after_up(sched).ready_queue == sched.ready_queue.push(first)
            &&& waited.up().woken_by_up() == Some(second)
            &&& waited.up().sched_after_up(later).ready_queue == later.ready_queue.push(second)
            &&& waited.up().up().wait_queue.len() == 0
        }),
{
}

} // verus!
