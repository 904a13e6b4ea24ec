//! Condition variables.

use crate::sync::mutex::{Mutex, MutexView};
use crate::sync::waiters::rest;
use crate::task::processor::{Scheduler, SchedulerView};
use crate::task::{TaskStatus, WaitChannel};
use std::collections::VecDeque;
use vstd::prelude::*;

verus! {

/// A condition variable.
pub struct Condvar {
    /// Id of the condition variable in its process.
    pub id: usize,
    /// Handles of the waiting tasks, longest waiting first.
    pub wait_queue: VecDeque<usize>,
}

/// Mathematical form of a [`Condvar`].
pub ghost struct CondvarView {
    pub id: usize,
    pub wait_queue: Seq<usize>,
}

impl View for Condvar {
    type V = CondvarView;

    open spec fn view(&self) -> CondvarView {
        CondvarView { id: self.id, wait_queue: self.wait_queue@ }
    }
}

impl CondvarView {
    /// A new condition variable, on which no task waits.
    pub open spec fn fresh(id: usize) -> CondvarView {
        CondvarView { id, wait_queue: Seq::empty() }
    }

    /// The task that a signal wakes: the longest waiting one, if any waits.
    pub open spec fn woken_by_signal(self) -> Option<usize> {
        if self.wait_queue.len() > 0 {
            Some(self.wait_queue[0])
        } else {
            None
        }
    }

    /// The condition variable after a signal.
    pub open spec fn signal(self) -> CondvarView {
        match self.woken_by_signal() {
            Some(h) => CondvarView { wait_queue: rest(self.wait_queue), ..self },
            None => self,
        }
    }

    /// The scheduler after a signal: the woken task, if any, is ready.
    pub open spec fn sched_after_signal(self, sched: SchedulerView) -> SchedulerView {
        match self.woken_by_signal() {
            Some(h) => sched.wakeup(h),
            None => sched,
        }
    }

    /// What a signal asks of the task that it wakes: it is a blocked task.
    pub open spec fn can_wake(self, sched: SchedulerView) -> bool {
        self.woken_by_signal() matches Some(h) ==> sched.has_task(h) && sched.tasks[h as int].task_status
            == TaskStatus::Blocked
    }

    /// The condition variable after task `caller` began to wait on it.
    pub open spec fn wait(self, caller: usize) -> CondvarView {
        CondvarView { wait_queue: self.wait_queue.push(caller), ..self }
    }

    /// The scheduler after the running task released `mutex` and began to
    /// wait on this condition variable.
    pub open spec fn sched_after_wait(self, mutex: MutexView, sched: SchedulerView) -> SchedulerView {
        mutex.sched_after_unlock(sched).block_current(WaitChannel::Condvar(self.id))
    }
}

impl Condvar {
    /// A condition variable with id `id`, on which no task waits.
    pub fn new(id: usize) -> (c: Condvar)
        ensures
            c@ == CondvarView::fresh(id),
    {
        Condvar { id, wait_queue: VecDeque::new() }
    }

    /// Wakes the longest waiting task; does nothing when no task waits.
    pub fn signal(&mut self, sched: &mut Scheduler)
        requires
            old(sched)@.wf(),
            old(self)@.can_wake(old(sched)@),
        ensures
            final(self)@ == old(self)@.signal(),
            final(sched)@ == old(self)@.sched_after_signal(old(sched)@),
            final(sched)@.wf(),
    {
        match self.wait_queue.pop_front() {
            Some(task) => {
                sched.wakeup_task(task);
            },
            None => {},
        }
    }

    /// The running task releases `mutex`, which it holds, and waits on this
    /// condition variable, blocked. The mutex is not taken again for the
    /// task when it is woken.
    pub fn wait(&mut self, mutex: &mut Mutex, sched: &mut Scheduler)
        requires
            old(sched)@.wf(),
            old(mutex)@.held_by_current(old(sched)@),
            old(mutex)@.can_wake(old(sched)@),
        ensures
            final(mutex)@ == old(mutex)@.unlock(),
            final(self)@ == old(self)@.wait(old(sched)@.current.unwrap()),
            final(sched)@ == old(self)@.sched_after_wait(old(mutex)@, old(sched)@),
            final(sched)@.wf(),
    {
        mutex.unlock(sched);
        let cur = sched.processor.current().unwrap();
        self.wait_queue.push_back(cur);
        sched.block_current_and_run_next(WaitChannel::Condvar(self.id));
    }
}

/// Tasks are woken in the order in which they began to wait: after task
/// `first` and then task `second` have begun to wait on a condition
/// variable on which no task waited, the next signal wakes `first` and the
/// one after it wakes `second`, each going to the end of the ready queue.
pub proof fn lemma_condvar_wakes_in_order(
    condvar: CondvarView,
    first: usize,
    second: usize,
    sched: SchedulerView,
    later: SchedulerView,
)
    requires
        condvar.wait_queue.len() == 0,
    ensures
        ({
            let waited = condvar.wait(first).wait(second);
            &&& waited.wait_queue == seq![first, second]
            &&& waited.woken_by_signal() == Some(first)
            &&& waited.sched_after_signal(sched).ready_queue == sched.ready_queue.push(first)
            &&& waited.signal().woken_by_signal() == Some(second)
            &&& waited.signal().sched_after_signal(later).ready_queue == later.ready_queue.push(
                second,
            )
            &&& waited.signal().signal().wait_queue.len() == 0
        }),
{
}

} // verus!
