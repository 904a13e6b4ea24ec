//! Mutual-exclusion locks, in a spinning and a blocking variant.

use crate::sync::waiters::rest;
use crate::task::processor::{Scheduler, SchedulerView};
use crate::task::{TaskStatus, WaitChannel};
use std::collections::VecDeque;
use vstd::prelude::*;

verus! {

/// A lock whose contenders give up the processor and try again later.
pub struct MutexSpin {
    /// Id of the mutex in its process.
    pub id: usize,
    /// Handle of the task that holds the lock.
    pub holder: Option<usize>,
}

/// A lock whose contenders wait in a queue until the lock is handed to them.
pub struct MutexBlocking {
    /// Id of the mutex in its process.
    pub id: usize,
    /// Handle of the task that holds the lock.
    pub holder: Option<usize>,
    /// Handles of the waiting tasks, longest waiting first.
    pub wait_queue: VecDeque<usize>,
}

/// A mutex of either variant.
pub enum Mutex {
    Spin(MutexSpin),
    Blocking(MutexBlocking),
}

/// Mathematical form of a [`Mutex`]. A spinning mutex has an empty queue.
pub ghost struct MutexView {
    pub blocking: bool,
    pub id: usize,
    pub holder: Option<usize>,
    pub wait_queue: Seq<usize>,
}

impl View for MutexSpin {
    type V = MutexView;

    open spec fn view(&self) -> MutexView {
        MutexView { blocking: false, id: self.id, holder: self.holder, wait_queue: Seq::empty() }
    }
}

impl View for MutexBlocking {
    type V = MutexView;

    open spec fn view(&self) -> MutexView {
        MutexView {
            blocking: true,
            id: self.id,
            holder: self.holder,
            wait_queue: self.wait_queue@,
        }
    }
}

impl View for Mutex {
    type V = MutexView;

    open spec fn view(&self) -> MutexView {
        match self {
            Mutex::Spin(m) => m@,
            Mutex::Blocking(m) => m@,
        }
    }
}

impl MutexView {
    /// A new mutex, held by no task.
    pub open spec fn fresh(blocking: bool, id: usize) -> MutexView {
        MutexView { blocking, id, holder: None, wait_queue: Seq::empty() }
    }

    /// Some task holds the mutex.
    pub open spec fn is_locking(self) -> bool {
        self.holder is Some
    }

    /// The mutex after task `caller` asked for it: a free mutex is held by
    /// the caller; a held blocking mutex has the caller last in its queue; a
    /// held spinning mutex is as before.
    pub open spec fn lock(self, caller: usize) -> MutexView {
        if self.holder is Some {
            if self.blocking {
                MutexView { wait_queue: self.wait_queue.push(caller), ..self }
            } else {
                self
            }
        } else {
            MutexView { holder: Some(caller), ..self }
        }
    }

    /// The scheduler after the running task asked for the mutex: where the
    /// mutex is held, the task is blocked on a blocking mutex, and gives up
    /// the processor, staying ready, on a spinning one.
    pub open spec fn sched_after_lock(self, sched: SchedulerView) -> SchedulerView {
        if self.holder is Some {
            if self.blocking {
                sched.block_current(WaitChannel::Mutex(self.id))
            } else {
                sched.suspend_current()
            }
        } else {
            sched
        }
    }

    /// The task to which an unlock hands the mutex: the longest waiting
    /// one, if any waits.
    pub open spec fn woken_by_unlock(self) -> Option<usize> {
        if self.blocking && self.wait_queue.len() > 0 {
            Some(self.wait_queue[0])
        } else {
            None
        }
    }

    /// The mutex after its holder released it: it is held by the longest
    /// waiting task, which has left the queue, or by none.
    pub open spec fn unlock(self) -> MutexView {
        match self.woken_by_unlock() {
            Some(h) => MutexView { holder: Some(h), wait_queue: rest(self.wait_queue), ..self },
            None => MutexView { holder: None, ..self },
        }
    }

    /// The scheduler after the mutex was released: the task that now holds
    /// it, if there is one, is ready.
    pub open spec fn sched_after_unlock(self, sched: SchedulerView) -> SchedulerView {
        match self.woken_by_unlock() {
            Some(h) => sched.wakeup(h),
            None => sched,
        }
    }

    /// What an unlock asks of the task that it wakes: it is a blocked task.
    pub open spec fn can_wake(self, sched: SchedulerView) -> bool {
        self.woken_by_unlock() matches Some(h) ==> sched.has_task(h) && sched.tasks[h as int].task_status
            == TaskStatus::Blocked
    }

    /// The running task holds the mutex.
    pub open spec fn held_by_current(self, sched: SchedulerView) -> bool {
        sched.current is Some && self.holder == sched.current
    }
}

impl MutexSpin {
    /// A spinning mutex with id `id`, held by no task.
    pub fn new(id: usize) -> (m: MutexSpin)
        ensures
            m@ == MutexView::fresh(false, id),
    {
        MutexSpin { id, holder: None }
    }

    /// Whether some task holds the mutex.
    pub fn is_locking(&self) -> (r: bool)
        ensures
            r == self@.is_locking(),
    {
        self.holder.is_some()
    }

    /// One attempt of the running task to take the mutex. A free mutex is
    /// taken. Where the mutex is held, the task gives up the processor and
    /// stays ready; it has to make the attempt again when it runs next.
    pub fn lock(&mut self, sched: &mut Scheduler)
        requires
            old(sched)@.wf(),
            old(sched)@.current is Some,
        ensures
            final(self)@ == old(self)@.lock(old(sched)@.current.unwrap()),
            final(sched)@ == old(self)@.sched_after_lock(old(sched)@),
            final(sched)@.wf(),
    {
        if self.holder.is_some() {
            sched.suspend_current_and_run_next();
        } else {
            self.holder = sched.processor.current();
        }
    }

    /// Releases the mutex, which the running task holds.
    pub fn unlock(&mut self, sched: &mut Scheduler)
        requires
            old(self)@.held_by_current(old(sched)@),
        ensures
            final(self)@ == old(self)@.unlock(),
            final(sched)@ == old(self)@.sched_after_unlock(old(sched)@),
    {
        self.holder = None;
    }
}

impl MutexBlocking {
    /// A blocking mutex with id `id`, held by no task.
    pub fn new(id: usize) -> (m: MutexBlocking)
        ensures
            m@ == MutexView::fresh(true, id),
    {
        MutexBlocking { id, holder: None, wait_queue: VecDeque::new() }
    }

    /// Whether some task holds the mutex.
    pub fn is_locking(&self) -> (r: bool)
        ensures
            r == self@.is_locking(),
    {
        self.holder.is_some()
    }

    /// The running task asks for the mutex. A free mutex is taken. Where
    /// the mutex is held, the task joins the queue and is blocked; it holds
    /// the mutex when it is woken.
    pub fn lock(&mut self, sched: &mut Scheduler)
        requires
            old(sched)@.wf(),
            old(sched)@.current is Some,
        ensures
            final(self)@ == old(self)@.lock(old(sched)@.current.unwrap()),
            final(sched)@ == old(self)@.sched_after_lock(old(sched)@),
            final(sched)@.wf(),
    {
        let cur = sched.processor.current().unwrap();
        if self.holder.is_some() {
            self.wait_queue.push_back(cur);
            sched.block_current_and_run_next(WaitChannel::Mutex(self.id));
        } else {
            self.holder = Some(cur);
        }
    }

    /// Releases the mutex, which the running task holds. If tasks wait, the
    /// mutex is handed to the longest waiting one, and that task alone is
    /// woken.
    pub fn unlock(&mut self, sched: &mut Scheduler)
        requires
            old(sched)@.wf(),
            old(self)@.held_by_current(old(sched)@),
            old(self)@.can_wake(old(sched)@),
        ensures
            final(self)@ == old(self)@.unlock(),
            final(sched)@ == old(self)@.sched_after_unlock(old(sched)@),
            final(sched)@.wf(),
    {
        match self.wait_queue.pop_front() {
            Some(waking) => {
                self.holder = Some(waking);
                sched.wakeup_task(waking);
            },
            None => {
                self.holder = None;
            },
        }
    }
}

impl Mutex {
    /// Whether some task holds the mutex.
    pub fn is_locking(&self) -> (r: bool)
        ensures
            r == self@.is_locking(),
    {
        match self {
            Mutex::Spin(m) => m.is_locking(),
            Mutex::Blocking(m) => m.is_locking(),
        }
    }

    /// The running task asks for the mutex; see [`MutexSpin::lock`] and
    /// [`MutexBlocking::lock`].
    ///
    /// Afterwards the task is still running if it took the mutex, blocked
    /// if it waits in the queue, and ready if it has to try again.
    pub fn lock(&mut self, sched: &mut Scheduler)
        requires
            old(sched)@.wf(),
            old(sched)@.current is Some,
        ensures
            final(self)@ == old(self)@.lock(old(sched)@.current.unwrap()),
            final(sched)@ == old(self)@.sched_after_lock(old(sched)@),
            final(sched)@.wf(),
    {
        match self {
            Mutex::Spin(m) => m.lock(sched),
            Mutex::Blocking(m) => m.lock(sched),
        }
    }

    /// Releases the mutex, which the running task holds; see
    /// [`MutexBlocking::unlock`].
    pub fn unlock(&mut self, sched: &mut Scheduler)
        requires
            old(sched)@.wf(),
            old(self)@.held_by_current(old(sched)@),
            old(self)@.can_wake(old(sched)@),
        ensures
            final(self)@ == old(self)@.unlock(),
            final(sched)@ == old(self)@.sched_after_unlock(old(sched)@),
            final(sched)@.wf(),
    {
        match self {
            Mutex::Spin(m) => m.unlock(sched),
            Mutex::Blocking(m) => m.unlock(sched),
        }
    }
}

/// At most one task holds a mutex, and only a release passes it on.
///
/// A request for a mutex that is held leaves it with its holder: the caller
/// does not get it, and on a blocking mutex joins the queue and is blocked.
/// A request for a free mutex makes the caller its holder. A release hands
/// a blocking mutex to the longest waiting task, which alone is woken, and
/// frees the mutex where no task waits.
pub proof fn lemma_mutual_exclusion(mutex: MutexView, caller: usize, sched: SchedulerView)
    requires
        sched.wf(),
        sched.current == Some(caller),
    ensures
        mutex.is_locking() ==> mutex.lock(caller).holder == mutex.holder,
        mutex.is_locking() && mutex.blocking ==> mutex.lock(caller).wait_queue
            == mutex.wait_queue.push(caller) && mutex.sched_after_lock(sched).current is None
            && mutex.sched_after_lock(sched).tasks[caller as int].task_status
            == TaskStatus::Blocked,
        !mutex.is_locking() ==> mutex.lock(caller).holder == Some(caller)
            && mutex.sched_after_lock(sched) == sched,
        mutex.unlock().holder == mutex.woken_by_unlock(),
        mutex.woken_by_unlock() matches Some(h) ==> mutex.sched_after_unlock(sched).ready_queue
            == sched.ready_queue.push(h),
        mutex.woken_by_unlock() is None ==> mutex.sched_after_unlock(sched) == sched,
{
}

/// Tasks get a blocking mutex in the order in which they began to wait for
/// it: after task `first` and then task `second` have blocked on a held
/// mutex on which no task waited, the next release hands it to `first` and
/// wakes it, and the release after that hands it to `second`.
pub proof fn lemma_mutex_wakes_in_order(
    mutex: MutexView,
    first: usize,
    second: usize,
    sched: SchedulerView,
    later: SchedulerView,
)
    requires
        mutex.blocking,
        mutex.is_locking(),
        mutex.wait_queue.len() == 0,
    ensures
        ({
            let waited = mutex.lock(first).lock(second);
            &&& waited.holder == mutex.holder
            &&& waited.wait_queue == seq![first, second]
            &&& waited.unlock().holder == Some(first)
            &&& waited.sched_after_unlock(sched).ready_queue == sched.ready_queue.push(first)
            &&& waited.unlock().unlock().holder == Some(second)
            &&& waited.unlock().sched_after_unlock(later).ready_queue == later.ready_queue.push(
                second,
            )
            &&& waited.unlock().unlock().wait_queue.len() == 0
        }),
{
}

} // verus!
