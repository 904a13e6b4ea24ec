//! Processes: a list of tasks, tables of synchronization objects, and the
//! switch for deadlock avoidance.

use crate::sync::condvar::{Condvar, CondvarView};
use crate::sync::mutex::{Mutex, MutexView};
use crate::sync::semaphore::{Semaphore, SemaphoreView};
use crate::sync::waiters::waiters_ok;
use crate::task::processor::SchedulerView;
use crate::task::WaitChannel;
use vstd::prelude::*;

verus! {

/// The record of one process.
pub struct ProcessControlBlock {
    /// Id of the process.
    pub pid: usize,
    /// Handles of the process's tasks, by task id. A slot may be vacated;
    /// it is never given to another task.
    pub tasks: Vec<Option<usize>>,
    /// The process's mutexes, by id. A vacated slot is used again first.
    pub mutex_list: Vec<Option<Mutex>>,
    /// The process's semaphores, by id. A vacated slot is used again first.
    pub semaphore_list: Vec<Option<Semaphore>>,
    /// The process's condition variables, by id. A vacated slot is used
    /// again first.
    pub condvar_list: Vec<Option<Condvar>>,
    /// Whether requests that could end in a deadlock are refused.
    pub deadlock_detection: bool,
}

/// Mathematical form of a [`ProcessControlBlock`].
pub ghost struct ProcessView {
    pub pid: usize,
    pub tasks: Seq<Option<usize>>,
    pub mutex_list: Seq<Option<MutexView>>,
    pub semaphore_list: Seq<Option<SemaphoreView>>,
    pub condvar_list: Seq<Option<CondvarView>>,
    pub deadlock_detection: bool,
}

/// The views of the objects in a table.
pub open spec fn table_view<T: View>(table: Seq<Option<T>>) -> Seq<Option<T::V>> {
    Seq::new(
        table.len(),
        |i: int|
            match table[i] {
                Some(object) => Some(object@),
                None => None,
            },
    )
}

impl View for ProcessControlBlock {
    type V = ProcessView;

    open spec fn view(&self) -> ProcessView {
        ProcessView {
            pid: self.pid,
            tasks: self.tasks@,
            mutex_list: table_view(self.mutex_list@),
            semaphore_list: table_view(self.semaphore_list@),
            condvar_list: table_view(self.condvar_list@),
            deadlock_detection: self.deadlock_detection,
        }
    }
}

/// `id` is the slot that a new object gets in `table`: the first vacated
/// slot, or the slot after the last where none is vacated.
pub open spec fn is_free_slot<T>(table: Seq<Option<T>>, id: int) -> bool {
    &&& 0 <= id <= table.len()
    &&& id < table.len() ==> table[id] is None
    &&& forall|j: int| 0 <= j < id ==> (#[trigger] table[j]) is Some
}

/// The slot that a new object gets in `table`.
pub open spec fn free_slot<T>(table: Seq<Option<T>>) -> int {
    choose|id: int| is_free_slot(table, id)
}

/// `table` with `object` in slot `id`, which is at most one past the end.
pub open spec fn with_slot<T>(table: Seq<Option<T>>, id: int, object: T) -> Seq<Option<T>> {
    if id < table.len() {
        table.update(id, Some(object))
    } else {
        table.push(Some(object))
    }
}

/// The first vacated slot at or before `upto`, which is vacated.
proof fn lemma_scan_free<T>(table: Seq<Option<T>>, upto: int) -> (id: int)
    requires
        0 <= upto < table.len(),
        table[upto] is None,
    ensures
        is_free_slot(table, id),
    decreases upto,
{
    if exists|j: int| 0 <= j < upto && (#[trigger] table[j]) is None {
        let j = choose|j: int| 0 <= j < upto && (#[trigger] table[j]) is None;
        lemma_scan_free(table, j)
    } else {
        upto
    }
}

/// Every table has a slot for a new object.
pub proof fn lemma_free_slot_exists<T>(table: Seq<Option<T>>)
    ensures
        is_free_slot(table, free_slot(table)),
{
    if exists|j: int| 0 <= j < table.len() && (#[trigger] table[j]) is None {
        let j = choose|j: int| 0 <= j < table.len() && (#[trigger] table[j]) is None;
        lemma_scan_free(table, j);
    } else {
        assert(is_free_slot(table, table.len() as int));
    }
}

/// The slot that a new object gets is the same for a table and its view.
pub proof fn lemma_free_slot_view<T: View>(table: Seq<Option<T>>, id: int)
    requires
        is_free_slot(table, id),
    ensures
        is_free_slot(table_view(table), id),
        free_slot(table_view(table)) == id,
{
    let views = table_view(table);
    assert forall|j: int| 0 <= j < id implies (#[trigger] views[j]) is Some by {}
}

impl ProcessView {
    /// A new process with id `pid`: no task, no synchronization object,
    /// deadlock avoidance off.
    pub open spec fn fresh(pid: usize) -> ProcessView {
        ProcessView {
            pid,
            tasks: Seq::empty(),
            mutex_list: Seq::empty(),
            semaphore_list: Seq::empty(),
            condvar_list: Seq::empty(),
            deadlock_detection: false,
        }
    }

    /// The process has a mutex with id `id`.
    pub open spec fn has_mutex(self, id: usize) -> bool {
        id < self.mutex_list.len() && self.mutex_list[id as int] is Some
    }

    /// The process has a semaphore with id `id`.
    pub open spec fn has_semaphore(self, id: usize) -> bool {
        id < self.semaphore_list.len() && self.semaphore_list[id as int] is Some
    }

    /// The process has a condition variable with id `id`.
    pub open spec fn has_condvar(self, id: usize) -> bool {
        id < self.condvar_list.len() && self.condvar_list[id as int] is Some
    }

    /// The mutex with id `id`.
    pub open spec fn mutex(self, id: usize) -> MutexView {
        self.mutex_list[id as int].unwrap()
    }

    /// The semaphore with id `id`.
    pub open spec fn semaphore(self, id: usize) -> SemaphoreView {
        self.semaphore_list[id as int].unwrap()
    }

    /// The condition variable with id `id`.
    pub open spec fn condvar(self, id: usize) -> CondvarView {
        self.condvar_list[id as int].unwrap()
    }

    /// The same process with `mutex` as the mutex with id `id`.
    pub open spec fn with_mutex(self, id: usize, mutex: MutexView) -> ProcessView {
        ProcessView { mutex_list: self.mutex_list.update(id as int, Some(mutex)), ..self }
    }

    /// The same process with `semaphore` as the semaphore with id `id`.
    pub open spec fn with_semaphore(self, id: usize, semaphore: SemaphoreView) -> ProcessView {
        ProcessView {
            semaphore_list: self.semaphore_list.update(id as int, Some(semaphore)),
            ..self
        }
    }

    /// The same process with `condvar` as the condition variable with id `id`.
    pub open spec fn with_condvar(self, id: usize, condvar: CondvarView) -> ProcessView {
        ProcessView { condvar_list: self.condvar_list.update(id as int, Some(condvar)), ..self }
    }

    /// The wait queue of `channel` in this process, if the channel is one of
    /// the process's synchronization objects.
    pub open spec fn queue_of(self, channel: WaitChannel) -> Option<Seq<usize>> {
        match channel {
            WaitChannel::Mutex(id) => if self.has_mutex(id) {
                Some(self.mutex(id).wait_queue)
            } else {
                None
            },
            WaitChannel::Semaphore(id) => if self.has_semaphore(id) {
                Some(self.semaphore(id).wait_queue)
            } else {
                None
            },
            WaitChannel::Condvar(id) => if self.has_condvar(id) {
                Some(self.condvar(id).wait_queue)
            } else {
                None
            },
            WaitChannel::Timer => None,
        }
    }

    /// Every object knows its id; as many tasks wait on a semaphore as its
    /// count is below zero; no task waits on a spinning mutex.
    pub open spec fn objects_ok(self) -> bool {
        &&& self.tasks.len() <= usize::MAX
        &&& self.mutex_list.len() <= usize::MAX
        &&& self.semaphore_list.len() <= usize::MAX
        &&& self.condvar_list.len() <= usize::MAX
        &&& forall|id: usize|
            #![trigger self.mutex_list[id as int]]
            self.has_mutex(id) ==> self.mutex(id).id == id && (!self.mutex(id).blocking
                ==> self.mutex(id).wait_queue.len() == 0)
        &&& forall|id: usize|
            #![trigger self.semaphore_list[id as int]]
            self.has_semaphore(id) ==> self.semaphore(id).sem_id == id && self.semaphore(id).wf()
        &&& forall|id: usize|
            #![trigger self.condvar_list[id as int]]
            self.has_condvar(id) ==> self.condvar(id).id == id
    }

    /// Every task slot that is in use holds the handle of a task that
    /// names this process and the slot.
    pub open spec fn slots_ok(self, sched: SchedulerView) -> bool {
        forall|tid: int|
            0 <= tid < self.tasks.len() ==> ((#[trigger] self.tasks[tid]) matches Some(h)
                ==> sched.has_task(h) && sched.tasks[h as int].pid == self.pid
                && sched.tasks[h as int].tid == tid)
    }

    /// Every wait queue of the process is in order.
    pub open spec fn queues_ok(self, sched: SchedulerView) -> bool {
        forall|channel: WaitChannel|
            (#[trigger] self.queue_of(channel)) matches Some(queue) ==> waiters_ok(
                sched,
                queue,
                self.pid,
                channel,
            )
    }

    /// The process's records agree with each other and with the scheduler.
    pub open spec fn wf(self, sched: SchedulerView) -> bool {
        &&& self.objects_ok()
        &&& self.slots_ok(sched)
        &&& self.queues_ok(sched)
    }
}

impl ProcessControlBlock {
    /// A process with id `pid`: no task, no synchronization object, deadlock
    /// avoidance off.
    pub fn new(pid: usize) -> (p: ProcessControlBlock)
        ensures
            p@ == ProcessView::fresh(pid),
    {
        let p = ProcessControlBlock {
            pid,
            tasks: Vec::new(),
            mutex_list: Vec::new(),
            semaphore_list: Vec::new(),
            condvar_list: Vec::new(),
            deadlock_detection: false,
        };
        assert(p@.mutex_list =~= Seq::empty());
        assert(p@.semaphore_list =~= Seq::empty());
        assert(p@.condvar_list =~= Seq::empty());
        p
    }

    /// The id of the process.
    pub fn getpid(&self) -> (pid: usize)
        ensures
            pid == self@.pid,
    {
        self.pid
    }
}

/// The slot that a new object gets in `table`.
pub fn find_free_slot<T>(table: &Vec<Option<T>>) -> (id: usize)
    ensures
        is_free_slot(table@, id as int),
        id as int == free_slot(table@),
{
    let mut id: usize = 0;
    while id < table.len()
        invariant
            id <= table.len(),
            forall|j: int| 0 <= j < id ==> (#[trigger] table[j]) is Some,
        decreases table.len() - id,
    {
        if table[id].is_none() {
            return id;
        }
        id += 1;
    }
    id
}

} // verus!
