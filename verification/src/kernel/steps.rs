//! What each call does to the state of the kernel.

use crate::kernel::{KernelView, TimerCondVar};
use crate::sync::condvar::CondvarView;
use crate::sync::deadlock::{is_safe, LedgerRow};
use crate::sync::ledger::count_of;
use crate::sync::mutex::MutexView;
use crate::sync::semaphore::SemaphoreView;
use crate::task::process::{free_slot, with_slot, ProcessView};
use crate::task::{TaskStatus, TaskView, WaitChannel};
use vstd::prelude::*;

verus! {

impl KernelView {
    /// A request for mutex `id` by the running task is refused: deadlock
    /// avoidance is on and the mutex is held.
    pub open spec fn mutex_lock_refused(self, id: usize) -> bool {
        self.current_process().deadlock_detection && self.current_process().mutex(id).is_locking()
    }

    /// The kernel after the running task asked for mutex `id` of its process.
    pub open spec fn mutex_lock(self, id: usize) -> KernelView {
        let process = self.current_process();
        let mutex = process.mutex(id);
        self.with_current_process(
            process.with_mutex(id, mutex.lock(self.sched.current.unwrap())),
        ).with_sched(mutex.sched_after_lock(self.sched))
    }
}

impl KernelView {
    /// The kernel after a mutex was created in the process of the running
    /// task: it has the first vacated id, or the next id where none is
    /// vacated.
    pub open spec fn mutex_create(self, blocking: bool) -> KernelView {
        let process = self.current_process();
        let id = free_slot(process.mutex_list);
        self.with_current_process(
            ProcessView {
                mutex_list: with_slot(
                    process.mutex_list,
                    id,
                    MutexView::fresh(blocking, id as usize),
                ),
                ..process
            },
        )
    }

    /// The kernel after the running task released mutex `id` of its process.
    pub open spec fn mutex_unlock(self, id: usize) -> KernelView {
        let process = self.current_process();
        let mutex = process.mutex(id);
        self.with_current_process(process.with_mutex(id, mutex.unlock())).with_sched(
            mutex.sched_after_unlock(self.sched),
        )
    }
}

impl KernelView {
    /// The kernel after a semaphore with `res_count` free units was created
    /// in the process of the running task: it has the first vacated id, or
    /// the next id where none is vacated.
    pub open spec fn semaphore_create(self, res_count: int) -> KernelView {
        let process = self.current_process();
        let id = free_slot(process.semaphore_list);
        self.with_current_process(
            ProcessView {
                semaphore_list: with_slot(
                    process.semaphore_list,
                    id,
                    SemaphoreView::fresh(id as usize, res_count),
                ),
                ..process
            },
        )
    }

    /// The kernel after an `up` on semaphore `id` of the running task's
    /// process.
    pub open spec fn semaphore_up(self, id: usize) -> KernelView {
        let process = self.current_process();
        let semaphore = process.semaphore(id);
        self.with_current_process(process.with_semaphore(id, semaphore.up())).with_sched(
            semaphore.sched_after_up(self.sched),
        )
    }

    /// The kernel after a `down` by the running task on semaphore `id` of
    /// its process.
    pub open spec fn semaphore_down(self, id: usize) -> KernelView {
        let process = self.current_process();
        let semaphore = process.semaphore(id);
        self.with_current_process(
            process.with_semaphore(id, semaphore.down(self.sched.current.unwrap())),
        ).with_sched(semaphore.sched_after_down(self.sched))
    }

    /// The counts that an `up` on semaphore `id` raises can be raised: that
    /// of the semaphore and, in the allocation ledger, that of the task
    /// which is woken.
    pub open spec fn up_in_range(self, id: usize) -> bool {
        let semaphore = self.current_process().semaphore(id);
        &&& semaphore.count < isize::MAX
        &&& semaphore.woken_by_up() matches Some(h) ==> count_of(
            self.sched.tasks[h as int].allocation,
            id,
        ) < isize::MAX
    }

    /// The counts that a `down` on semaphore `id` changes can be changed:
    /// that of the semaphore and, where the running task gets the unit at
    /// once, that in its allocation ledger.
    pub open spec fn down_in_range(self, id: usize) -> bool {
        let semaphore = self.current_process().semaphore(id);
        &&& semaphore.count > isize::MIN
        &&& !semaphore.down_blocks() ==> count_of(self.sched.current_task().allocation, id)
            < isize::MAX
    }
}

/// Units of each semaphore of a table that are free: for each semaphore, in
/// the order of the ids, its id and its count, or zero where the count is
/// below zero.
pub open spec fn work_of(semaphores: Seq<Option<SemaphoreView>>) -> Seq<(usize, isize)>
    decreases semaphores.len(),
{
    if semaphores.len() == 0 {
        Seq::empty()
    } else {
        let front = work_of(semaphores.drop_last());
        match semaphores.last() {
            Some(semaphore) => front.push(
                (
                    semaphore.sem_id,
                    if semaphore.count < 0 {
                        0isize
                    } else {
                        semaphore.count as isize
                    },
                ),
            ),
            None => front,
        }
    }
}

/// The task with handle `h` counts for the safety check: it has not exited.
pub open spec fn is_live(tasks: Seq<TaskView>, h: usize) -> bool {
    tasks[h as int].task_status != TaskStatus::Exited
}

/// The ledgers of task `h` as the safety check takes them when task `cur`
/// asks for one unit of semaphore `sem_id`: the request is added to the
/// need of the task that makes it.
pub open spec fn row_for(tasks: Seq<TaskView>, h: usize, cur: usize, sem_id: usize) -> LedgerRow {
    LedgerRow {
        allocation: tasks[h as int].allocation,
        need: if h == cur {
            tasks[h as int].need.push((sem_id, 1isize))
        } else {
            tasks[h as int].need
        },
    }
}

/// The ledgers of the live tasks in the task slots `slots`, in the order of
/// the slots, as the safety check takes them when task `cur` asks for one
/// unit of semaphore `sem_id`.
pub open spec fn rows_for(
    slots: Seq<Option<usize>>,
    tasks: Seq<TaskView>,
    cur: usize,
    sem_id: usize,
) -> Seq<LedgerRow>
    decreases slots.len(),
{
    if slots.len() == 0 {
        Seq::empty()
    } else {
        let front = rows_for(slots.drop_last(), tasks, cur, sem_id);
        match slots.last() {
            Some(h) => if is_live(tasks, h) {
                front.push(row_for(tasks, h, cur, sem_id))
            } else {
                front
            },
            None => front,
        }
    }
}

impl KernelView {
    /// A `down` by the running task on semaphore `id` of its process is
    /// refused: deadlock avoidance is on, and with the request entered the
    /// tasks of the process could not all finish, whatever their order.
    pub open spec fn down_refused(self, id: usize) -> bool {
        self.current_process().deadlock_detection && !is_safe(
            work_of(self.current_process().semaphore_list),
            rows_for(
                self.current_process().tasks,
                self.sched.tasks,
                self.sched.current.unwrap(),
                id,
            ),
        )
    }
}

impl KernelView {
    /// The kernel after a condition variable was created in the process of
    /// the running task: it has the first vacated id, or the next id where
    /// none is vacated.
    pub open spec fn condvar_create(self) -> KernelView {
        let process = self.current_process();
        let id = free_slot(process.condvar_list);
        self.with_current_process(
            ProcessView {
                condvar_list: with_slot(process.condvar_list, id, CondvarView::fresh(id as usize)),
                ..process
            },
        )
    }

    /// The kernel after a signal on condition variable `id` of the running
    /// task's process.
    pub open spec fn condvar_signal(self, id: usize) -> KernelView {
        let process = self.current_process();
        let condvar = process.condvar(id);
        self.with_current_process(process.with_condvar(id, condvar.signal())).with_sched(
            condvar.sched_after_signal(self.sched),
        )
    }

    /// The kernel after the running task, having released mutex `mutex_id`,
    /// began to wait on condition variable `condvar_id`.
    pub open spec fn condvar_block(self, condvar_id: usize) -> KernelView {
        let process = self.current_process();
        let condvar = process.condvar(condvar_id);
        self.with_current_process(
            process.with_condvar(condvar_id, condvar.wait(self.sched.current.unwrap())),
        ).with_sched(self.sched.block_current(WaitChannel::Condvar(condvar_id)))
    }

    /// The kernel after the running task released mutex `mutex_id` and
    /// began to wait on condition variable `condvar_id`, both of its process.
    pub open spec fn condvar_wait(self, condvar_id: usize, mutex_id: usize) -> KernelView {
        self.mutex_unlock(mutex_id).condvar_block(condvar_id)
    }

    /// The kernel after deadlock avoidance was switched on or off for the
    /// process of the running task.
    pub open spec fn set_deadlock_detection(self, on: bool) -> KernelView {
        self.with_current_process(
            ProcessView { deadlock_detection: on, ..self.current_process() },
        )
    }

    /// The kernel after the running task went to sleep until `expire_ms`.
    pub open spec fn sleep(self, expire_ms: usize) -> KernelView {
        KernelView {
            timers: self.timers.push(
                TimerCondVar { expire_ms, task: self.sched.current.unwrap() },
            ),
            sched: self.sched.block_current(WaitChannel::Timer),
            ..self
        }
    }
}

impl KernelView {
    /// The kernel after the wake-up request at index `i` was served: the
    /// request is gone and its task is ready.
    pub open spec fn serve_timer(self, i: int) -> KernelView {
        KernelView {
            timers: self.timers.remove(i),
            sched: self.sched.wakeup(self.timers[i].task),
            ..self
        }
    }

    /// The kernel after every wake-up request from index `i` on that is due
    /// at time `now_ms` was served, in the order of the requests.
    pub open spec fn expire_from(self, now_ms: usize, i: int) -> KernelView
        decreases self.timers.len() - i,
    {
        if i < 0 || i >= self.timers.len() {
            self
        } else if self.timers[i].expire_ms <= now_ms {
            self.serve_timer(i).expire_from(now_ms, i)
        } else {
            self.expire_from(now_ms, i + 1)
        }
    }

    /// The kernel after every wake-up request that is due at time `now_ms`
    /// was served, oldest request first.
    pub open spec fn check_timer(self, now_ms: usize) -> KernelView {
        self.expire_from(now_ms, 0)
    }

    /// The kernel after a process was created: it has the next free id and
    /// one task, with task id 0, which is last in the ready queue.
    pub open spec fn add_process(self) -> KernelView {
        let pid = self.processes.len() as usize;
        KernelView {
            sched: self.sched.spawn(pid, 0),
            processes: self.processes.push(
                ProcessView {
                    tasks: seq![Some(self.sched.tasks.len() as usize)],
                    ..ProcessView::fresh(pid)
                },
            ),
            ..self
        }
    }

    /// The kernel after a task was created in process `pid`: it has the next
    /// free task id of the process and is last in the ready queue.
    pub open spec fn add_thread(self, pid: usize) -> KernelView {
        let process = self.processes[pid as int];
        KernelView {
            sched: self.sched.spawn(pid, process.tasks.len() as usize),
            processes: self.processes.update(
                pid as int,
                ProcessView {
                    tasks: process.tasks.push(Some(self.sched.tasks.len() as usize)),
                    ..process
                },
            ),
            ..self
        }
    }
}

} // verus!
