//! System calls for sleeping and for synchronization objects.
//!
//! Each call is made by the running task and acts on the tables of that
//! task's process. A call that makes the task wait leaves the processor
//! without a task; the calling code then switches to the idle loop.

use crate::kernel::consistency::{
    lemma_condvar_create_wf, lemma_condvar_signal_wf, lemma_condvar_wait_wf,
    lemma_detection_input_ok, lemma_mutex_create_wf, lemma_mutex_lock_wf, lemma_mutex_unlock_wf,
    lemma_semaphore_create_wf, lemma_semaphore_down_wf, lemma_semaphore_up_can_wake,
    lemma_semaphore_up_wf, lemma_set_deadlock_detection_wf, lemma_sleep_wf,
};
use crate::kernel::steps::{rows_for, work_of};
use crate::kernel::{Kernel, TimerCondVar};
use crate::sync::condvar::{Condvar, CondvarView};
use crate::sync::deadlock::{is_safe_state, rows_of, TaskLedger};
use crate::sync::semaphore::{Semaphore, SemaphoreView};
use crate::task::process::table_view;
use crate::task::{views_of, TaskControlBlock, TaskStatus, WaitChannel};
use crate::sync::mutex::{Mutex, MutexBlocking, MutexSpin, MutexView};
use crate::task::process::{
    find_free_slot, free_slot, is_free_slot, lemma_free_slot_view, with_slot,
};
use vstd::prelude::*;

verus! {

/// The running task sleeps for `ms` milliseconds from the time `now_ms`: a
/// request to wake it once `now_ms + ms` has come joins the pending
/// requests, and the task is blocked. Returns 0.
pub fn sys_sleep(kernel: &mut Kernel, now_ms: usize, ms: usize) -> (r: isize)
    requires
        old(kernel)@.in_call(),
        now_ms + ms <= usize::MAX,
    ensures
        r == 0,
        final(kernel)@ == old(kernel)@.sleep((now_ms + ms) as usize),
        final(kernel)@.wf(),
{
    let expire_ms = now_ms + ms;
    let (cur, pid) = kernel.current_ids();
    kernel.timers.push(TimerCondVar { expire_ms, task: cur });
    kernel.sched.block_current_and_run_next(WaitChannel::Timer);
    proof {
        lemma_sleep_wf(old(kernel)@, expire_ms);
    }
    0
}

/// Result of a request that deadlock avoidance refused.
pub const DEADLOCK: isize = -0xDEAD;

/// Creates a mutex in the process of the running task: a blocking one if
/// `blocking` is set, else a spinning one. Returns the id of the mutex, which
/// is the first vacated id of the process's mutex table, or the next id
/// where none is vacated.
pub fn sys_mutex_create(kernel: &mut Kernel, blocking: bool) -> (r: isize)
    requires
        old(kernel)@.in_call(),
        old(kernel)@.current_process().mutex_list.len() < isize::MAX,
    ensures
        is_free_slot(old(kernel)@.current_process().mutex_list, r as int),
        r == free_slot(old(kernel)@.current_process().mutex_list),
        final(kernel)@ == old(kernel)@.mutex_create(blocking),
        final(kernel)@.wf(),
{
    let (cur, pid) = kernel.current_ids();
    let id = find_free_slot(&kernel.processes[pid].mutex_list);
    let mutex = if !blocking {
        Mutex::Spin(MutexSpin::new(id))
    } else {
        Mutex::Blocking(MutexBlocking::new(id))
    };
    if id < kernel.processes[pid].mutex_list.len() {
        kernel.processes[pid].mutex_list[id] = Some(mutex);
    } else {
        kernel.processes[pid].mutex_list.push(Some(mutex));
    }
    proof {
        let k = old(kernel)@;
        let p = k.current_process();
        lemma_free_slot_view(old(kernel).processes[pid as int].mutex_list@, id as int);
        let target = with_slot(p.mutex_list, id as int, MutexView::fresh(blocking, id));
        assert(kernel.processes[pid as int]@.mutex_list =~= target);
        assert(kernel@.processes =~= k.mutex_create(blocking).processes);
        lemma_mutex_create_wf(k, blocking);
    }
    id as isize
}

/// The running task releases mutex `mutex_id` of its process, which it
/// holds. A blocking mutex on which tasks wait is handed to the longest
/// waiting one, which is woken. Returns 0.
pub fn sys_mutex_unlock(kernel: &mut Kernel, mutex_id: usize) -> (r: isize)
    requires
        old(kernel)@.in_call(),
        old(kernel)@.current_process().has_mutex(mutex_id),
        old(kernel)@.current_process().mutex(mutex_id).held_by_current(old(kernel)@.sched),
    ensures
        r == 0,
        final(kernel)@ == old(kernel)@.mutex_unlock(mutex_id),
        final(kernel)@.wf(),
{
    let (cur, pid) = kernel.current_ids();
    proof {
        lemma_mutex_unlock_wf(kernel@, mutex_id);
    }
    kernel.processes[pid].mutex_list[mutex_id].as_mut().unwrap().unlock(&mut kernel.sched);
    proof {
        let k = old(kernel)@;
        let p = k.current_process();
        let target = p.with_mutex(mutex_id, p.mutex(mutex_id).unlock());
        assert(kernel.processes[pid as int]@.mutex_list =~= target.mutex_list);
        assert(kernel@.processes =~= k.mutex_unlock(mutex_id).processes);
    }
    0
}

/// The running task asks for mutex `mutex_id` of its process.
///
/// With deadlock avoidance on, a request for a mutex that is held is refused
/// with [`DEADLOCK`] and changes nothing. Else the result is 0, and the task
/// is still running if it took the mutex, blocked if it waits in the queue
/// of a blocking mutex, and ready if it has to repeat the call for a
/// spinning mutex.
pub fn sys_mutex_lock(kernel: &mut Kernel, mutex_id: usize) -> (r: isize)
    requires
        old(kernel)@.in_call(),
        old(kernel)@.current_process().has_mutex(mutex_id),
    ensures
        r == if old(kernel)@.mutex_lock_refused(mutex_id) {
            DEADLOCK
        } else {
            0isize
        },
        final(kernel)@ == if old(kernel)@.mutex_lock_refused(mutex_id) {
            old(kernel)@
        } else {
            old(kernel)@.mutex_lock(mutex_id)
        },
        final(kernel)@.wf(),
{
    let (cur, pid) = kernel.current_ids();
    if kernel.processes[pid].deadlock_detection {
        if kernel.processes[pid].mutex_list[mutex_id].as_ref().unwrap().is_locking() {
            return DEADLOCK;
        }
    }
    kernel.processes[pid].mutex_list[mutex_id].as_mut().unwrap().lock(&mut kernel.sched);
    proof {
        let k = old(kernel)@;
        let p = k.current_process();
        let target = p.with_mutex(mutex_id, p.mutex(mutex_id).lock(cur));
        assert(kernel.processes[pid as int]@.mutex_list =~= target.mutex_list);
        assert(kernel@.processes =~= k.mutex_lock(mutex_id).processes);
        lemma_mutex_lock_wf(k, mutex_id);
    }
    0
}

/// Creates a semaphore with `res_count` free units in the process of the
/// running task. Returns the id of the semaphore, which is the first vacated
/// id of the process's semaphore table, or the next id where none is
/// vacated.
pub fn sys_semaphore_create(kernel: &mut Kernel, res_count: usize) -> (r: isize)
    requires
        old(kernel)@.in_call(),
        old(kernel)@.current_process().semaphore_list.len() < isize::MAX,
        res_count <= isize::MAX,
    ensures
        is_free_slot(old(kernel)@.current_process().semaphore_list, r as int),
        r == free_slot(old(kernel)@.current_process().semaphore_list),
        final(kernel)@ == old(kernel)@.semaphore_create(res_count as int),
        final(kernel)@.wf(),
{
    let (cur, pid) = kernel.current_ids();
    let id = find_free_slot(&kernel.processes[pid].semaphore_list);
    if id < kernel.processes[pid].semaphore_list.len() {
        kernel.processes[pid].semaphore_list[id] = Some(Semaphore::new(id, res_count));
    } else {
        kernel.processes[pid].semaphore_list.push(Some(Semaphore::new(id, res_count)));
    }
    proof {
        let k = old(kernel)@;
        let p = k.current_process();
        lemma_free_slot_view(old(kernel).processes[pid as int].semaphore_list@, id as int);
        let target = with_slot(
            p.semaphore_list,
            id as int,
            SemaphoreView::fresh(id, res_count as int),
        );
        assert(kernel.processes[pid as int]@.semaphore_list =~= target);
        assert(kernel@.processes =~= k.semaphore_create(res_count as int).processes);
        lemma_semaphore_create_wf(k, res_count as int);
    }
    id as isize
}

/// Frees one unit of semaphore `sem_id` of the running task's process. If
/// tasks wait for the semaphore, the longest waiting one is granted the unit
/// and woken. Returns 0.
pub fn sys_semaphore_up(kernel: &mut Kernel, sem_id: usize) -> (r: isize)
    requires
        old(kernel)@.in_call(),
        old(kernel)@.current_process().has_semaphore(sem_id),
        old(kernel)@.up_in_range(sem_id),
    ensures
        r == 0,
        final(kernel)@ == old(kernel)@.semaphore_up(sem_id),
        final(kernel)@.wf(),
{
    let (cur, pid) = kernel.current_ids();
    proof {
        lemma_semaphore_up_can_wake(kernel@, sem_id);
        lemma_semaphore_up_wf(kernel@, sem_id);
    }
    kernel.processes[pid].semaphore_list[sem_id].as_mut().unwrap().up(&mut kernel.sched);
    proof {
        let k = old(kernel)@;
        let p = k.current_process();
        let target = p.with_semaphore(sem_id, p.semaphore(sem_id).up());
        assert(kernel.processes[pid as int]@.semaphore_list =~= target.semaphore_list);
        assert(kernel@.processes =~= k.semaphore_up(sem_id).processes);
    }
    0
}

/// The free units of each semaphore of `table`; see [`work_of`].
fn gather_work(table: &Vec<Option<Semaphore>>) -> (work: Vec<(usize, isize)>)
    ensures
        work@ == work_of(table_view(table@)),
{
    let mut work: Vec<(usize, isize)> = Vec::new();
    let mut i: usize = 0;
    while i < table.len()
        invariant
            i <= table.len(),
            work@ == work_of(table_view(table@).take(i as int)),
        decreases table.len() - i,
    {
        proof {
            let views = table_view(table@);
            assert(views.take(i as int + 1).drop_last() =~= views.take(i as int));
        }
        match &table[i] {
            Some(sem) => {
                let count = if sem.inner.count < 0 {
                    0
                } else {
                    sem.inner.count
                };
                work.push((sem.sem_id, count));
            },
            None => {},
        }
        i += 1;
    }
    assert(table_view(table@).take(table.len() as int) =~= table_view(table@));
    work
}

/// A copy of `ledger`.
fn copy_ledger(ledger: &Vec<(usize, isize)>) -> (copy: Vec<(usize, isize)>)
    ensures
        copy@ == ledger@,
{
    let mut copy: Vec<(usize, isize)> = Vec::new();
    let mut i: usize = 0;
    while i < ledger.len()
        invariant
            i <= ledger.len(),
            copy@ == ledger@.take(i as int),
        decreases ledger.len() - i,
    {
        copy.push((ledger[i].0, ledger[i].1));
        i += 1;
    }
    copy
}

/// The ledgers of the live tasks in `slots`, with the request of task `cur`
/// for one unit of semaphore `sem_id` entered; see [`rows_for`].
fn gather_rows(
    slots: &Vec<Option<usize>>,
    tasks: &Vec<TaskControlBlock>,
    cur: usize,
    sem_id: usize,
) -> (rows: Vec<TaskLedger>)
    requires
        forall|t: int|
            0 <= t < slots.len() ==> ((#[trigger] slots[t]) matches Some(h) ==> h < tasks.len()),
    ensures
        rows_of(rows@) == rows_for(slots@, views_of(tasks@), cur, sem_id),
{
    let mut rows: Vec<TaskLedger> = Vec::new();
    let mut t: usize = 0;
    while t < slots.len()
        invariant
            t <= slots.len(),
            forall|i: int|
                0 <= i < slots.len() ==> ((#[trigger] slots[i]) matches Some(h) ==> h
                    < tasks.len()),
            rows_of(rows@) == rows_for(slots@.take(t as int), views_of(tasks@), cur, sem_id),
        decreases slots.len() - t,
    {
        proof {
            assert(slots@.take(t as int + 1).drop_last() =~= slots@.take(t as int));
        }
        match slots[t] {
            Some(h) => {
                if tasks[h].task_status != TaskStatus::Exited {
                    let allocation = copy_ledger(&tasks[h].allocation);
                    let mut need = copy_ledger(&tasks[h].need);
                    if h == cur {
                        need.push((sem_id, 1));
                    }
                    rows.push(TaskLedger { tid: t, allocation, need });
                }
            },
            None => {},
        }
        t += 1;
    }
    assert(slots@.take(slots.len() as int) =~= slots@);
    rows
}

/// The running task takes one unit of semaphore `sem_id` of its process.
///
/// With deadlock avoidance on, the request is first entered on trial: if
/// the tasks of the process could then not all finish, whatever their
/// order, the request is refused with [`DEADLOCK`] and nothing changes: no
/// count, no ledger, and the task keeps running. Else the result is 0; the
/// task has the unit and is still running if one was free, and waits for
/// it, blocked, if none was.
pub fn sys_semaphore_down(kernel: &mut Kernel, sem_id: usize) -> (r: isize)
    requires
        old(kernel)@.in_call(),
        old(kernel)@.current_process().has_semaphore(sem_id),
        old(kernel)@.down_in_range(sem_id),
    ensures
        r == if old(kernel)@.down_refused(sem_id) {
            DEADLOCK
        } else {
            0isize
        },
        final(kernel)@ == if old(kernel)@.down_refused(sem_id) {
            old(kernel)@
        } else {
            old(kernel)@.semaphore_down(sem_id)
        },
        final(kernel)@.wf(),
{
    let (cur, pid) = kernel.current_ids();
    if kernel.processes[pid].deadlock_detection {
        proof {
            lemma_detection_input_ok(kernel@, sem_id);
        }
        let work = gather_work(&kernel.processes[pid].semaphore_list);
        let rows = gather_rows(&kernel.processes[pid].tasks, &kernel.sched.tasks, cur, sem_id);
        if !is_safe_state(work, &rows) {
            return DEADLOCK;
        }
    }
    proof {
        lemma_semaphore_down_wf(kernel@, sem_id);
    }
    kernel.processes[pid].semaphore_list[sem_id].as_mut().unwrap().down(&mut kernel.sched);
    proof {
        let k = old(kernel)@;
        let p = k.current_process();
        let target = p.with_semaphore(sem_id, p.semaphore(sem_id).down(cur));
        assert(kernel.processes[pid as int]@.semaphore_list =~= target.semaphore_list);
        assert(kernel@.processes =~= k.semaphore_down(sem_id).processes);
    }
    0
}

/// Creates a condition variable in the process of the running task. Returns
/// its id, which is the first vacated id of the process's table of
/// condition variables, or the next id where none is vacated.
pub fn sys_condvar_create(kernel: &mut Kernel) -> (r: isize)
    requires
        old(kernel)@.in_call(),
        old(kernel)@.current_process().condvar_list.len() < isize::MAX,
    ensures
        is_free_slot(old(kernel)@.current_process().condvar_list, r as int),
        r == free_slot(old(kernel)@.current_process().condvar_list),
        final(kernel)@ == old(kernel)@.condvar_create(),
        final(kernel)@.wf(),
{
    let (cur, pid) = kernel.current_ids();
    let id = find_free_slot(&kernel.processes[pid].condvar_list);
    if id < kernel.processes[pid].condvar_list.len() {
        kernel.processes[pid].condvar_list[id] = Some(Condvar::new(id));
    } else {
        kernel.processes[pid].condvar_list.push(Some(Condvar::new(id)));
    }
    proof {
        let k = old(kernel)@;
        let p = k.current_process();
        lemma_free_slot_view(old(kernel).processes[pid as int].condvar_list@, id as int);
        let target = with_slot(p.condvar_list, id as int, CondvarView::fresh(id));
        assert(kernel.processes[pid as int]@.condvar_list =~= target);
        assert(kernel@.processes =~= k.condvar_create().processes);
        lemma_condvar_create_wf(k);
    }
    id as isize
}

/// Wakes the task that has waited longest on condition variable
/// `condvar_id` of the running task's process; changes nothing when no task
/// waits. Returns 0.
pub fn sys_condvar_signal(kernel: &mut Kernel, condvar_id: usize) -> (r: isize)
    requires
        old(kernel)@.in_call(),
        old(kernel)@.current_process().has_condvar(condvar_id),
    ensures
        r == 0,
        final(kernel)@ == old(kernel)@.condvar_signal(condvar_id),
        final(kernel)@.wf(),
{
    let (cur, pid) = kernel.current_ids();
    proof {
        lemma_condvar_signal_wf(kernel@, condvar_id);
    }
    kernel.processes[pid].condvar_list[condvar_id].as_mut().unwrap().signal(&mut kernel.sched);
    proof {
        let k = old(kernel)@;
        let p = k.current_process();
        let target = p.with_condvar(condvar_id, p.condvar(condvar_id).signal());
        assert(kernel.processes[pid as int]@.condvar_list =~= target.condvar_list);
        assert(kernel@.processes =~= k.condvar_signal(condvar_id).processes);
    }
    0
}

/// The running task releases mutex `mutex_id`, which it holds, and waits on
/// condition variable `condvar_id`, blocked. When it is woken it does not
/// hold the mutex: it has to ask for it again. Returns 0.
pub fn sys_condvar_wait(kernel: &mut Kernel, condvar_id: usize, mutex_id: usize) -> (r: isize)
    requires
        old(kernel)@.in_call(),
        old(kernel)@.current_process().has_condvar(condvar_id),
        old(kernel)@.current_process().has_mutex(mutex_id),
        old(kernel)@.current_process().mutex(mutex_id).held_by_current(old(kernel)@.sched),
    ensures
        r == 0,
        final(kernel)@ == old(kernel)@.condvar_wait(condvar_id, mutex_id),
        final(kernel)@.wf(),
{
    let (cur, pid) = kernel.current_ids();
    proof {
        lemma_mutex_unlock_wf(kernel@, mutex_id);
        lemma_condvar_wait_wf(kernel@, condvar_id, mutex_id);
    }
    let process = &mut kernel.processes[pid];
    let condvar = process.condvar_list[condvar_id].as_mut().unwrap();
    let mutex = process.mutex_list[mutex_id].as_mut().unwrap();
    condvar.wait(mutex, &mut kernel.sched);
    proof {
        let k = old(kernel)@;
        let k1 = k.mutex_unlock(mutex_id);
        let p_mid = k1.current_process();
        let target = p_mid.with_condvar(condvar_id, p_mid.condvar(condvar_id).wait(cur));
        assert(kernel.processes[pid as int]@.mutex_list =~= target.mutex_list);
        assert(kernel.processes[pid as int]@.condvar_list =~= target.condvar_list);
        assert(kernel@.processes =~= k.condvar_wait(condvar_id, mutex_id).processes);
    }
    0
}

/// Switches deadlock avoidance for the process of the running task: on for
/// 1, off for 0. Returns 0 for these two values; for any other value
/// returns -1 and changes nothing.
pub fn sys_enable_deadlock_detect(kernel: &mut Kernel, enabled: usize) -> (r: isize)
    requires
        old(kernel)@.in_call(),
    ensures
        r == if enabled <= 1 {
            0isize
        } else {
            -1isize
        },
        final(kernel)@ == if enabled <= 1 {
            old(kernel)@.set_deadlock_detection(enabled == 1)
        } else {
            old(kernel)@
        },
        final(kernel)@.wf(),
{
    if enabled == 1 {
        let (cur, pid) = kernel.current_ids();
        kernel.processes[pid].deadlock_detection = true;
        proof {
            lemma_set_deadlock_detection_wf(old(kernel)@, true);
            assert(kernel@.processes =~= old(kernel)@.set_deadlock_detection(true).processes);
        }
        return 0;
    } else if enabled == 0 {
        let (cur, pid) = kernel.current_ids();
        kernel.processes[pid].deadlock_detection = false;
        proof {
            lemma_set_deadlock_detection_wf(old(kernel)@, false);
            assert(kernel@.processes =~= old(kernel)@.set_deadlock_detection(false).processes);
        }
        return 0;
    } else {
        return -1;
    }
}

} // verus!
