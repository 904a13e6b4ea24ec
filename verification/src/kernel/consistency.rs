//! Every call keeps the state of the kernel well formed.

use crate::kernel::steps::{rows_for, work_of};
use crate::kernel::{need_for, KernelView};
use crate::sync::condvar::CondvarView;
use crate::sync::deadlock::{check_input_ok, ids_known, nonneg};
use crate::sync::ledger::{
    count_of, distinct_ids, has_id, lemma_first_index, lemma_with_unit_keeps, positive, with_unit,
    without_unit,
};
use crate::sync::mutex::MutexView;
use crate::sync::semaphore::SemaphoreView;
use crate::sync::waiters::{same_but, waiters_ok};
use crate::task::process::{free_slot, lemma_free_slot_exists, with_slot, ProcessView};
use crate::task::processor::{lemma_suspend_wf, lemma_wakeup_wf, SchedulerView};
use crate::task::{TaskStatus, TaskView, WaitChannel};
use vstd::prelude::*;

verus! {

/// In a well-formed kernel with a running task, that task and its process
/// are where the records say.
pub proof fn lemma_current(k: KernelView)
    requires
        k.in_call(),
    ensures
        k.sched.has_task(k.sched.current.unwrap()),
        k.sched.current_task().task_status == TaskStatus::Running,
        k.sched.current_task().wait_channel is None,
        k.sched.current_task().need == Seq::<(usize, isize)>::empty(),
        k.sched.current_task().wf(),
        k.current_pid() < k.processes.len(),
        k.current_process().pid == k.current_pid(),
        k.current_process().wf(k.sched),
        k.task_ok(k.sched.current.unwrap() as int),
{
    let c = k.sched.current.unwrap();
    assert(k.task_ok(c as int));
}

/// A step that changes one task, and at most the wait queue of one channel
/// in that task's process, keeps the kernel well formed, provided that the
/// changed parts are in order.
pub proof fn lemma_step_wf(k: KernelView, k2: KernelView, h: usize, channel: Option<WaitChannel>)
    requires
        k.wf(),
        k2.sched.wf(),
        k.sched.has_task(h),
        same_but(k.sched, k2.sched, h),
        k2.sched.tasks[h as int].pid == k.sched.tasks[h as int].pid,
        k2.sched.tasks[h as int].tid == k.sched.tasks[h as int].tid,
        k.sched.tasks[h as int].task_status == TaskStatus::Blocked ==> k.sched.tasks[h as int].wait_channel
            == channel,
        k2.processes.len() == k.processes.len(),
        forall|pid: int|
            0 <= pid < k.processes.len() && pid != k.sched.tasks[h as int].pid
                ==> #[trigger] k2.processes[pid] == k.processes[pid],
        ({
            let p = k.processes[k.sched.tasks[h as int].pid as int];
            let p_after = k2.processes[k.sched.tasks[h as int].pid as int];
            &&& p_after.pid == p.pid
            &&& p_after.tasks == p.tasks
            &&& p_after.objects_ok()
            &&& forall|c: WaitChannel|
                Some(c) != channel ==> #[trigger] p_after.queue_of(c) == p.queue_of(c)
            &&& forall|sid: usize| p.has_semaphore(sid) ==> #[trigger] p_after.has_semaphore(sid)
            &&& channel matches Some(x) ==> (p_after.queue_of(x) matches Some(queue) ==> waiters_ok(
                k2.sched,
                queue,
                p.pid,
                x,
            ))
        }),
        k2.task_ok(h as int),
        k2.sleepers_ok(),
    ensures
        k2.wf(),
{
    assert forall|t: int| 0 <= t < k2.sched.tasks.len() implies #[trigger] k2.task_ok(t) by {
        if t != h {
            assert(k.task_ok(t));
        }
    }
}

/// In a well-formed kernel, the first task in a wait queue of the running
/// task's process is a blocked task of that process that waits for the
/// queue's channel.
pub proof fn lemma_head_waiter(k: KernelView, channel: WaitChannel)
    requires
        k.in_call(),
        k.current_process().queue_of(channel) matches Some(queue) && queue.len() > 0,
    ensures
        ({
            let h = k.current_process().queue_of(channel).unwrap()[0];
            &&& k.sched.has_task(h)
            &&& k.sched.tasks[h as int].pid == k.current_pid()
            &&& k.sched.tasks[h as int].task_status == TaskStatus::Blocked
            &&& k.sched.tasks[h as int].wait_channel == Some(channel)
            &&& k.sched.tasks[h as int].need == need_for(Some(channel))
            &&& k.sched.tasks[h as int].wf()
            &&& k.task_ok(h as int)
            &&& waiters_ok(
                k.sched,
                k.current_process().queue_of(channel).unwrap(),
                k.current_pid(),
                channel,
            )
        }),
{
    lemma_current(k);
    let queue = k.current_process().queue_of(channel).unwrap();
    let h = queue[0];
    assert(k.task_ok(h as int));
}

/// A process with a new mutex in the slot for it: the new mutex has no
/// waiter, and the rest of the process is as before.
proof fn lemma_new_mutex(p: ProcessView, blocking: bool)
    requires
        p.objects_ok(),
        p.mutex_list.len() < usize::MAX,
    ensures
        ({
            let id = free_slot(p.mutex_list);
            let p_after = ProcessView {
                mutex_list: with_slot(p.mutex_list, id, MutexView::fresh(blocking, id as usize)),
                ..p
            };
            &&& p_after.objects_ok()
            &&& p_after.queue_of(WaitChannel::Mutex(id as usize)) == Some(Seq::<usize>::empty())
            &&& forall|c: WaitChannel|
                c != WaitChannel::Mutex(id as usize) ==> #[trigger] p_after.queue_of(c)
                    == p.queue_of(c)
        }),
{
    lemma_free_slot_exists(p.mutex_list);
}

/// A process with a new semaphore in the slot for it: the new semaphore has
/// no waiter, and the rest of the process is as before.
proof fn lemma_new_semaphore(p: ProcessView, res_count: int)
    requires
        p.objects_ok(),
        p.semaphore_list.len() < usize::MAX,
        0 <= res_count <= isize::MAX,
    ensures
        ({
            let id = free_slot(p.semaphore_list);
            let p_after = ProcessView {
                semaphore_list: with_slot(
                    p.semaphore_list,
                    id,
                    SemaphoreView::fresh(id as usize, res_count),
                ),
                ..p
            };
            &&& p_after.objects_ok()
            &&& p_after.queue_of(WaitChannel::Semaphore(id as usize)) == Some(
                Seq::<usize>::empty(),
            )
            &&& forall|c: WaitChannel|
                c != WaitChannel::Semaphore(id as usize) ==> #[trigger] p_after.queue_of(c)
                    == p.queue_of(c)
            &&& forall|sid: usize| p.has_semaphore(sid) ==> #[trigger] p_after.has_semaphore(sid)
        }),
{
    lemma_free_slot_exists(p.semaphore_list);
}

/// A process with a new condition variable in the slot for it: the new
/// condition variable has no waiter, and the rest of the process is as
/// before.
proof fn lemma_new_condvar(p: ProcessView)
    requires
        p.objects_ok(),
        p.condvar_list.len() < usize::MAX,
    ensures
        ({
            let id = free_slot(p.condvar_list);
            let p_after = ProcessView {
                condvar_list: with_slot(p.condvar_list, id, CondvarView::fresh(id as usize)),
                ..p
            };
            &&& p_after.objects_ok()
            &&& p_after.queue_of(WaitChannel::Condvar(id as usize)) == Some(Seq::<usize>::empty())
            &&& forall|c: WaitChannel|
                c != WaitChannel::Condvar(id as usize) ==> #[trigger] p_after.queue_of(c)
                    == p.queue_of(c)
        }),
{
    lemma_free_slot_exists(p.condvar_list);
}

/// A new mutex keeps the kernel well formed.
pub proof fn lemma_mutex_create_wf(k: KernelView, blocking: bool)
    requires
        k.in_call(),
        k.current_process().mutex_list.len() < usize::MAX,
    ensures
        k.mutex_create(blocking).wf(),
{
    lemma_current(k);
    let cur = k.sched.current.unwrap();
    let k2 = k.mutex_create(blocking);
    let channel = WaitChannel::Mutex(free_slot(k.current_process().mutex_list) as usize);
    lemma_new_mutex(k.current_process(), blocking);
    lemma_step_wf(k, k2, cur, Some(channel));
}

/// The release of a mutex keeps the kernel well formed, and finds the task
/// to which it hands the mutex blocked.
pub proof fn lemma_mutex_unlock_wf(k: KernelView, id: usize)
    requires
        k.in_call(),
        k.current_process().has_mutex(id),
    ensures
        k.current_process().mutex(id).can_wake(k.sched),
        k.mutex_unlock(id).wf(),
        k.mutex_unlock(id).sched.current == k.sched.current,
        k.mutex_unlock(id).processes.len() == k.processes.len(),
{
    lemma_current(k);
    let cur = k.sched.current.unwrap();
    let p = k.current_process();
    let m = p.mutex(id);
    let k2 = k.mutex_unlock(id);
    let channel = WaitChannel::Mutex(id);
    match m.woken_by_unlock() {
        Some(h) => {
            lemma_head_waiter(k, channel);
            lemma_wakeup_wf(k.sched, h);
            lemma_step_wf(k, k2, h, Some(channel));
        },
        None => {
            lemma_step_wf(k, k2, cur, Some(channel));
        },
    }
}

/// The semaphore ids that a ledger names stay those of semaphores of
/// `process` when one unit of an existing semaphore is added.
proof fn lemma_with_unit_live(process: ProcessView, ledger: Seq<(usize, isize)>, sid: usize)
    requires
        process.has_semaphore(sid),
        distinct_ids(ledger),
        positive(ledger),
        count_of(ledger, sid) < isize::MAX,
        forall|e: int| 0 <= e < ledger.len() ==> process.has_semaphore((#[trigger] ledger[e]).0),
    ensures
        forall|e: int|
            0 <= e < with_unit(ledger, sid).len() ==> process.has_semaphore(
                (#[trigger] with_unit(ledger, sid)[e]).0,
            ),
{
    let grown = with_unit(ledger, sid);
    lemma_with_unit_keeps(ledger, sid);
    assert forall|e: int| 0 <= e < grown.len() implies process.has_semaphore(
        (#[trigger] grown[e]).0,
    ) by {
        let other = grown[e].0;
        if other != sid {
            assert(has_id(ledger, other));
        }
    }
}

/// A new semaphore keeps the kernel well formed.
pub proof fn lemma_semaphore_create_wf(k: KernelView, res_count: int)
    requires
        k.in_call(),
        k.current_process().semaphore_list.len() < usize::MAX,
        0 <= res_count <= isize::MAX,
    ensures
        k.semaphore_create(res_count).wf(),
{
    lemma_current(k);
    let cur = k.sched.current.unwrap();
    let k2 = k.semaphore_create(res_count);
    let channel = WaitChannel::Semaphore(free_slot(k.current_process().semaphore_list) as usize);
    lemma_new_semaphore(k.current_process(), res_count);
    lemma_step_wf(k, k2, cur, Some(channel));
}

/// In a well-formed kernel, `up` finds the task that it wakes as it needs
/// it: blocked, with the unit in its need ledger.
pub proof fn lemma_semaphore_up_can_wake(k: KernelView, id: usize)
    requires
        k.in_call(),
        k.current_process().has_semaphore(id),
        k.up_in_range(id),
    ensures
        k.current_process().semaphore(id).can_wake(k.sched),
{
    let s = k.current_process().semaphore(id);
    let channel = WaitChannel::Semaphore(id);
    if s.woken_by_up() is Some {
        lemma_head_waiter(k, channel);
        let h = s.wait_queue[0];
        assert(k.sched.tasks[h as int].need[0] == (id, 1isize));
    }
}

/// An `up` keeps the kernel well formed.
pub proof fn lemma_semaphore_up_wf(k: KernelView, id: usize)
    requires
        k.in_call(),
        k.current_process().has_semaphore(id),
        k.up_in_range(id),
    ensures
        k.semaphore_up(id).wf(),
{
    lemma_current(k);
    let cur = k.sched.current.unwrap();
    let p = k.current_process();
    let s = p.semaphore(id);
    let k2 = k.semaphore_up(id);
    let channel = WaitChannel::Semaphore(id);
    match s.woken_by_up() {
        Some(h) => {
            lemma_head_waiter(k, channel);
            let task = k.sched.tasks[h as int];
            lemma_first_index(task.need, id, 0);
            assert(without_unit(task.need, id) =~= Seq::empty());
            lemma_with_unit_keeps(task.allocation, id);
            lemma_with_unit_live(p, task.allocation, id);
            let moved = TaskView {
                need: without_unit(task.need, id),
                allocation: with_unit(task.allocation, id),
                ..task
            };
            lemma_wakeup_wf(k.sched.with_task(h, moved), h);
            lemma_step_wf(k, k2, h, Some(channel));
        },
        None => {
            lemma_step_wf(k, k2, cur, Some(channel));
        },
    }
}

/// A `down` keeps the kernel well formed.
pub proof fn lemma_semaphore_down_wf(k: KernelView, id: usize)
    requires
        k.in_call(),
        k.current_process().has_semaphore(id),
        k.down_in_range(id),
    ensures
        k.current_process().semaphore(id).can_charge(k.sched),
        k.semaphore_down(id).wf(),
{
    lemma_current(k);
    let cur = k.sched.current.unwrap();
    let p = k.current_process();
    let s = p.semaphore(id);
    let k2 = k.semaphore_down(id);
    let channel = WaitChannel::Semaphore(id);
    let task = k.sched.current_task();
    assert(p.queue_of(channel) == Some(s.wait_queue));
    if s.down_blocks() {
        lemma_step_wf(k, k2, cur, Some(channel));
    } else {
        lemma_with_unit_keeps(task.allocation, id);
        lemma_with_unit_live(p, task.allocation, id);
        lemma_step_wf(k, k2, cur, Some(channel));
    }
}

/// The ids in the free units of a table are those of its semaphores, each
/// once, and no count is below zero.
proof fn lemma_work_of(semaphores: Seq<Option<SemaphoreView>>)
    requires
        semaphores.len() <= usize::MAX,
        forall|id: usize|
            #![trigger semaphores[id as int]]
            id < semaphores.len() && semaphores[id as int] is Some
                ==> semaphores[id as int].unwrap().sem_id == id
                && semaphores[id as int].unwrap().wf(),
    ensures
        distinct_ids(work_of(semaphores)),
        nonneg(work_of(semaphores)),
        forall|i: int|
            0 <= i < work_of(semaphores).len() ==> (#[trigger] work_of(semaphores)[i]).0
                < semaphores.len(),
        forall|id: usize|
            #![trigger semaphores[id as int]]
            id < semaphores.len() && semaphores[id as int] is Some ==> has_id(
                work_of(semaphores),
                id,
            ),
    decreases semaphores.len(),
{
    if semaphores.len() > 0 {
        let front_list = semaphores.drop_last();
        lemma_work_of(front_list);
        let front = work_of(front_list);
        let work = work_of(semaphores);
        assert forall|id: usize|
            #![trigger semaphores[id as int]]
            id < semaphores.len() && semaphores[id as int] is Some implies has_id(work, id) by {
            if id < front_list.len() {
                assert(front_list[id as int] == semaphores[id as int]);
                let i = choose|i: int| 0 <= i < front.len() && (#[trigger] front[i]).0 == id;
                assert(work[i] == front[i]);
            } else {
                assert(work[work.len() - 1].0 == id);
            }
        }
    }
}

/// The rows that the safety check gets name only semaphores of the
/// process, and hold no negative allocation.
proof fn lemma_rows_for(k: KernelView, slots: Seq<Option<usize>>, id: usize)
    requires
        k.in_call(),
        k.current_process().has_semaphore(id),
        forall|t: int|
            0 <= t < slots.len() ==> ((#[trigger] slots[t]) matches Some(h) ==> k.sched.has_task(h)
                && k.sched.tasks[h as int].pid == k.current_pid()),
    ensures
        forall|i: int|
            0 <= i < rows_for(slots, k.sched.tasks, k.sched.current.unwrap(), id).len() ==> {
                let row = #[trigger] rows_for(slots, k.sched.tasks, k.sched.current.unwrap(), id)[i];
                &&& nonneg(row.allocation)
                &&& ids_known(row.allocation, work_of(k.current_process().semaphore_list))
                &&& ids_known(row.need, work_of(k.current_process().semaphore_list))
            },
    decreases slots.len(),
{
    let cur = k.sched.current.unwrap();
    let p = k.current_process();
    let work = work_of(p.semaphore_list);
    lemma_current(k);
    lemma_work_of(p.semaphore_list);
    if slots.len() > 0 {
        let front_slots = slots.drop_last();
        lemma_rows_for(k, front_slots, id);
        let front = rows_for(front_slots, k.sched.tasks, cur, id);
        let rows = rows_for(slots, k.sched.tasks, cur, id);
        assert forall|i: int| 0 <= i < rows.len() implies {
            let row = #[trigger] rows[i];
            &&& nonneg(row.allocation)
            &&& ids_known(row.allocation, work)
            &&& ids_known(row.need, work)
        } by {
            if i >= front.len() {
                let h = slots.last().unwrap();
                assert(k.task_ok(h as int));
            }
        }
    }
}

/// In a well-formed kernel, the state that the safety check is given for a
/// `down` is one that it accepts.
pub proof fn lemma_detection_input_ok(k: KernelView, id: usize)
    requires
        k.in_call(),
        k.current_process().has_semaphore(id),
    ensures
        check_input_ok(
            work_of(k.current_process().semaphore_list),
            rows_for(k.current_process().tasks, k.sched.tasks, k.sched.current.unwrap(), id),
        ),
{
    let p = k.current_process();
    lemma_current(k);
    lemma_work_of(p.semaphore_list);
    lemma_rows_for(k, p.tasks, id);
}

/// A new condition variable keeps the kernel well formed.
pub proof fn lemma_condvar_create_wf(k: KernelView)
    requires
        k.in_call(),
        k.current_process().condvar_list.len() < usize::MAX,
    ensures
        k.condvar_create().wf(),
{
    lemma_current(k);
    let cur = k.sched.current.unwrap();
    let k2 = k.condvar_create();
    let channel = WaitChannel::Condvar(free_slot(k.current_process().condvar_list) as usize);
    lemma_new_condvar(k.current_process());
    lemma_step_wf(k, k2, cur, Some(channel));
}

/// A signal keeps the kernel well formed.
pub proof fn lemma_condvar_signal_wf(k: KernelView, id: usize)
    requires
        k.in_call(),
        k.current_process().has_condvar(id),
    ensures
        k.current_process().condvar(id).can_wake(k.sched),
        k.condvar_signal(id).wf(),
{
    lemma_current(k);
    let cur = k.sched.current.unwrap();
    let p = k.current_process();
    let c = p.condvar(id);
    let k2 = k.condvar_signal(id);
    let channel = WaitChannel::Condvar(id);
    match c.woken_by_signal() {
        Some(h) => {
            lemma_head_waiter(k, channel);
            lemma_wakeup_wf(k.sched, h);
            lemma_step_wf(k, k2, h, Some(channel));
        },
        None => {
            lemma_step_wf(k, k2, cur, Some(channel));
        },
    }
}

/// Beginning to wait on a condition variable keeps the kernel well formed.
pub proof fn lemma_condvar_block_wf(k: KernelView, id: usize)
    requires
        k.in_call(),
        k.current_process().has_condvar(id),
    ensures
        k.condvar_block(id).wf(),
{
    lemma_current(k);
    let cur = k.sched.current.unwrap();
    let p = k.current_process();
    let c = p.condvar(id);
    let k2 = k.condvar_block(id);
    let channel = WaitChannel::Condvar(id);
    assert(p.queue_of(channel) == Some(c.wait_queue));
    lemma_step_wf(k, k2, cur, Some(channel));
}

/// Releasing a mutex and beginning to wait on a condition variable keeps
/// the kernel well formed.
pub proof fn lemma_condvar_wait_wf(k: KernelView, condvar_id: usize, mutex_id: usize)
    requires
        k.in_call(),
        k.current_process().has_condvar(condvar_id),
        k.current_process().has_mutex(mutex_id),
    ensures
        k.condvar_wait(condvar_id, mutex_id).wf(),
        k.mutex_unlock(mutex_id).in_call(),
        k.mutex_unlock(mutex_id).current_pid() == k.current_pid(),
        k.mutex_unlock(mutex_id).current_process().condvar_list == k.current_process().condvar_list,
{
    lemma_current(k);
    lemma_mutex_unlock_wf(k, mutex_id);
    let k1 = k.mutex_unlock(mutex_id);
    lemma_condvar_block_wf(k1, condvar_id);
}

/// Switching deadlock avoidance keeps the kernel well formed.
pub proof fn lemma_set_deadlock_detection_wf(k: KernelView, on: bool)
    requires
        k.in_call(),
    ensures
        k.set_deadlock_detection(on).wf(),
{
    lemma_current(k);
    let cur = k.sched.current.unwrap();
    let k2 = k.set_deadlock_detection(on);
    lemma_step_wf(k, k2, cur, None);
}

/// Going to sleep keeps the kernel well formed.
pub proof fn lemma_sleep_wf(k: KernelView, expire_ms: usize)
    requires
        k.in_call(),
    ensures
        k.sleep(expire_ms).wf(),
{
    lemma_current(k);
    let cur = k.sched.current.unwrap();
    let k2 = k.sleep(expire_ms);
    let channel = WaitChannel::Timer;
    lemma_step_wf(k, k2, cur, Some(channel));
}

/// Serving a wake-up request keeps the kernel well formed.
pub proof fn lemma_serve_timer_wf(k: KernelView, i: int)
    requires
        k.wf(),
        0 <= i < k.timers.len(),
    ensures
        k.serve_timer(i).wf(),
{
    let h = k.timers[i].task;
    let k2 = k.serve_timer(i);
    assert(k.task_ok(h as int));
    lemma_wakeup_wf(k.sched, h);
    lemma_step_wf(k, k2, h, Some(WaitChannel::Timer));
}

/// A new task keeps the kernel well formed, whether it comes with a new
/// process or joins a process that exists.
proof fn lemma_spawn_wf(k: KernelView, k2: KernelView, pid: usize, tid: usize)
    requires
        k.wf(),
        k.sched.tasks.len() < usize::MAX,
        k2.sched == k.sched.spawn(pid, tid),
        k2.timers == k.timers,
        pid <= k.processes.len(),
        pid < k2.processes.len(),
        k2.processes.len() <= usize::MAX,
        k2.processes.len() == if pid < k.processes.len() {
            k.processes.len()
        } else {
            k.processes.len() + 1
        },
        forall|other: int|
            0 <= other < k.processes.len() && other != pid ==> #[trigger] k2.processes[other]
                == k.processes[other],
        ({
            let before = if pid < k.processes.len() {
                k.processes[pid as int]
            } else {
                ProcessView::fresh(pid)
            };
            &&& tid == before.tasks.len()
            &&& before.tasks.len() < usize::MAX
            &&& k2.processes[pid as int] == (ProcessView {
                tasks: before.tasks.push(Some(k.sched.tasks.len() as usize)),
                ..before
            })
        }),
    ensures
        k2.wf(),
{
    crate::task::processor::lemma_spawn_wf(k.sched, pid, tid);
    assert forall|p: int| 0 <= p < k2.processes.len() implies (#[trigger] k2.processes[p]).pid == p
        && k2.processes[p].wf(k2.sched) by {
        let p_after = k2.processes[p];
        if p < k.processes.len() {
            let p_before = k.processes[p];
            assert forall|c: WaitChannel| (#[trigger] p_after.queue_of(c)) matches Some(
                queue,
            ) implies waiters_ok(k2.sched, p_after.queue_of(c).unwrap(), p_after.pid, c) by {
                let queue = p_before.queue_of(c).unwrap();
            }
        }
    }
    assert forall|t: int| 0 <= t < k2.sched.tasks.len() implies #[trigger] k2.task_ok(t) by {
        if t < k.sched.tasks.len() {
            assert(k.task_ok(t));
        }
    }
}

/// A new process keeps the kernel well formed.
pub proof fn lemma_add_process_wf(k: KernelView)
    requires
        k.wf(),
        k.sched.tasks.len() < usize::MAX,
        k.processes.len() < usize::MAX,
    ensures
        k.add_process().wf(),
{
    let pid = k.processes.len() as usize;
    let k2 = k.add_process();
    lemma_spawn_wf(k, k2, pid, 0);
}

/// A new task in a process keeps the kernel well formed.
pub proof fn lemma_add_thread_wf(k: KernelView, pid: usize)
    requires
        k.wf(),
        pid < k.processes.len(),
        k.sched.tasks.len() < usize::MAX,
        k.processes[pid as int].tasks.len() < usize::MAX,
    ensures
        k.add_thread(pid).wf(),
{
    let k2 = k.add_thread(pid);
    lemma_spawn_wf(k, k2, pid, k.processes[pid as int].tasks.len() as usize);
}

/// A change of one task that keeps its ids, its state, its wait channel and
/// its ledgers keeps the kernel well formed.
pub proof fn lemma_plain_change_wf(k: KernelView, sched: SchedulerView, h: usize)
    requires
        k.wf(),
        k.sched.has_task(h),
        same_but(k.sched, sched, h),
        sched.ready_queue == k.sched.ready_queue,
        sched.current == k.sched.current,
        sched.tasks[h as int].wf(),
        sched.tasks[h as int].pid == k.sched.tasks[h as int].pid,
        sched.tasks[h as int].tid == k.sched.tasks[h as int].tid,
        sched.tasks[h as int].task_status == k.sched.tasks[h as int].task_status,
        sched.tasks[h as int].wait_channel == k.sched.tasks[h as int].wait_channel,
        sched.tasks[h as int].allocation == k.sched.tasks[h as int].allocation,
        sched.tasks[h as int].need == k.sched.tasks[h as int].need,
    ensures
        k.with_sched(sched).wf(),
{
    let k2 = k.with_sched(sched);
    assert forall|t: int| 0 <= t < sched.tasks.len() implies #[trigger] k2.task_ok(t) by {
        assert(k.task_ok(t));
    }
}

/// A step of the scheduler that leaves every wait queue alone (a dispatch,
/// or the running task giving up the processor or exiting) keeps the kernel
/// well formed.
pub proof fn lemma_sched_step_wf(k: KernelView, sched: SchedulerView, h: usize)
    requires
        k.wf(),
        sched.wf(),
        k.sched.has_task(h),
        same_but(k.sched, sched, h),
        k.sched.tasks[h as int].task_status != TaskStatus::Blocked,
        sched.tasks[h as int] == (TaskView {
            task_status: sched.tasks[h as int].task_status,
            ..k.sched.tasks[h as int]
        }),
    ensures
        k.with_sched(sched).wf(),
{
    let k2 = k.with_sched(sched);
    assert(k.task_ok(h as int));
    lemma_step_wf(k, k2, h, None);
}

/// A request for a mutex keeps the kernel well formed.
pub proof fn lemma_mutex_lock_wf(k: KernelView, id: usize)
    requires
        k.in_call(),
        k.current_process().has_mutex(id),
    ensures
        k.mutex_lock(id).wf(),
{
    lemma_current(k);
    let cur = k.sched.current.unwrap();
    let p = k.current_process();
    let m = p.mutex(id);
    let k2 = k.mutex_lock(id);
    let channel = WaitChannel::Mutex(id);
    assert(p.queue_of(channel) == Some(m.wait_queue));
    if m.holder is Some && !m.blocking {
        lemma_suspend_wf(k.sched);
    }
    lemma_step_wf(k, k2, cur, Some(channel));
}

} // verus!
