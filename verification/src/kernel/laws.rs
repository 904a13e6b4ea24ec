//! What the calls mean for the life of a task.

use crate::kernel::consistency::{lemma_head_waiter, lemma_serve_timer_wf};
use crate::kernel::KernelView;
use crate::task::{TaskStatus, WaitChannel};
use vstd::prelude::*;

verus! {

/// Every call moves tasks between states only as the rules of
/// [`crate::task::TaskStatus::may_become`] allow: no call makes a task run
/// that was not ready, wakes a task that was not blocked, or revives a task
/// that has exited.
pub proof fn lemma_calls_follow_the_rules(
    k: KernelView,
    id: usize,
    other: usize,
    blocking: bool,
    count: int,
    time: usize,
    on: bool,
)
    requires
        k.in_call(),
    ensures
        k.sched.may_become(k.mutex_create(blocking).sched),
        k.sched.may_become(k.semaphore_create(count).sched),
        k.sched.may_become(k.condvar_create().sched),
        k.sched.may_become(k.set_deadlock_detection(on).sched),
        k.sched.may_become(k.sleep(time).sched),
        k.current_process().has_mutex(id) ==> k.sched.may_become(k.mutex_lock(id).sched)
            && k.sched.may_become(k.mutex_unlock(id).sched),
        k.current_process().has_semaphore(id) ==> k.sched.may_become(k.semaphore_up(id).sched)
            && k.sched.may_become(k.semaphore_down(id).sched),
        k.current_process().has_condvar(id) ==> k.sched.may_become(k.condvar_signal(id).sched),
        k.current_process().has_condvar(id) && k.current_process().has_mutex(other)
            ==> k.sched.may_become(k.condvar_wait(id, other).sched),
{
    let p = k.current_process();
    if p.has_mutex(id) {
        let m = p.mutex(id);
        if m.woken_by_unlock() is Some {
            lemma_head_waiter(k, WaitChannel::Mutex(id));
        }
    }
    if p.has_semaphore(id) {
        let sem = p.semaphore(id);
        if sem.woken_by_up() is Some {
            lemma_head_waiter(k, WaitChannel::Semaphore(id));
        }
    }
    if p.has_condvar(id) {
        let c = p.condvar(id);
        if c.woken_by_signal() is Some {
            lemma_head_waiter(k, WaitChannel::Condvar(id));
        }
        if p.has_mutex(other) {
            let m = p.mutex(other);
            if m.woken_by_unlock() is Some {
                lemma_head_waiter(k, WaitChannel::Mutex(other));
            }
        }
    }
}

/// Serving the wake-up requests that are due changes the state of no task
/// but from blocked to ready, which the rules allow.
pub proof fn lemma_timer_follows_the_rules(k: KernelView, now_ms: usize, i: int)
    requires
        k.wf(),
    ensures
        k.expire_from(now_ms, i).sched.tasks.len() == k.sched.tasks.len(),
        forall|h: int|
            0 <= h < k.sched.tasks.len() ==> {
                let before = (#[trigger] k.sched.tasks[h]).task_status;
                let after = k.expire_from(now_ms, i).sched.tasks[h].task_status;
                after == before || (before == TaskStatus::Blocked && after == TaskStatus::Ready)
            },
        k.sched.may_become(k.expire_from(now_ms, i).sched),
    decreases k.timers.len() - i,
{
    if i < 0 || i >= k.timers.len() {
    } else if k.timers[i].expire_ms <= now_ms {
        lemma_serve_timer_wf(k, i);
        let k1 = k.serve_timer(i);
        lemma_timer_follows_the_rules(k1, now_ms, i);
        let k2 = k1.expire_from(now_ms, i);
        assert forall|h: int| 0 <= h < k.sched.tasks.len() implies {
            let before = (#[trigger] k.sched.tasks[h]).task_status;
            let after = k2.sched.tasks[h].task_status;
            after == before || (before == TaskStatus::Blocked && after == TaskStatus::Ready)
        } by {
            let middle = k1.sched.tasks[h].task_status;
            assert(middle == k.sched.tasks[h].task_status || middle == TaskStatus::Ready);
        }
    } else {
        lemma_timer_follows_the_rules(k, now_ms, i + 1);
    }
}

/// What serving the due requests from index `i` on leaves, when no request
/// before `i` is due.
proof fn lemma_expire_serves_the_due(k: KernelView, now_ms: usize, i: int)
    requires
        k.wf(),
        0 <= i <= k.timers.len(),
        forall|j: int| 0 <= j < i ==> (#[trigger] k.timers[j]).expire_ms > now_ms,
    ensures
        forall|j: int|
            0 <= j < k.timers.len() && (#[trigger] k.timers[j]).expire_ms > now_ms ==> {
                &&& k.expire_from(now_ms, i).sched.tasks[k.timers[j].task as int].task_status
                    == TaskStatus::Blocked
                &&& k.expire_from(now_ms, i).timers.contains(k.timers[j])
            },
        forall|j: int|
            0 <= j < k.timers.len() && (#[trigger] k.timers[j]).expire_ms <= now_ms ==> k.expire_from(
                now_ms,
                i,
            ).sched.tasks[k.timers[j].task as int].task_status == TaskStatus::Ready,
        forall|j: int|
            0 <= j < k.expire_from(now_ms, i).timers.len() ==> (#[trigger] k.expire_from(
                now_ms,
                i,
            ).timers[j]).expire_ms > now_ms,
    decreases k.timers.len() - i,
{
    let k2 = k.expire_from(now_ms, i);
    if i >= k.timers.len() {
    } else if k.timers[i].expire_ms <= now_ms {
        let k1 = k.serve_timer(i);
        lemma_serve_timer_wf(k, i);
        lemma_expire_serves_the_due(k1, now_ms, i);
        lemma_timer_follows_the_rules(k1, now_ms, i);
        assert forall|j: int| 0 <= j < k.timers.len() implies {
            &&& (#[trigger] k.timers[j]).expire_ms > now_ms ==> k2.sched.tasks[k.timers[j].task as int].task_status
                == TaskStatus::Blocked && k2.timers.contains(k.timers[j])
            &&& k.timers[j].expire_ms <= now_ms ==> k2.sched.tasks[k.timers[j].task as int].task_status
                == TaskStatus::Ready
        } by {
            if j == i {
                let h = k.timers[i].task as int;
                assert(k1.sched.tasks[h].task_status == TaskStatus::Ready ==> k2.sched.tasks[h].task_status
                    == TaskStatus::Ready);
            } else {
                let j1 = if j < i {
                    j
                } else {
                    j - 1
                };
                assert(k1.timers[j1] == k.timers[j]);
            }
        }
    } else {
        lemma_expire_serves_the_due(k, now_ms, i + 1);
    }
}

/// A sleeper wakes when its time has come, and not before.
///
/// After the wake-up requests that are due at time `now_ms` were served, a
/// task whose request is for a later time is still blocked and its request
/// still pending; a task whose request is for that time or an earlier one
/// is ready; and no request that is left is due.
pub proof fn lemma_sleepers_wake_on_time(k: KernelView, now_ms: usize)
    requires
        k.wf(),
    ensures
        forall|j: int|
            0 <= j < k.timers.len() && (#[trigger] k.timers[j]).expire_ms > now_ms ==> {
                &&& k.check_timer(now_ms).sched.tasks[k.timers[j].task as int].task_status
                    == TaskStatus::Blocked
                &&& k.check_timer(now_ms).timers.contains(k.timers[j])
            },
        forall|j: int|
            0 <= j < k.timers.len() && (#[trigger] k.timers[j]).expire_ms <= now_ms ==> k.check_timer(
                now_ms,
            ).sched.tasks[k.timers[j].task as int].task_status == TaskStatus::Ready,
        forall|j: int|
            0 <= j < k.check_timer(now_ms).timers.len() ==> (#[trigger] k.check_timer(
                now_ms,
            ).timers[j]).expire_ms > now_ms,
{
    lemma_expire_serves_the_due(k, now_ms, 0);
}

} // verus!
