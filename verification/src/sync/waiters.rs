//! Wait queues: the handles of blocked tasks, longest waiting first.

use crate::task::processor::SchedulerView;
use crate::task::{TaskStatus, WaitChannel};
use vstd::prelude::*;

verus! {

/// `queue` without its first handle.
pub open spec fn rest(queue: Seq<usize>) -> Seq<usize> {
    queue.subrange(1, queue.len() as int)
}

/// `queue` is the wait queue of `channel` in process `pid`: it holds no
/// handle twice, and each handle is that of a task of the process which is
/// blocked and waits for `channel`.
pub open spec fn waiters_ok(
    sched: SchedulerView,
    queue: Seq<usize>,
    pid: usize,
    channel: WaitChannel,
) -> bool {
    &&& queue.no_duplicates()
    &&& forall|i: int|
        0 <= i < queue.len() ==> {
            &&& sched.has_task(#[trigger] queue[i])
            &&& sched.tasks[queue[i] as int].pid == pid
            &&& sched.tasks[queue[i] as int].task_status == TaskStatus::Blocked
            &&& sched.tasks[queue[i] as int].wait_channel == Some(channel)
        }
}

/// The records of `after` are those of `before`, but for the task `h`.
pub open spec fn same_but(before: SchedulerView, after: SchedulerView, h: usize) -> bool {
    &&& after.tasks.len() == before.tasks.len()
    &&& forall|k: int|
        0 <= k < before.tasks.len() && k != h ==> #[trigger] after.tasks[k] == before.tasks[k]
}

} // verus!
