//! The processor record, the ready queue and the table of all tasks.
//!
//! A task is known by its handle, which is its index in the task table and
//! never changes. The processor holds the handle of the running task; the
//! ready queue holds the handles of the tasks that wait for the processor, in
//! the order in which they will get it.

use crate::config::MAX_SYSCALL_NUM;
use crate::task::{
    views_of, TaskContext, TaskContextView, TaskControlBlock, TaskStatus, TaskView, TrapContext,
    WaitChannel,
};
use std::collections::VecDeque;
use vstd::prelude::*;

verus! {

/// What one processor core is doing.
pub struct Processor {
    /// Handle of the task that is running on this core.
    pub current: Option<usize>,
    /// Saved registers of the idle loop, which runs while no task does.
    pub idle_task_cx: TaskContext,
}

/// The table of all tasks, the ready queue and the processor.
pub struct Scheduler {
    /// Every task, by handle.
    pub tasks: Vec<TaskControlBlock>,
    /// Handles of the ready tasks, first to run first.
    pub ready_queue: VecDeque<usize>,
    /// The processor core.
    pub processor: Processor,
}

/// Mathematical form of a [`Scheduler`].
pub ghost struct SchedulerView {
    pub tasks: Seq<TaskView>,
    pub ready_queue: Seq<usize>,
    pub current: Option<usize>,
    pub idle_task_cx: TaskContextView,
}

impl View for Scheduler {
    type V = SchedulerView;

    open spec fn view(&self) -> SchedulerView {
        SchedulerView {
            tasks: views_of(self.tasks@),
            ready_queue: self.ready_queue@,
            current: self.processor.current,
            idle_task_cx: self.processor.idle_task_cx@,
        }
    }
}

impl SchedulerView {
    /// `h` is the handle of a task.
    pub open spec fn has_task(self, h: usize) -> bool {
        h < self.tasks.len()
    }

    /// The scheduler's records agree with each other: every record is well
    /// formed; the processor holds the one running task; the ready queue
    /// holds the ready tasks, each once; and a task waits for something
    /// exactly while it is blocked.
    pub open spec fn wf(self) -> bool {
        &&& self.tasks.len() <= usize::MAX
        &&& forall|h: int| 0 <= h < self.tasks.len() ==> (#[trigger] self.tasks[h]).wf()
        &&& self.current matches Some(c) ==> self.has_task(c) && self.tasks[c as int].task_status
            == TaskStatus::Running
        &&& forall|h: int|
            0 <= h < self.tasks.len() && (#[trigger] self.tasks[h]).task_status
                == TaskStatus::Running ==> self.current == Some(h as usize)
        &&& self.ready_queue.no_duplicates()
        &&& forall|i: int|
            0 <= i < self.ready_queue.len() ==> self.has_task(#[trigger] self.ready_queue[i])
                && self.tasks[self.ready_queue[i] as int].task_status == TaskStatus::Ready
        &&& forall|h: int|
            0 <= h < self.tasks.len() && (#[trigger] self.tasks[h]).task_status
                == TaskStatus::Ready ==> self.ready_queue.contains(h as usize)
        &&& forall|h: int|
            0 <= h < self.tasks.len() ==> ((#[trigger] self.tasks[h]).task_status
                == TaskStatus::Blocked <==> self.tasks[h].wait_channel is Some)
    }

    /// The same scheduler with `task` in place of the record with handle `h`.
    pub open spec fn with_task(self, h: usize, task: TaskView) -> SchedulerView {
        SchedulerView { tasks: self.tasks.update(h as int, task), ..self }
    }

    /// The scheduler after a new task of process `pid` with id `tid` was
    /// created: it has the next free handle and is last in the ready queue.
    pub open spec fn spawn(self, pid: usize, tid: usize) -> SchedulerView {
        SchedulerView {
            tasks: self.tasks.push(TaskView::fresh(pid, tid)),
            ready_queue: self.ready_queue.push(self.tasks.len() as usize),
            ..self
        }
    }

    /// The scheduler after the processor gave up its task, whose record is
    /// left as it is.
    pub open spec fn take_current(self) -> SchedulerView {
        SchedulerView { current: None, ..self }
    }

    /// The scheduler after the idle loop, with the registers `live`,
    /// dispatched the first task of the ready queue: the task is running,
    /// the processor holds it, and the registers are saved for the idle loop.
    pub open spec fn dispatch(self, live: TaskContextView) -> SchedulerView {
        let h = self.ready_queue[0];
        SchedulerView {
            tasks: self.tasks.update(
                h as int,
                TaskView { task_status: TaskStatus::Running, ..self.tasks[h as int] },
            ),
            ready_queue: self.ready_queue.subrange(1, self.ready_queue.len() as int),
            current: Some(h),
            idle_task_cx: live,
        }
    }

    /// The scheduler after the registers `live` were saved for task `h`.
    pub open spec fn park(self, h: usize, live: TaskContextView) -> SchedulerView {
        self.with_task(h, TaskView { task_cx: live, ..self.tasks[h as int] })
    }

    /// The scheduler after the running task was blocked to wait for
    /// `channel`: the processor holds no task.
    pub open spec fn block_current(self, channel: WaitChannel) -> SchedulerView {
        let c = self.current.unwrap();
        SchedulerView {
            tasks: self.tasks.update(
                c as int,
                TaskView {
                    task_status: TaskStatus::Blocked,
                    wait_channel: Some(channel),
                    ..self.tasks[c as int]
                },
            ),
            current: None,
            ..self
        }
    }

    /// The scheduler after the running task gave up the processor: it is
    /// ready and last in the ready queue.
    pub open spec fn suspend_current(self) -> SchedulerView {
        let c = self.current.unwrap();
        SchedulerView {
            tasks: self.tasks.update(
                c as int,
                TaskView { task_status: TaskStatus::Ready, ..self.tasks[c as int] },
            ),
            ready_queue: self.ready_queue.push(c),
            current: None,
            ..self
        }
    }

    /// The scheduler after the running task exited.
    pub open spec fn exit_current(self) -> SchedulerView {
        let c = self.current.unwrap();
        SchedulerView {
            tasks: self.tasks.update(
                c as int,
                TaskView { task_status: TaskStatus::Exited, ..self.tasks[c as int] },
            ),
            current: None,
            ..self
        }
    }

    /// The scheduler after task `h` was woken: it waits for nothing, is
    /// ready, and is last in the ready queue.
    pub open spec fn wakeup(self, h: usize) -> SchedulerView {
        SchedulerView {
            tasks: self.tasks.update(
                h as int,
                TaskView {
                    task_status: TaskStatus::Ready,
                    wait_channel: None,
                    ..self.tasks[h as int]
                },
            ),
            ready_queue: self.ready_queue.push(h),
            ..self
        }
    }

    /// The record of the running task.
    pub open spec fn current_task(self) -> TaskView {
        self.tasks[self.current.unwrap() as int]
    }

    /// The same scheduler with `task` as the record of the running task.
    pub open spec fn with_current(self, task: TaskView) -> SchedulerView {
        self.with_task(self.current.unwrap(), task)
    }
}

impl Processor {
    /// A processor that runs no task, with a zeroed idle context.
    pub fn new() -> (p: Processor)
        ensures
            p.current == None::<usize>,
            p.idle_task_cx@ == TaskContextView::zero(),
    {
        Processor { current: None, idle_task_cx: TaskContext::zero_init() }
    }

    /// Gives up the running task: returns its handle and leaves none.
    pub fn take_current(&mut self) -> (h: Option<usize>)
        ensures
            h == old(self).current,
            final(self).current == None::<usize>,
            final(self).idle_task_cx == old(self).idle_task_cx,
    {
        self.current.take()
    }

    /// The handle of the running task.
    pub fn current(&self) -> (h: Option<usize>)
        ensures
            h == self.current,
    {
        self.current
    }

    /// The number of invocations of each system call by the running task;
    /// all zero when no task is running.
    pub fn get_syscall_times(&self, tasks: &Vec<TaskControlBlock>) -> (times: [u32;
        MAX_SYSCALL_NUM])
        requires
            self.current matches Some(c) ==> c < tasks.len(),
        ensures
            times@ == match self.current {
                Some(c) => tasks[c as int]@.syscall_times,
                None => Seq::new(MAX_SYSCALL_NUM as nat, |i: int| 0u32),
            },
    {
        match self.current {
            Some(c) => tasks[c].syscall_times,
            None => {
                let times = [0u32; MAX_SYSCALL_NUM];
                times
            },
        }
    }

    /// Counts one more invocation of system call `syscall_id` for the
    /// running task; does nothing when no task is running.
    pub fn cnt_syscall(&mut self, tasks: &mut Vec<TaskControlBlock>, syscall_id: usize)
        requires
            syscall_id < MAX_SYSCALL_NUM,
            old(self).current matches Some(c) ==> c < old(tasks).len() && old(
                tasks,
            )[c as int]@.syscall_times[syscall_id as int] < u32::MAX,
        ensures
            *final(self) == *old(self),
            views_of(final(tasks)@) == match old(self).current {
                Some(c) => views_of(old(tasks)@).update(
                    c as int,
                    old(tasks)[c as int]@.counted(syscall_id as int),
                ),
                None => views_of(old(tasks)@),
            },
    {
        match self.current {
            Some(c) => {
                tasks[c].syscall_times[syscall_id] += 1;
            },
            None => {},
        }
    }

    /// Maps `len` bytes at `start` in the running task's address space; see
    /// [`crate::mm::MemorySet::mmap`].
    pub fn mmap(
        &self,
        tasks: &mut Vec<TaskControlBlock>,
        start: usize,
        len: usize,
        port: usize,
    ) -> (r: isize)
        requires
            self.current matches Some(c) && c < old(tasks).len(),
            start + len <= usize::MAX,
        ensures
            r == if old(tasks)[self.current.unwrap() as int]@.memory.can_mmap(
                start as int,
                len as int,
                port as int,
            ) {
                0isize
            } else {
                -1isize
            },
            views_of(final(tasks)@) == views_of(old(tasks)@).update(
                self.current.unwrap() as int,
                TaskView {
                    memory: old(tasks)[self.current.unwrap() as int]@.memory.mmap(
                        start as int,
                        len as int,
                        port as int,
                    ),
                    ..old(tasks)[self.current.unwrap() as int]@
                },
            ),
    {
        let c = self.current.unwrap();
        let r = tasks[c].memory_set.mmap(start, len, port);
        r
    }

    /// Unmaps `len` bytes at `start` in the running task's address space; see
    /// [`crate::mm::MemorySet::munmap`].
    pub fn munmap(&self, tasks: &mut Vec<TaskControlBlock>, start: usize, len: usize) -> (r: isize)
        requires
            self.current matches Some(c) && c < old(tasks).len(),
            start + len <= usize::MAX,
        ensures
            r == if old(tasks)[self.current.unwrap() as int]@.memory.can_munmap(
                start as int,
                len as int,
            ) {
                0isize
            } else {
                -1isize
            },
            views_of(final(tasks)@) == views_of(old(tasks)@).update(
                self.current.unwrap() as int,
                TaskView {
                    memory: old(tasks)[self.current.unwrap() as int]@.memory.munmap(
                        start as int,
                        len as int,
                    ),
                    ..old(tasks)[self.current.unwrap() as int]@
                },
            ),
    {
        let c = self.current.unwrap();
        let r = tasks[c].memory_set.munmap(start, len);
        r
    }
}

impl Scheduler {
    /// A scheduler with no task.
    pub fn new() -> (s: Scheduler)
        ensures
            s@.wf(),
            s@.tasks.len() == 0,
            s@.ready_queue.len() == 0,
            s@.current == None::<usize>,
            s@.idle_task_cx == TaskContextView::zero(),
    {
        Scheduler { tasks: Vec::new(), ready_queue: VecDeque::new(), processor: Processor::new() }
    }

    /// Creates a task of process `pid` with id `tid` and puts it last in the
    /// ready queue. Returns its handle.
    pub fn spawn(&mut self, pid: usize, tid: usize) -> (h: usize)
        requires
            old(self)@.wf(),
        ensures
            h == old(self)@.tasks.len(),
            final(self)@ == old(self)@.spawn(pid, tid),
            final(self)@.wf(),
    {
        let h = self.tasks.len();
        self.tasks.push(TaskControlBlock::new(pid, tid));
        self.ready_queue.push_back(h);
        proof {
            assert(self@.tasks =~= old(self)@.spawn(pid, tid).tasks);
            vstd::std_specs::vec::axiom_spec_len(&self.tasks);
            lemma_push_fresh_handle(old(self)@, h);
        }
        h
    }

    /// Puts task `h` last in the ready queue. The state of the task is the
    /// caller's to set.
    pub fn add_task(&mut self, h: usize)
        ensures
            final(self)@ == (SchedulerView {
                ready_queue: old(self)@.ready_queue.push(h),
                ..old(self)@
            }),
    {
        self.ready_queue.push_back(h);
    }

    /// Takes the first task out of the ready queue. The state of the task is
    /// the caller's to set.
    pub fn fetch_task(&mut self) -> (h: Option<usize>)
        ensures
            h == if old(self)@.ready_queue.len() > 0 {
                Some(old(self)@.ready_queue[0])
            } else {
                None::<usize>
            },
            final(self)@ == (SchedulerView {
                ready_queue: if old(self)@.ready_queue.len() > 0 {
                    old(self)@.ready_queue.subrange(1, old(self)@.ready_queue.len() as int)
                } else {
                    old(self)@.ready_queue
                },
                ..old(self)@
            }),
    {
        let h = self.ready_queue.pop_front();
        h
    }

    /// Wakes the blocked task `h`: it becomes ready and goes last in the
    /// ready queue.
    pub fn wakeup_task(&mut self, h: usize)
        requires
            old(self)@.wf(),
            old(self)@.has_task(h),
            old(self)@.tasks[h as int].task_status == TaskStatus::Blocked,
        ensures
            final(self)@ == old(self)@.wakeup(h),
            final(self)@.wf(),
    {
        self.tasks[h].task_status = TaskStatus::Ready;
        self.tasks[h].wait_channel = None;
        self.ready_queue.push_back(h);
        proof {
            assert(self@.tasks =~= old(self)@.wakeup(h).tasks);
            lemma_wakeup_wf(old(self)@, h);
        }
    }

    /// Blocks the running task to wait for `channel`. The processor is left
    /// without a task, for the idle loop to dispatch the next one.
    pub fn block_current_and_run_next(&mut self, channel: WaitChannel)
        requires
            old(self)@.wf(),
            old(self)@.current is Some,
        ensures
            final(self)@ == old(self)@.block_current(channel),
            final(self)@.wf(),
    {
        let c = self.processor.take_current().unwrap();
        self.tasks[c].task_status = TaskStatus::Blocked;
        self.tasks[c].wait_channel = Some(channel);
        proof {
            assert(self@.tasks =~= old(self)@.block_current(channel).tasks);
        }
    }

    /// The running task gives up the processor and stays ready, last in the
    /// ready queue. The processor is left without a task.
    pub fn suspend_current_and_run_next(&mut self)
        requires
            old(self)@.wf(),
            old(self)@.current is Some,
        ensures
            final(self)@ == old(self)@.suspend_current(),
            final(self)@.wf(),
    {
        let c = self.processor.take_current().unwrap();
        self.tasks[c].task_status = TaskStatus::Ready;
        self.ready_queue.push_back(c);
        proof {
            assert(self@.tasks =~= old(self)@.suspend_current().tasks);
            lemma_suspend_wf(old(self)@);
        }
    }

    /// The running task exits. The processor is left without a task.
    pub fn exit_current_and_run_next(&mut self)
        requires
            old(self)@.wf(),
            old(self)@.current is Some,
        ensures
            final(self)@ == old(self)@.exit_current(),
            final(self)@.wf(),
    {
        let c = self.processor.take_current().unwrap();
        self.tasks[c].task_status = TaskStatus::Exited;
        proof {
            assert(self@.tasks =~= old(self)@.exit_current().tasks);
        }
    }
}

/// A new task keeps the scheduler well formed.
pub proof fn lemma_spawn_wf(s: SchedulerView, pid: usize, tid: usize)
    requires
        s.wf(),
        s.tasks.len() < usize::MAX,
    ensures
        s.spawn(pid, tid).wf(),
{
    lemma_push_fresh_handle(s, s.tasks.len() as usize);
}

/// A new task at the next free handle keeps the scheduler well formed.
proof fn lemma_push_fresh_handle(s: SchedulerView, h: usize)
    requires
        s.wf(),
        h == s.tasks.len(),
        s.tasks.len() < usize::MAX,
    ensures
        forall|pid: usize, tid: usize| (#[trigger] s.spawn(pid, tid)).wf(),
{
    assert forall|pid: usize, tid: usize| (#[trigger] s.spawn(pid, tid)).wf() by {
        let t = s.spawn(pid, tid);
        assert forall|k: int|
            0 <= k < t.tasks.len() && (#[trigger] t.tasks[k]).task_status
                == TaskStatus::Ready implies t.ready_queue.contains(k as usize) by {
            if k < s.tasks.len() {
                let i = choose|i: int| 0 <= i < s.ready_queue.len() && s.ready_queue[i] == k as usize;
                assert(t.ready_queue[i] == k as usize);
            } else {
                assert(t.ready_queue[s.ready_queue.len() as int] == k as usize);
            }
        }
    }
}

/// Waking a blocked task keeps the scheduler well formed.
pub proof fn lemma_wakeup_wf(s: SchedulerView, h: usize)
    requires
        s.wf(),
        s.has_task(h),
        s.tasks[h as int].task_status == TaskStatus::Blocked,
    ensures
        s.wakeup(h).wf(),
{
    let t = s.wakeup(h);
    lemma_push_ready(s, t, h);
}

/// Appending a task that just became ready, and was not in the ready queue,
/// keeps the ready queue's part of well-formedness.
proof fn lemma_push_ready(s: SchedulerView, t: SchedulerView, h: usize)
    requires
        s.wf(),
        s.has_task(h),
        !s.ready_queue.contains(h),
        s.tasks[h as int].task_status != TaskStatus::Ready,
        t.tasks.len() == s.tasks.len(),
        t.ready_queue == s.ready_queue.push(h),
        t.tasks[h as int].task_status == TaskStatus::Ready,
        t.tasks[h as int].wait_channel is None,
        t.tasks[h as int].wf(),
        forall|k: int| 0 <= k < s.tasks.len() && k != h ==> t.tasks[k] == s.tasks[k],
        t.current == if s.current == Some(h) {
            None
        } else {
            s.current
        },
    ensures
        t.wf(),
{
    assert forall|k: int|
        0 <= k < t.tasks.len() && (#[trigger] t.tasks[k]).task_status
            == TaskStatus::Ready implies t.ready_queue.contains(k as usize) by {
        if k != h {
            let i = choose|i: int| 0 <= i < s.ready_queue.len() && s.ready_queue[i] == k as usize;
            assert(t.ready_queue[i] == k as usize);
        } else {
            assert(t.ready_queue[s.ready_queue.len() as int] == h);
        }
    }
}

/// Suspending the running task keeps the scheduler well formed.
pub proof fn lemma_suspend_wf(s: SchedulerView)
    requires
        s.wf(),
        s.current is Some,
    ensures
        s.suspend_current().wf(),
{
    let c = s.current.unwrap();
    let t = s.suspend_current();
    lemma_push_ready(s, t, c);
}

/// Dispatching the first ready task keeps the scheduler well formed.
pub proof fn lemma_dispatch_wf(s: SchedulerView, live: TaskContextView)
    requires
        s.wf(),
        s.current is None,
        s.ready_queue.len() > 0,
    ensures
        s.dispatch(live).wf(),
{
    let t = s.dispatch(live);
    assert forall|k: int|
        0 <= k < t.tasks.len() && (#[trigger] t.tasks[k]).task_status
            == TaskStatus::Ready implies t.ready_queue.contains(k as usize) by {
        let i = choose|i: int| 0 <= i < s.ready_queue.len() && s.ready_queue[i] == k as usize;
        assert(t.ready_queue[i - 1] == k as usize);
    }
}

impl SchedulerView {
    /// Every task of `self` is in a state in `after` that may follow the
    /// state that it was in, and no task has gone.
    pub open spec fn may_become(self, after: SchedulerView) -> bool {
        &&& self.tasks.len() <= after.tasks.len()
        &&& forall|h: int|
            0 <= h < self.tasks.len() ==> (#[trigger] self.tasks[h]).task_status.may_become(
                after.tasks[h].task_status,
            )
    }
}

/// The steps of the scheduler move tasks between states only as the rules
/// of [`TaskStatus::may_become`] allow.
pub proof fn lemma_steps_follow_the_rules(
    s: SchedulerView,
    live: TaskContextView,
    channel: WaitChannel,
    h: usize,
    pid: usize,
    tid: usize,
)
    requires
        s.wf(),
    ensures
        s.may_become(s.spawn(pid, tid)),
        s.current is None && s.ready_queue.len() > 0 ==> s.may_become(s.dispatch(live)),
        s.current is Some ==> s.may_become(s.block_current(channel)) && s.may_become(
            s.suspend_current(),
        ) && s.may_become(s.exit_current()),
        s.has_task(h) && s.tasks[h as int].task_status == TaskStatus::Blocked ==> s.may_become(
            s.wakeup(h),
        ),
        s.has_task(h) ==> s.may_become(s.park(h, live)),
{
}

/// The number of invocations of each system call by the running task; all
/// zero when no task is running.
pub fn get_syscall_times(sched: &Scheduler) -> (times: [u32; MAX_SYSCALL_NUM])
    requires
        sched@.wf(),
    ensures
        times@ == match sched@.current {
            Some(c) => sched@.tasks[c as int].syscall_times,
            None => Seq::new(MAX_SYSCALL_NUM as nat, |i: int| 0u32),
        },
{
    sched.processor.get_syscall_times(&sched.tasks)
}

/// Counts one more invocation of system call `syscall_id` for the running
/// task; does nothing when no task is running.
pub fn cnt_syscall(sched: &mut Scheduler, syscall_id: usize)
    requires
        old(sched)@.wf(),
        syscall_id < MAX_SYSCALL_NUM,
        old(sched)@.current matches Some(c) ==> old(
            sched,
        )@.tasks[c as int].syscall_times[syscall_id as int] < u32::MAX,
    ensures
        final(sched)@ == match old(sched)@.current {
            Some(c) => old(sched)@.with_current(
                old(sched)@.current_task().counted(syscall_id as int),
            ),
            None => old(sched)@,
        },
        final(sched)@.wf(),
{
    sched.processor.cnt_syscall(&mut sched.tasks, syscall_id);
}

/// Maps `len` bytes at `start` in the running task's address space.
pub fn mmap(sched: &mut Scheduler, start: usize, len: usize, port: usize) -> (r: isize)
    requires
        old(sched)@.wf(),
        old(sched)@.current is Some,
        start + len <= usize::MAX,
    ensures
        r == if old(sched)@.current_task().memory.can_mmap(start as int, len as int, port as int) {
            0isize
        } else {
            -1isize
        },
        final(sched)@ == old(sched)@.with_current(
            TaskView {
                memory: old(sched)@.current_task().memory.mmap(
                    start as int,
                    len as int,
                    port as int,
                ),
                ..old(sched)@.current_task()
            },
        ),
        final(sched)@.wf(),
{
    sched.processor.mmap(&mut sched.tasks, start, len, port)
}

/// Unmaps `len` bytes at `start` in the running task's address space.
pub fn munmap(sched: &mut Scheduler, start: usize, len: usize) -> (r: isize)
    requires
        old(sched)@.wf(),
        old(sched)@.current is Some,
        start + len <= usize::MAX,
    ensures
        r == if old(sched)@.current_task().memory.can_munmap(start as int, len as int) {
            0isize
        } else {
            -1isize
        },
        final(sched)@ == old(sched)@.with_current(
            TaskView {
                memory: old(sched)@.current_task().memory.munmap(start as int, len as int),
                ..old(sched)@.current_task()
            },
        ),
        final(sched)@.wf(),
{
    sched.processor.munmap(&mut sched.tasks, start, len)
}

/// One round of the idle loop, which runs with the registers in `cx`.
///
/// If a task is ready, the first task of the ready queue is dispatched: it
/// is marked running, the processor holds it, the registers in `cx` are
/// saved for the idle loop, and the registers saved for the task are loaded
/// into `cx`. Returns the handle of the task. If no task is ready, returns
/// nothing and changes nothing.
pub fn run_tasks(sched: &mut Scheduler, cx: &mut TaskContext) -> (next: Option<usize>)
    requires
        old(sched)@.wf(),
        old(sched)@.current is None,
    ensures
        next == if old(sched)@.ready_queue.len() > 0 {
            Some(old(sched)@.ready_queue[0])
        } else {
            None::<usize>
        },
        final(sched)@ == if old(sched)@.ready_queue.len() > 0 {
            old(sched)@.dispatch(old(cx)@)
        } else {
            old(sched)@
        },
        final(cx)@ == if old(sched)@.ready_queue.len() > 0 {
            old(sched)@.tasks[old(sched)@.ready_queue[0] as int].task_cx
        } else {
            old(cx)@
        },
        final(sched)@.wf(),
{
    match sched.fetch_task() {
        Some(h) => {
            sched.tasks[h].task_status = TaskStatus::Running;
            sched.processor.current = Some(h);
            sched.processor.idle_task_cx = *cx;
            *cx = sched.tasks[h].task_cx;
            proof {
                assert(sched@.tasks =~= old(sched)@.dispatch(old(cx)@).tasks);
                lemma_dispatch_wf(old(sched)@, old(cx)@);
            }
            Some(h)
        },
        None => None,
    }
}

/// Goes back to the idle loop from task `h`, which runs with the registers
/// in `cx` and has left the processor: the registers are saved for the
/// task, and those saved for the idle loop are loaded into `cx`.
pub fn schedule(sched: &mut Scheduler, h: usize, cx: &mut TaskContext)
    requires
        old(sched)@.has_task(h),
    ensures
        final(sched)@ == old(sched)@.park(h, old(cx)@),
        final(cx)@ == old(sched)@.idle_task_cx,
        old(sched)@.wf() ==> final(sched)@.wf(),
{
    sched.tasks[h].task_cx = *cx;
    *cx = sched.processor.idle_task_cx;
    proof {
        assert(sched@.tasks =~= old(sched)@.park(h, old(cx)@).tasks);
    }
}

/// A task resumes with the registers that were saved for it when it went
/// back to the idle loop, and the idle loop with those that were saved for
/// it when it dispatched a task.
pub proof fn lemma_resumes_where_saved(
    s: SchedulerView,
    h: usize,
    task_live: TaskContextView,
    idle_live: TaskContextView,
)
    requires
        s.wf(),
        s.has_task(h),
    ensures
        s.park(h, task_live).tasks[h as int].task_cx == task_live,
        s.park(h, task_live).idle_task_cx == s.idle_task_cx,
        forall|k: int|
            0 <= k < s.tasks.len() && k != h ==> (#[trigger] s.park(h, task_live).tasks[k])
                == s.tasks[k],
        s.dispatch(idle_live).idle_task_cx == idle_live,
        s.ready_queue.len() > 0 ==> forall|k: int|
            0 <= k < s.tasks.len() ==> (#[trigger] s.dispatch(idle_live).tasks[k]).task_cx
                == s.tasks[k].task_cx,
{
}

/// The processor gives up its task, whose record is left as it is. Returns
/// the task's handle.
pub fn take_current_task(sched: &mut Scheduler) -> (h: Option<usize>)
    ensures
        h == old(sched)@.current,
        final(sched)@ == old(sched)@.take_current(),
{
    sched.processor.take_current()
}

/// The handle of the running task.
pub fn current_task(sched: &Scheduler) -> (h: Option<usize>)
    ensures
        h == sched@.current,
{
    sched.processor.current()
}

/// The token of the running task's address space.
pub fn current_user_token(sched: &Scheduler) -> (token: usize)
    requires
        sched@.wf(),
        sched@.current is Some,
    ensures
        token == sched@.current_task().memory.token,
{
    let c = current_task(sched).unwrap();
    sched.tasks[c].memory_set.token()
}

/// The trap context of the running task, for reading and writing.
pub fn current_trap_cx(sched: &mut Scheduler) -> (cx: &mut TrapContext)
    requires
        old(sched)@.wf(),
        old(sched)@.current is Some,
    ensures
        cx@ == old(sched)@.current_task().trap_cx,
        final(sched)@ == old(sched)@.with_current(
            TaskView { trap_cx: final(cx)@, ..old(sched)@.current_task() },
        ),
{
    let c = sched.processor.current().unwrap();
    let cx = &mut sched.tasks[c].trap_cx;
    proof {
        assert(after_borrow(sched)@.tasks =~= old(sched)@.with_current(
            TaskView { trap_cx: final(cx)@, ..old(sched)@.current_task() },
        ).tasks);
    }
    cx
}

} // verus!
