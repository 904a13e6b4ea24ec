//! The whole state of the kernel's scheduling and synchronization core: the
//! scheduler, the processes and the pending wake-up requests.
//!
//! What each call does to this state is defined in [`steps`]; that every
//! call keeps the state well formed is shown in [`consistency`]; what follows
//! for the life of a task is stated in [`laws`].

pub mod consistency;
pub mod laws;
pub mod steps;

use crate::kernel::consistency::{
    lemma_add_process_wf, lemma_add_thread_wf, lemma_current, lemma_plain_change_wf,
    lemma_sched_step_wf, lemma_serve_timer_wf,
};
use crate::task::process::{ProcessControlBlock, ProcessView};
use crate::task::processor::{Scheduler, SchedulerView};
use crate::task::{TaskContext, TaskStatus, WaitChannel};
use vstd::prelude::*;

verus! {

/// A request to wake a task once the time has come.
#[derive(Clone, Copy, Debug, PartialEq, Eq, Structural)]
pub struct TimerCondVar {
    /// Time, in milliseconds, from which on the task is to be woken.
    pub expire_ms: usize,
    /// Handle of the task.
    pub task: usize,
}

/// The state of the kernel.
pub struct Kernel {
    /// Tasks, ready queue and processor.
    pub sched: Scheduler,
    /// The processes, by id.
    pub processes: Vec<ProcessControlBlock>,
    /// The pending wake-up requests, oldest first.
    pub timers: Vec<TimerCondVar>,
}

/// Mathematical form of a [`Kernel`].
pub ghost struct KernelView {
    pub sched: SchedulerView,
    pub processes: Seq<ProcessView>,
    pub timers: Seq<TimerCondVar>,
}

/// The views of the records in `processes`.
pub open spec fn process_views(processes: Seq<ProcessControlBlock>) -> Seq<ProcessView> {
    Seq::new(processes.len(), |i: int| processes[i]@)
}

impl View for Kernel {
    type V = KernelView;

    open spec fn view(&self) -> KernelView {
        KernelView {
            sched: self.sched@,
            processes: process_views(self.processes@),
            timers: self.timers@,
        }
    }
}

/// The need ledger of a task that waits for `channel`: one unit of the
/// semaphore that it waits for, and nothing where it waits for no semaphore.
pub open spec fn need_for(channel: Option<WaitChannel>) -> Seq<(usize, isize)> {
    match channel {
        Some(WaitChannel::Semaphore(sid)) => seq![(sid, 1isize)],
        _ => Seq::empty(),
    }
}

impl KernelView {
    /// The id of the process of the running task.
    pub open spec fn current_pid(self) -> usize {
        self.sched.current_task().pid
    }

    /// The process of the running task.
    pub open spec fn current_process(self) -> ProcessView {
        self.processes[self.current_pid() as int]
    }

    /// The same kernel with `process` as the process of the running task.
    pub open spec fn with_current_process(self, process: ProcessView) -> KernelView {
        KernelView {
            processes: self.processes.update(self.current_pid() as int, process),
            ..self
        }
    }

    /// The same kernel with scheduler `sched`.
    pub open spec fn with_sched(self, sched: SchedulerView) -> KernelView {
        KernelView { sched, ..self }
    }

    /// The record of task `h` agrees with its process: the process lists the
    /// task under its id; the task's need ledger holds the one unit that the
    /// task waits for, if it waits for a semaphore, and nothing else; and
    /// the semaphores that its ledgers name exist.
    pub open spec fn task_ok(self, h: int) -> bool {
        let task = self.sched.tasks[h];
        let process = self.processes[task.pid as int];
        &&& task.pid < self.processes.len()
        &&& task.tid < process.tasks.len()
        &&& process.tasks[task.tid as int] == Some(h as usize)
        &&& task.need == need_for(task.wait_channel)
        &&& forall|e: int|
            0 <= e < task.allocation.len() ==> process.has_semaphore(
                (#[trigger] task.allocation[e]).0,
            )
        &&& task.wait_channel matches Some(WaitChannel::Semaphore(sid)) ==> process.has_semaphore(
            sid,
        )
    }

    /// The tasks with a pending wake-up request are blocked and wait for
    /// the timer, and no task has two requests.
    pub open spec fn sleepers_ok(self) -> bool {
        &&& forall|i: int|
            0 <= i < self.timers.len() ==> {
                &&& self.sched.has_task((#[trigger] self.timers[i]).task)
                &&& self.sched.tasks[self.timers[i].task as int].task_status
                    == TaskStatus::Blocked
                &&& self.sched.tasks[self.timers[i].task as int].wait_channel == Some(
                    WaitChannel::Timer,
                )
            }
        &&& forall|i: int, j: int|
            0 <= i < j < self.timers.len() ==> (#[trigger] self.timers[i]).task != (
            #[trigger] self.timers[j]).task
    }

    /// All records of the kernel agree with each other.
    pub open spec fn wf(self) -> bool {
        &&& self.sched.wf()
        &&& self.processes.len() <= usize::MAX
        &&& forall|pid: int|
            0 <= pid < self.processes.len() ==> (#[trigger] self.processes[pid]).pid == pid
                && self.processes[pid].wf(self.sched)
        &&& forall|h: int| 0 <= h < self.sched.tasks.len() ==> #[trigger] self.task_ok(h)
        &&& self.sleepers_ok()
    }

    /// The kernel is well formed and a task is running: the state in which
    /// a system call is made.
    pub open spec fn in_call(self) -> bool {
        &&& self.wf()
        &&& self.sched.current is Some
    }
}

impl Kernel {
    /// The handle of the running task and the id of its process.
    pub fn current_ids(&self) -> (ids: (usize, usize))
        requires
            self@.in_call(),
        ensures
            Some(ids.0) == self@.sched.current,
            ids.0 < self.sched.tasks.len(),
            ids.1 == self@.current_pid(),
            ids.1 < self.processes.len(),
            self@.sched.tasks[ids.0 as int] == self.sched.tasks[ids.0 as int]@,
            self@.processes[ids.1 as int] == self.processes[ids.1 as int]@,
    {
        proof {
            lemma_current(self@);
        }
        let cur = self.sched.processor.current().unwrap();
        let pid = self.sched.tasks[cur].pid;
        (cur, pid)
    }

    /// A kernel with no process and no task.
    pub fn new() -> (kernel: Kernel)
        ensures
            kernel@.wf(),
            kernel@.sched.tasks.len() == 0,
            kernel@.sched.ready_queue.len() == 0,
            kernel@.sched.current == None::<usize>,
            kernel@.processes.len() == 0,
            kernel@.timers.len() == 0,
    {
        Kernel { sched: Scheduler::new(), processes: Vec::new(), timers: Vec::new() }
    }

    /// Creates a process with one task, which is ready. Returns the id of
    /// the process.
    pub fn add_process(&mut self) -> (pid: usize)
        requires
            old(self)@.wf(),
        ensures
            pid == old(self)@.processes.len(),
            final(self)@ == old(self)@.add_process(),
            final(self)@.wf(),
    {
        let pid = self.processes.len();
        let h = self.sched.spawn(pid, 0);
        let mut process = ProcessControlBlock::new(pid);
        process.tasks.push(Some(h));
        self.processes.push(process);
        proof {
            vstd::std_specs::vec::axiom_spec_len(&self.processes);
            assert(self@.processes =~= old(self)@.add_process().processes);
            lemma_add_process_wf(old(self)@);
        }
        pid
    }

    /// Creates a task in process `pid`, which is ready. Returns its task id.
    pub fn add_thread(&mut self, pid: usize) -> (tid: usize)
        requires
            old(self)@.wf(),
            pid < old(self)@.processes.len(),
        ensures
            tid == old(self)@.processes[pid as int].tasks.len(),
            final(self)@ == old(self)@.add_thread(pid),
            final(self)@.wf(),
    {
        let tid = self.processes[pid].tasks.len();
        let h = self.sched.spawn(pid, tid);
        self.processes[pid].tasks.push(Some(h));
        proof {
            vstd::std_specs::vec::axiom_spec_len(&self.processes[pid as int].tasks);
            assert(self@.processes =~= old(self)@.add_thread(pid).processes);
            lemma_add_thread_wf(old(self)@, pid);
        }
        tid
    }

    /// The handle of the task with id `tid` of process `pid`, if there is
    /// such a task.
    pub fn task_handle(&self, pid: usize, tid: usize) -> (h: Option<usize>)
        ensures
            h == if pid < self@.processes.len() && tid < self@.processes[pid as int].tasks.len() {
                self@.processes[pid as int].tasks[tid as int]
            } else {
                None::<usize>
            },
    {
        if pid < self.processes.len() {
            if tid < self.processes[pid].tasks.len() {
                return self.processes[pid].tasks[tid];
            }
        }
        None
    }

    /// Serves every wake-up request that is due at time `now_ms`, oldest
    /// first: the request is dropped and its task is woken.
    pub fn check_timer(&mut self, now_ms: usize)
        requires
            old(self)@.wf(),
        ensures
            final(self)@ == old(self)@.check_timer(now_ms),
            final(self)@.wf(),
    {
        let mut i: usize = 0;
        while i < self.timers.len()
            invariant
                self@.wf(),
                self@.expire_from(now_ms, i as int) == old(self)@.check_timer(now_ms),
            decreases self.timers.len() - i,
        {
            if self.timers[i].expire_ms <= now_ms {
                proof {
                    lemma_serve_timer_wf(self@, i as int);
                }
                let timer = self.timers.remove(i);
                self.sched.wakeup_task(timer.task);
            } else {
                i += 1;
            }
        }
    }

    /// One round of the idle loop; see [`crate::task::processor::run_tasks`].
    pub fn run_tasks(&mut self, cx: &mut TaskContext) -> (next: Option<usize>)
        requires
            old(self)@.wf(),
            old(self)@.sched.current is None,
        ensures
            next == if old(self)@.sched.ready_queue.len() > 0 {
                Some(old(self)@.sched.ready_queue[0])
            } else {
                None::<usize>
            },
            final(self)@ == if old(self)@.sched.ready_queue.len() > 0 {
                old(self)@.with_sched(old(self)@.sched.dispatch(old(cx)@))
            } else {
                old(self)@
            },
            final(cx)@ == if old(self)@.sched.ready_queue.len() > 0 {
                old(self)@.sched.tasks[old(self)@.sched.ready_queue[0] as int].task_cx
            } else {
                old(cx)@
            },
            final(self)@.wf(),
    {
        let next = crate::task::processor::run_tasks(&mut self.sched, cx);
        proof {
            if old(self)@.sched.ready_queue.len() > 0 {
                let h = old(self)@.sched.ready_queue[0];
                lemma_sched_step_wf(old(self)@, self@.sched, h);
            }
        }
        next
    }

    /// Goes back to the idle loop from task `h`; see
    /// [`crate::task::processor::schedule`].
    pub fn schedule(&mut self, h: usize, cx: &mut TaskContext)
        requires
            old(self)@.wf(),
            old(self)@.sched.has_task(h),
        ensures
            final(self)@ == old(self)@.with_sched(old(self)@.sched.park(h, old(cx)@)),
            final(cx)@ == old(self)@.sched.idle_task_cx,
            final(self)@.wf(),
    {
        crate::task::processor::schedule(&mut self.sched, h, cx);
        proof {
            lemma_plain_change_wf(old(self)@, self@.sched, h);
        }
    }

    /// The running task gives up the processor and stays ready, last in the
    /// ready queue.
    pub fn suspend_current_and_run_next(&mut self)
        requires
            old(self)@.in_call(),
        ensures
            final(self)@ == old(self)@.with_sched(old(self)@.sched.suspend_current()),
            final(self)@.wf(),
    {
        self.sched.suspend_current_and_run_next();
        proof {
            lemma_sched_step_wf(old(self)@, self@.sched, old(self)@.sched.current.unwrap());
        }
    }

    /// The running task exits. Its record stays, so that ids and handles
    /// keep their meaning.
    pub fn exit_current_and_run_next(&mut self)
        requires
            old(self)@.in_call(),
        ensures
            final(self)@ == old(self)@.with_sched(old(self)@.sched.exit_current()),
            final(self)@.wf(),
    {
        self.sched.exit_current_and_run_next();
        proof {
            lemma_sched_step_wf(old(self)@, self@.sched, old(self)@.sched.current.unwrap());
        }
    }
}

} // verus!
