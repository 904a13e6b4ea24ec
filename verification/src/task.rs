//! Tasks and the simple task manager: a table of all tasks and a cursor that
//! goes round it.

pub mod process;
pub mod processor;

use crate::config::MAX_SYSCALL_NUM;
use crate::mm::{MemorySet, MemoryView};
use crate::sync::ledger::{distinct_ids, positive};
use vstd::prelude::*;

verus! {

/// Scheduling state of a task.
#[derive(Clone, Copy, Debug, PartialEq, Eq, Structural)]
pub enum TaskStatus {
    /// Waiting for the processor.
    Ready,
    /// On the processor.
    Running,
    /// Waiting to be woken.
    Blocked,
    /// Finished; the record stays so that ids keep their meaning.
    Exited,
}

impl TaskStatus {
    /// A task in state `self` may next be found in state `after`: it is in
    /// the same state still, or it went from ready to running, from running
    /// to ready, blocked or exited, or from blocked to ready. An exited task
    /// stays exited.
    pub open spec fn may_become(self, after: TaskStatus) -> bool {
        ||| self == after
        ||| self == TaskStatus::Ready && after == TaskStatus::Running
        ||| self == TaskStatus::Running && after == TaskStatus::Ready
        ||| self == TaskStatus::Running && after == TaskStatus::Blocked
        ||| self == TaskStatus::Running && after == TaskStatus::Exited
        ||| self == TaskStatus::Blocked && after == TaskStatus::Ready
    }
}

/// What a blocked task waits for. The ids are those of the task's process.
#[derive(Clone, Copy, Debug, PartialEq, Eq, Structural)]
pub enum WaitChannel {
    /// The mutex with this id.
    Mutex(usize),
    /// The semaphore with this id.
    Semaphore(usize),
    /// The condition variable with this id.
    Condvar(usize),
    /// The timer.
    Timer,
}

/// Registers that a context switch saves and restores.
#[derive(Clone, Copy, Debug)]
pub struct TaskContext {
    /// Return address.
    pub ra: usize,
    /// Stack pointer.
    pub sp: usize,
    /// Callee-saved registers.
    pub s: [usize; 12],
}

/// Mathematical form of a [`TaskContext`].
pub ghost struct TaskContextView {
    pub ra: usize,
    pub sp: usize,
    pub s: Seq<usize>,
}

impl View for TaskContext {
    type V = TaskContextView;

    open spec fn view(&self) -> TaskContextView {
        TaskContextView { ra: self.ra, sp: self.sp, s: self.s@ }
    }
}

impl TaskContextView {
    /// The context with every register zero.
    pub open spec fn zero() -> TaskContextView {
        TaskContextView { ra: 0, sp: 0, s: Seq::new(12, |i: int| 0usize) }
    }
}

impl TaskContext {
    /// A context with every register zero.
    pub fn zero_init() -> (cx: TaskContext)
        ensures
            cx@ == TaskContextView::zero(),
    {
        let cx = TaskContext { ra: 0, sp: 0, s: [0; 12] };
        assert(cx@.s =~= TaskContextView::zero().s);
        cx
    }
}

/// User-mode registers as they were at the last entry into the kernel.
#[derive(Clone, Copy, Debug)]
pub struct TrapContext {
    /// General registers.
    pub x: [usize; 32],
    /// Status register.
    pub sstatus: usize,
    /// Address at which user code resumes.
    pub sepc: usize,
}

/// Mathematical form of a [`TrapContext`].
pub ghost struct TrapContextView {
    pub x: Seq<usize>,
    pub sstatus: usize,
    pub sepc: usize,
}

impl View for TrapContext {
    type V = TrapContextView;

    open spec fn view(&self) -> TrapContextView {
        TrapContextView { x: self.x@, sstatus: self.sstatus, sepc: self.sepc }
    }
}

impl TrapContextView {
    /// The trap context with every register zero.
    pub open spec fn zero() -> TrapContextView {
        TrapContextView { x: Seq::new(32, |i: int| 0usize), sstatus: 0, sepc: 0 }
    }
}

impl TrapContext {
    /// A trap context with every register zero.
    pub fn zero_init() -> (cx: TrapContext)
        ensures
            cx@ == TrapContextView::zero(),
    {
        let cx = TrapContext { x: [0; 32], sstatus: 0, sepc: 0 };
        assert(cx@.x =~= TrapContextView::zero().x);
        cx
    }
}

/// The record of one task.
pub struct TaskControlBlock {
    /// Id of the process that owns the task.
    pub pid: usize,
    /// Id of the task inside its process.
    pub tid: usize,
    /// Scheduling state.
    pub task_status: TaskStatus,
    /// Saved registers, owned by the task while it is not running.
    pub task_cx: TaskContext,
    /// User-mode registers at the last entry into the kernel.
    pub trap_cx: TrapContext,
    /// Number of invocations of each system call.
    pub syscall_times: [u32; MAX_SYSCALL_NUM],
    /// Units held, as (semaphore id, count) pairs.
    pub allocation: Vec<(usize, isize)>,
    /// Units requested and not yet granted, as (semaphore id, count) pairs.
    pub need: Vec<(usize, isize)>,
    /// What the task waits for while it is blocked.
    pub wait_channel: Option<WaitChannel>,
    /// The task's address space.
    pub memory_set: MemorySet,
}

/// Mathematical form of a [`TaskControlBlock`].
pub ghost struct TaskView {
    pub pid: usize,
    pub tid: usize,
    pub task_status: TaskStatus,
    pub task_cx: TaskContextView,
    pub trap_cx: TrapContextView,
    pub syscall_times: Seq<u32>,
    pub allocation: Seq<(usize, isize)>,
    pub need: Seq<(usize, isize)>,
    pub wait_channel: Option<WaitChannel>,
    pub memory: MemoryView,
}

impl View for TaskControlBlock {
    type V = TaskView;

    open spec fn view(&self) -> TaskView {
        TaskView {
            pid: self.pid,
            tid: self.tid,
            task_status: self.task_status,
            task_cx: self.task_cx@,
            trap_cx: self.trap_cx@,
            syscall_times: self.syscall_times@,
            allocation: self.allocation@,
            need: self.need@,
            wait_channel: self.wait_channel,
            memory: self.memory_set@,
        }
    }
}

impl TaskView {
    /// The record is well formed: each ledger names a semaphore at most once
    /// and holds no empty entry, and every system call has its counter.
    pub open spec fn wf(self) -> bool {
        &&& distinct_ids(self.allocation)
        &&& positive(self.allocation)
        &&& distinct_ids(self.need)
        &&& positive(self.need)
        &&& self.syscall_times.len() == MAX_SYSCALL_NUM
    }

    /// The record of a task that was just created.
    pub open spec fn fresh(pid: usize, tid: usize) -> TaskView {
        TaskView {
            pid,
            tid,
            task_status: TaskStatus::Ready,
            task_cx: TaskContextView::zero(),
            trap_cx: TrapContextView::zero(),
            syscall_times: Seq::new(MAX_SYSCALL_NUM as nat, |i: int| 0u32),
            allocation: Seq::empty(),
            need: Seq::empty(),
            wait_channel: None,
            memory: MemoryView { token: 0, pages: Map::empty(), heap_bottom: 0, program_brk: 0 },
        }
    }

    /// The same record with system call `id` counted once more.
    pub open spec fn counted(self, id: int) -> TaskView {
        TaskView {
            syscall_times: self.syscall_times.update(id, (self.syscall_times[id] + 1) as u32),
            ..self
        }
    }
}

/// The views of the records in `tasks`.
pub open spec fn views_of(tasks: Seq<TaskControlBlock>) -> Seq<TaskView> {
    Seq::new(tasks.len(), |i: int| tasks[i]@)
}

impl TaskControlBlock {
    /// The record of a new task: ready, with zeroed registers, no system call
    /// counted, empty ledgers and an empty address space.
    pub fn new(pid: usize, tid: usize) -> (task: TaskControlBlock)
        ensures
            task@ == TaskView::fresh(pid, tid),
            task@.wf(),
    {
        let task = TaskControlBlock {
            pid,
            tid,
            task_status: TaskStatus::Ready,
            task_cx: TaskContext::zero_init(),
            trap_cx: TrapContext::zero_init(),
            syscall_times: [0; MAX_SYSCALL_NUM],
            allocation: Vec::new(),
            need: Vec::new(),
            wait_channel: None,
            memory_set: MemorySet::new_bare(0),
        };
        assert(task@.syscall_times =~= Seq::new(MAX_SYSCALL_NUM as nat, |i: int| 0u32));
        task
    }
}

/// The simple task manager: every task of the kernel, and the index of the
/// task that has the processor.
pub struct TaskManager {
    /// Number of tasks.
    pub num_app: usize,
    /// The tasks, by id.
    pub tasks: Vec<TaskControlBlock>,
    /// Id of the task that has the processor.
    pub current_task: usize,
}

/// Mathematical form of a [`TaskManager`].
pub ghost struct TaskManagerView {
    pub num_app: int,
    pub tasks: Seq<TaskView>,
    pub current_task: int,
}

impl View for TaskManager {
    type V = TaskManagerView;

    open spec fn view(&self) -> TaskManagerView {
        TaskManagerView {
            num_app: self.num_app as int,
            tasks: views_of(self.tasks@),
            current_task: self.current_task as int,
        }
    }
}

/// The id that comes `k` places after `current` when going round `n` ids:
/// `current + k` modulo `n`, for `current` below `n` and `k` up to `n`.
pub open spec fn slot_after(current: int, k: int, n: int) -> int {
    if current + k < n {
        current + k
    } else {
        current + k - n
    }
}

/// How many places after `current` the id `id` comes when going round `n`
/// ids; the current id itself comes last, `n` places after.
pub open spec fn rank_of(current: int, id: int, n: int) -> int {
    if id > current {
        id - current
    } else {
        id - current + n
    }
}

impl TaskManagerView {
    /// There is a task, the cursor is on one, and every record is well formed.
    pub open spec fn wf(self) -> bool {
        &&& self.num_app == self.tasks.len()
        &&& 0 <= self.current_task < self.num_app
        &&& forall|i: int| 0 <= i < self.tasks.len() ==> (#[trigger] self.tasks[i]).wf()
    }

    /// The task `k` places after the current one is ready.
    pub open spec fn ready_at(self, k: int) -> bool {
        self.tasks[slot_after(self.current_task, k, self.num_app)].task_status
            == TaskStatus::Ready
    }

    /// The task `k` places after the current one is ready and no task before
    /// it, going round from the one after the current task, is.
    pub open spec fn is_first_rank(self, k: int) -> bool {
        &&& 1 <= k <= self.num_app
        &&& self.ready_at(k)
        &&& forall|j: int| 1 <= j < k ==> !#[trigger] self.ready_at(j)
    }

    /// Some task is ready.
    pub open spec fn has_ready(self) -> bool {
        exists|i: int|
            0 <= i < self.tasks.len() && (#[trigger] self.tasks[i]).task_status
                == TaskStatus::Ready
    }

    /// The next task to run: the first ready task met when going round the
    /// table from the task after the current one, the current task last.
    pub open spec fn next_task(self) -> Option<int> {
        if self.has_ready() {
            Some(
                slot_after(
                    self.current_task,
                    choose|k: int| self.is_first_rank(k),
                    self.num_app,
                ),
            )
        } else {
            None
        }
    }

    /// The same table with `task` in place of the record with id `id`.
    pub open spec fn with_task(self, id: int, task: TaskView) -> TaskManagerView {
        TaskManagerView { tasks: self.tasks.update(id, task), ..self }
    }

    /// The same table with the current task in state `status`.
    pub open spec fn mark_current(self, status: TaskStatus) -> TaskManagerView {
        self.with_task(
            self.current_task,
            TaskView { task_status: status, ..self.tasks[self.current_task] },
        )
    }

    /// The table after the first task was started.
    pub open spec fn run_first(self) -> TaskManagerView {
        self.with_task(0, TaskView { task_status: TaskStatus::Running, ..self.tasks[0] })
    }

    /// The table after the registers `live` were saved for the current task.
    pub open spec fn save_current(self, live: TaskContextView) -> TaskManagerView {
        self.with_task(
            self.current_task,
            TaskView { task_cx: live, ..self.tasks[self.current_task] },
        )
    }

    /// The table after a switch to the next task, made with the registers
    /// `live`: these are saved for the task that was current; the next task
    /// is running and the cursor is on it.
    pub open spec fn run_next(self, live: TaskContextView) -> TaskManagerView {
        let next = self.next_task().unwrap();
        let saved = self.save_current(live);
        TaskManagerView {
            current_task: next,
            ..saved.with_task(
                next,
                TaskView { task_status: TaskStatus::Running, ..saved.tasks[next] },
            )
        }
    }

    /// The registers with which the next task resumes after a switch made
    /// with the registers `live`: those that were saved for it last.
    pub open spec fn resumed(self, live: TaskContextView) -> TaskContextView {
        self.save_current(live).tasks[self.next_task().unwrap()].task_cx
    }

    /// The table after one switch to the next task for each entry of
    /// `lives`, made with these registers, in their order.
    pub open spec fn run_next_times(self, lives: Seq<TaskContextView>) -> TaskManagerView
        decreases lives.len(),
    {
        if lives.len() == 0 {
            self
        } else {
            self.run_next_times(lives.drop_last()).run_next(lives.last())
        }
    }
}

/// Only one rank is the first at which a task is ready.
pub proof fn lemma_first_rank_unique(tm: TaskManagerView, k: int)
    requires
        tm.wf(),
        tm.is_first_rank(k),
    ensures
        tm.has_ready(),
        tm.next_task() == Some(slot_after(tm.current_task, k, tm.num_app)),
{
}

impl TaskManager {
    /// A task manager for `num_app` new tasks, with the cursor on the first.
    pub fn new(num_app: usize) -> (tm: TaskManager)
        requires
            num_app > 0,
        ensures
            tm@.wf(),
            tm@.num_app == num_app,
            tm@.current_task == 0,
            tm@.tasks == Seq::new(num_app as nat, |i: int| TaskView::fresh(i as usize, 0)),
    {
        let mut tasks: Vec<TaskControlBlock> = Vec::new();
        let mut i: usize = 0;
        while i < num_app
            invariant
                i <= num_app,
                tasks.len() == i,
                forall|j: int| 0 <= j < i ==> (#[trigger] tasks[j])@ == TaskView::fresh(j as usize, 0),
                forall|j: int| 0 <= j < i ==> (#[trigger] tasks[j])@.wf(),
            decreases num_app - i,
        {
            tasks.push(TaskControlBlock::new(i, 0));
            i += 1;
        }
        let tm = TaskManager { num_app, tasks, current_task: 0 };
        tm
    }

    /// Starts the first task: marks it running and loads the registers saved
    /// for it into `cx`, whose former content is dropped. Returns the id of
    /// the task.
    pub fn run_first_task(&mut self, cx: &mut TaskContext) -> (first: usize)
        requires
            old(self)@.wf(),
        ensures
            first == 0,
            final(self)@ == old(self)@.run_first(),
            final(cx)@ == old(self)@.tasks[0].task_cx,
            final(self)@.wf(),
    {
        self.tasks[0].task_status = TaskStatus::Running;
        *cx = self.tasks[0].task_cx;
        assert(self@.tasks =~= old(self)@.run_first().tasks);
        0
    }

    /// Marks the current task ready.
    pub fn mark_current_suspended(&mut self)
        requires
            old(self)@.wf(),
        ensures
            final(self)@ == old(self)@.mark_current(TaskStatus::Ready),
            final(self)@.wf(),
    {
        let cur = self.current_task;
        self.tasks[cur].task_status = TaskStatus::Ready;
        assert(self@.tasks =~= old(self)@.mark_current(TaskStatus::Ready).tasks);
    }

    /// Marks the current task exited.
    pub fn mark_current_exited(&mut self)
        requires
            old(self)@.wf(),
        ensures
            final(self)@ == old(self)@.mark_current(TaskStatus::Exited),
            final(self)@.wf(),
    {
        let cur = self.current_task;
        self.tasks[cur].task_status = TaskStatus::Exited;
        assert(self@.tasks =~= old(self)@.mark_current(TaskStatus::Exited).tasks);
    }

    /// The id of the next task to run, or nothing when no task is ready.
    pub fn find_next_task(&self) -> (next: Option<usize>)
        requires
            self@.wf(),
        ensures
            match next {
                Some(id) => self@.next_task() == Some(id as int) && id < self.num_app,
                None => self@.next_task().is_none(),
            },
    {
        let n = self.num_app;
        let current = self.current_task;
        let mut k: usize = 1;
        while k <= n
            invariant
                1 <= k <= n,
                n == self.num_app,
                current == self.current_task,
                self@.wf(),
                forall|j: int| 1 <= j < k ==> !#[trigger] self@.ready_at(j),
            decreases n + 1 - k,
        {
            let id = if k < n - current {
                current + k
            } else {
                k - (n - current)
            };
            if self.tasks[id].task_status == TaskStatus::Ready {
                proof {
                    lemma_first_rank_unique(self@, k as int);
                }
                return Some(id);
            }
            if k == n {
                proof {
                    assert forall|i: int| 0 <= i < self@.tasks.len() implies (
                    #[trigger] self@.tasks[i]).task_status != TaskStatus::Ready by {
                        let r = rank_of(current as int, i, n as int);
                        assert(!self@.ready_at(r));
                    }
                }
                return None;
            }
            k += 1;
        }
        None
    }

    /// The token of the current task's address space.
    pub fn get_current_token(&self) -> (token: usize)
        requires
            self@.wf(),
        ensures
            token == self@.tasks[self@.current_task].memory.token,
    {
        self.tasks[self.current_task].memory_set.token()
    }

    /// The trap context of the current task, for reading and writing.
    pub fn get_current_trap_cx(&mut self) -> (cx: &mut TrapContext)
        requires
            old(self)@.wf(),
        ensures
            cx@ == old(self)@.tasks[old(self)@.current_task].trap_cx,
            final(self)@ == old(self)@.with_task(
                old(self)@.current_task,
                TaskView {
                    trap_cx: final(cx)@,
                    ..old(self)@.tasks[old(self)@.current_task]
                },
            ),
    {
        let cur = self.current_task;
        let cx = &mut self.tasks[cur].trap_cx;
        proof {
            assert(after_borrow(self)@.tasks =~= old(self)@.with_task(
                old(self)@.current_task,
                TaskView {
                    trap_cx: final(cx)@,
                    ..old(self)@.tasks[old(self)@.current_task]
                },
            ).tasks);
        }
        cx
    }

    /// Moves the end of the current task's heap by `size` bytes. Returns the
    /// new end, or nothing, with no change, when the request is invalid.
    pub fn change_current_program_brk(&mut self, size: i32) -> (r: Option<usize>)
        requires
            old(self)@.wf(),
        ensures
            r == old(self)@.tasks[old(self)@.current_task].memory.moved_brk(size as int),
            final(self)@ == old(self)@.with_task(
                old(self)@.current_task,
                TaskView {
                    memory: old(self)@.tasks[old(self)@.current_task].memory.change_program_brk(
                        size as int,
                    ),
                    ..old(self)@.tasks[old(self)@.current_task]
                },
            ),
            final(self)@.wf(),
    {
        let cur = self.current_task;
        let r = self.tasks[cur].memory_set.change_program_brk(size);
        assert(self@.tasks =~= old(self)@.with_task(
            old(self)@.current_task,
            TaskView {
                memory: old(self)@.tasks[old(self)@.current_task].memory.change_program_brk(
                    size as int,
                ),
                ..old(self)@.tasks[old(self)@.current_task]
            },
        ).tasks);
        r
    }

    /// Switches to the next task: marks it running, puts the cursor on it,
    /// saves the registers in `cx` for the task that was current, and loads
    /// into `cx` the registers saved for the next task. Returns the task
    /// that had the processor and the task that gets it.
    pub fn run_next_task(&mut self, cx: &mut TaskContext) -> (switch: (usize, usize))
        requires
            old(self)@.wf(),
            old(self)@.has_ready(),
        ensures
            switch.0 == old(self)@.current_task,
            Some(switch.1 as int) == old(self)@.next_task(),
            final(self)@ == old(self)@.run_next(old(cx)@),
            final(cx)@ == old(self)@.resumed(old(cx)@),
            final(self)@.wf(),
    {
        let current = self.current_task;
        let next = self.find_next_task().unwrap();
        self.tasks[next].task_status = TaskStatus::Running;
        self.current_task = next;
        self.tasks[current].task_cx = *cx;
        *cx = self.tasks[next].task_cx;
        assert(self@.tasks =~= old(self)@.run_next(old(cx)@).tasks);
        (current, next)
    }

    /// Counts one more invocation of system call `syscall_id` for the
    /// current task.
    pub fn cnt_syscall(&mut self, syscall_id: usize)
        requires
            old(self)@.wf(),
            syscall_id < MAX_SYSCALL_NUM,
            old(self)@.tasks[old(self)@.current_task].syscall_times[syscall_id as int] < u32::MAX,
        ensures
            final(self)@ == old(self)@.with_task(
                old(self)@.current_task,
                old(self)@.tasks[old(self)@.current_task].counted(syscall_id as int),
            ),
            final(self)@.wf(),
    {
        let cur = self.current_task;
        self.tasks[cur].syscall_times[syscall_id] += 1;
        assert(self@.tasks =~= old(self)@.with_task(
            old(self)@.current_task,
            old(self)@.tasks[old(self)@.current_task].counted(syscall_id as int),
        ).tasks);
    }

    /// The number of invocations of each system call by the current task.
    pub fn get_syscall_times(&self) -> (times: [u32; MAX_SYSCALL_NUM])
        requires
            self@.wf(),
        ensures
            times@ == self@.tasks[self@.current_task].syscall_times,
    {
        self.tasks[self.current_task].syscall_times
    }

    /// Maps `len` bytes at `start` in the current task's address space; see
    /// [`MemorySet::mmap`].
    pub fn mmap(&mut self, start: usize, len: usize, port: usize) -> (r: isize)
        requires
            old(self)@.wf(),
            start + len <= usize::MAX,
        ensures
            r == if old(self)@.tasks[old(self)@.current_task].memory.can_mmap(
                start as int,
                len as int,
                port as int,
            ) {
                0isize
            } else {
                -1isize
            },
            final(self)@ == old(self)@.with_task(
                old(self)@.current_task,
                TaskView {
                    memory: old(self)@.tasks[old(self)@.current_task].memory.mmap(
                        start as int,
                        len as int,
                        port as int,
                    ),
                    ..old(self)@.tasks[old(self)@.current_task]
                },
            ),
            final(self)@.wf(),
    {
        let cur = self.current_task;
        let r = self.tasks[cur].memory_set.mmap(start, len, port);
        assert(self@.tasks =~= old(self)@.with_task(
            old(self)@.current_task,
            TaskView {
                memory: old(self)@.tasks[old(self)@.current_task].memory.mmap(
                    start as int,
                    len as int,
                    port as int,
                ),
                ..old(self)@.tasks[old(self)@.current_task]
            },
        ).tasks);
        r
    }

    /// Unmaps `len` bytes at `start` in the current task's address space; see
    /// [`MemorySet::munmap`].
    pub fn munmap(&mut self, start: usize, len: usize) -> (r: isize)
        requires
            old(self)@.wf(),
            start + len <= usize::MAX,
        ensures
            r == if old(self)@.tasks[old(self)@.current_task].memory.can_munmap(
                start as int,
                len as int,
            ) {
                0isize
            } else {
                -1isize
            },
            final(self)@ == old(self)@.with_task(
                old(self)@.current_task,
                TaskView {
                    memory: old(self)@.tasks[old(self)@.current_task].memory.munmap(
                        start as int,
                        len as int,
                    ),
                    ..old(self)@.tasks[old(self)@.current_task]
                },
            ),
            final(self)@.wf(),
    {
        let cur = self.current_task;
        let r = self.tasks[cur].memory_set.munmap(start, len);
        assert(self@.tasks =~= old(self)@.with_task(
            old(self)@.current_task,
            TaskView {
                memory: old(self)@.tasks[old(self)@.current_task].memory.munmap(
                    start as int,
                    len as int,
                ),
                ..old(self)@.tasks[old(self)@.current_task]
            },
        ).tasks);
        r
    }
}

/// The table after one switch for each entry of `lives`, from a table in
/// which every task is ready: the tasks at the first places after the first
/// cursor, as many as there were switches, are running; the others are
/// still ready; and the cursor is as many places on.
proof fn lemma_after_dispatches(tm: TaskManagerView, lives: Seq<TaskContextView>)
    requires
        tm.wf(),
        forall|i: int|
            0 <= i < tm.tasks.len() ==> (#[trigger] tm.tasks[i]).task_status == TaskStatus::Ready,
        lives.len() <= tm.num_app,
    ensures
        tm.run_next_times(lives).wf(),
        tm.run_next_times(lives).num_app == tm.num_app,
        tm.run_next_times(lives).current_task == slot_after(
            tm.current_task,
            lives.len() as int,
            tm.num_app,
        ),
        forall|j: int|
            1 <= j <= tm.num_app ==> (#[trigger] tm.run_next_times(lives).tasks[slot_after(
                tm.current_task,
                j,
                tm.num_app,
            )]).task_status == if j <= lives.len() {
                TaskStatus::Running
            } else {
                TaskStatus::Ready
            },
        lives.len() >= 1 ==> tm.run_next_times(lives.drop_last()).next_task() == Some(
            slot_after(tm.current_task, lives.len() as int, tm.num_app),
        ),
    decreases lives.len(),
{
    let n = tm.num_app;
    let c = tm.current_task;
    let k = lives.len() as int;
    if k > 0 {
        lemma_after_dispatches(tm, lives.drop_last());
        let s = tm.run_next_times(lives.drop_last());
        let next = slot_after(c, k, n);
        lemma_first_rank_unique(s, 1);
    }
}

/// Round-robin dispatch passes over every task once before it repeats.
///
/// From a table of `n` tasks that are all ready, the `k`-th switch in a
/// row, for `k` from 1 to `n`, goes to the task `k` places after the task
/// that was current at first, going round the table, whatever registers the
/// switches are made with. These `n` picks are `n` different tasks, so each
/// task is picked exactly once.
pub proof fn lemma_round_robin_visits_each_once(tm: TaskManagerView, lives: Seq<TaskContextView>)
    requires
        tm.wf(),
        forall|i: int|
            0 <= i < tm.tasks.len() ==> (#[trigger] tm.tasks[i]).task_status == TaskStatus::Ready,
        1 <= lives.len() <= tm.num_app,
    ensures
        tm.run_next_times(lives.drop_last()).next_task() == Some(
            slot_after(tm.current_task, lives.len() as int, tm.num_app),
        ),
        tm.run_next_times(lives).current_task == slot_after(
            tm.current_task,
            lives.len() as int,
            tm.num_app,
        ),
        0 <= slot_after(tm.current_task, lives.len() as int, tm.num_app) < tm.num_app,
        forall|other: int|
            1 <= other <= tm.num_app && other != lives.len() ==> #[trigger] slot_after(
                tm.current_task,
                other,
                tm.num_app,
            ) != slot_after(tm.current_task, lives.len() as int, tm.num_app),
        forall|id: int|
            0 <= id < tm.num_app ==> 1 <= #[trigger] rank_of(tm.current_task, id, tm.num_app)
                <= tm.num_app && slot_after(
                tm.current_task,
                rank_of(tm.current_task, id, tm.num_app),
                tm.num_app,
            ) == id,
{
    lemma_after_dispatches(tm, lives);
}

/// A task resumes with the registers that were saved for it when it gave
/// up the processor, unless it is the task that gives it up now, which
/// resumes with the registers of this very switch.
pub proof fn lemma_resumes_where_saved(tm: TaskManagerView, live: TaskContextView)
    requires
        tm.wf(),
        tm.has_ready(),
    ensures
        tm.run_next(live).tasks[tm.current_task].task_cx == live,
        tm.next_task().unwrap() != tm.current_task ==> tm.resumed(live)
            == tm.tasks[tm.next_task().unwrap()].task_cx,
        tm.next_task().unwrap() == tm.current_task ==> tm.resumed(live) == live,
        forall|i: int|
            0 <= i < tm.tasks.len() && i != tm.current_task ==> (
            #[trigger] tm.run_next(live).tasks[i]).task_cx == tm.tasks[i].task_cx,
{
    lemma_next_task_in_table(tm);
}

/// The next task, where there is one, is a task of the table.
pub proof fn lemma_next_task_in_table(tm: TaskManagerView)
    requires
        tm.wf(),
        tm.has_ready(),
    ensures
        0 <= tm.next_task().unwrap() < tm.num_app,
        tm.tasks[tm.next_task().unwrap()].task_status == TaskStatus::Ready,
{
    let i = choose|i: int|
        0 <= i < tm.tasks.len() && (#[trigger] tm.tasks[i]).task_status == TaskStatus::Ready;
    lemma_first_rank(tm, rank_of(tm.current_task, i, tm.num_app));
}

/// The first rank, at or before `upto`, at which a task is ready.
proof fn lemma_first_rank(tm: TaskManagerView, upto: int) -> (k: int)
    requires
        tm.wf(),
        1 <= upto <= tm.num_app,
        tm.ready_at(upto),
    ensures
        tm.is_first_rank(k),
    decreases upto,
{
    if exists|j: int| 1 <= j < upto && #[trigger] tm.ready_at(j) {
        let j = choose|j: int| 1 <= j < upto && #[trigger] tm.ready_at(j);
        lemma_first_rank(tm, j)
    } else {
        upto
    }
}

/// Unmaps `len` bytes at `start` in the current task's address space.
pub fn munmap(tm: &mut TaskManager, start: usize, len: usize) -> (r: isize)
    requires
        old(tm)@.wf(),
        start + len <= usize::MAX,
    ensures
        r == if old(tm)@.tasks[old(tm)@.current_task].memory.can_munmap(start as int, len as int) {
            0isize
        } else {
            -1isize
        },
        final(tm)@ == old(tm)@.with_task(
            old(tm)@.current_task,
            TaskView {
                memory: old(tm)@.tasks[old(tm)@.current_task].memory.munmap(
                    start as int,
                    len as int,
                ),
                ..old(tm)@.tasks[old(tm)@.current_task]
            },
        ),
        final(tm)@.wf(),
{
    tm.munmap(start, len)
}

/// Maps `len` bytes at `start` in the current task's address space.
pub fn mmap(tm: &mut TaskManager, start: usize, len: usize, port: usize) -> (r: isize)
    requires
        old(tm)@.wf(),
        start + len <= usize::MAX,
    ensures
        r == if old(tm)@.tasks[old(tm)@.current_task].memory.can_mmap(
            start as int,
            len as int,
            port as int,
        ) {
            0isize
        } else {
            -1isize
        },
        final(tm)@ == old(tm)@.with_task(
            old(tm)@.current_task,
            TaskView {
                memory: old(tm)@.tasks[old(tm)@.current_task].memory.mmap(
                    start as int,
                    len as int,
                    port as int,
                ),
                ..old(tm)@.tasks[old(tm)@.current_task]
            },
        ),
        final(tm)@.wf(),
{
    tm.mmap(start, len, port)
}

/// Counts one more invocation of system call `syscall_id` for the current task.
pub fn cnt_syscall(tm: &mut TaskManager, syscall_id: usize)
    requires
        old(tm)@.wf(),
        syscall_id < MAX_SYSCALL_NUM,
        old(tm)@.tasks[old(tm)@.current_task].syscall_times[syscall_id as int] < u32::MAX,
    ensures
        final(tm)@ == old(tm)@.with_task(
            old(tm)@.current_task,
            old(tm)@.tasks[old(tm)@.current_task].counted(syscall_id as int),
        ),
        final(tm)@.wf(),
{
    tm.cnt_syscall(syscall_id);
}

/// The number of invocations of each system call by the current task.
pub fn get_syscall_times(tm: &TaskManager) -> (times: [u32; MAX_SYSCALL_NUM])
    requires
        tm@.wf(),
    ensures
        times@ == tm@.tasks[tm@.current_task].syscall_times,
{
    tm.get_syscall_times()
}

/// Starts the first task; see [`TaskManager::run_first_task`].
pub fn run_first_task(tm: &mut TaskManager, cx: &mut TaskContext) -> (first: usize)
    requires
        old(tm)@.wf(),
    ensures
        first == 0,
        final(tm)@ == old(tm)@.run_first(),
        final(cx)@ == old(tm)@.tasks[0].task_cx,
        final(tm)@.wf(),
{
    tm.run_first_task(cx)
}

/// Switches to the next task; see [`TaskManager::run_next_task`].
pub fn run_next_task(tm: &mut TaskManager, cx: &mut TaskContext) -> (switch: (usize, usize))
    requires
        old(tm)@.wf(),
        old(tm)@.has_ready(),
    ensures
        switch.0 == old(tm)@.current_task,
        Some(switch.1 as int) == old(tm)@.next_task(),
        final(tm)@ == old(tm)@.run_next(old(cx)@),
        final(cx)@ == old(tm)@.resumed(old(cx)@),
        final(tm)@.wf(),
{
    tm.run_next_task(cx)
}

/// Marks the current task ready.
pub fn mark_current_suspended(tm: &mut TaskManager)
    requires
        old(tm)@.wf(),
    ensures
        final(tm)@ == old(tm)@.mark_current(TaskStatus::Ready),
        final(tm)@.wf(),
{
    tm.mark_current_suspended();
}

/// Marks the current task exited.
pub fn mark_current_exited(tm: &mut TaskManager)
    requires
        old(tm)@.wf(),
    ensures
        final(tm)@ == old(tm)@.mark_current(TaskStatus::Exited),
        final(tm)@.wf(),
{
    tm.mark_current_exited();
}

/// The current task gives up the processor and stays ready; the next ready
/// task, which may be the same one, gets it, by a switch made with the
/// registers in `cx`.
pub fn suspend_current_and_run_next(tm: &mut TaskManager, cx: &mut TaskContext) -> (switch: (
    usize,
    usize,
))
    requires
        old(tm)@.wf(),
    ensures
        switch.0 == old(tm)@.current_task,
        Some(switch.1 as int) == old(tm)@.mark_current(TaskStatus::Ready).next_task(),
        final(tm)@ == old(tm)@.mark_current(TaskStatus::Ready).run_next(old(cx)@),
        final(cx)@ == old(tm)@.mark_current(TaskStatus::Ready).resumed(old(cx)@),
        final(tm)@.wf(),
{
    mark_current_suspended(tm);
    assert(tm@.tasks[tm@.current_task].task_status == TaskStatus::Ready);
    run_next_task(tm, cx)
}

/// The current task exits; the next ready task gets the processor, by a
/// switch made with the registers in `cx`.
pub fn exit_current_and_run_next(tm: &mut TaskManager, cx: &mut TaskContext) -> (switch: (
    usize,
    usize,
))
    requires
        old(tm)@.wf(),
        old(tm)@.mark_current(TaskStatus::Exited).has_ready(),
    ensures
        switch.0 == old(tm)@.current_task,
        Some(switch.1 as int) == old(tm)@.mark_current(TaskStatus::Exited).next_task(),
        final(tm)@ == old(tm)@.mark_current(TaskStatus::Exited).run_next(old(cx)@),
        final(cx)@ == old(tm)@.mark_current(TaskStatus::Exited).resumed(old(cx)@),
        final(tm)@.wf(),
{
    mark_current_exited(tm);
    run_next_task(tm, cx)
}

/// The token of the current task's address space.
pub fn current_user_token(tm: &TaskManager) -> (token: usize)
    requires
        tm@.wf(),
    ensures
        token == tm@.tasks[tm@.current_task].memory.token,
{
    tm.get_current_token()
}

/// The trap context of the current task, for reading and writing.
pub fn current_trap_cx(tm: &mut TaskManager) -> (cx: &mut TrapContext)
    requires
        old(tm)@.wf(),
    ensures
        cx@ == old(tm)@.tasks[old(tm)@.current_task].trap_cx,
        final(tm)@ == old(tm)@.with_task(
            old(tm)@.current_task,
            TaskView { trap_cx: final(cx)@, ..old(tm)@.tasks[old(tm)@.current_task] },
        ),
{
    tm.get_current_trap_cx()
}

/// Moves the end of the current task's heap by `size` bytes.
pub fn change_program_brk(tm: &mut TaskManager, size: i32) -> (r: Option<usize>)
    requires
        old(tm)@.wf(),
    ensures
        r == old(tm)@.tasks[old(tm)@.current_task].memory.moved_brk(size as int),
        final(tm)@ == old(tm)@.with_task(
            old(tm)@.current_task,
            TaskView {
                memory: old(tm)@.tasks[old(tm)@.current_task].memory.change_program_brk(
                    size as int,
                ),
                ..old(tm)@.tasks[old(tm)@.current_task]
            },
        ),
        final(tm)@.wf(),
{
    tm.change_current_program_brk(size)
}

} // verus!
