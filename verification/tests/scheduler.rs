use sched_core::config::MAX_SYSCALL_NUM;
use sched_core::kernel::Kernel;
use sched_core::task::processor::{
    cnt_syscall as count_call, current_task, current_trap_cx, current_user_token,
    get_syscall_times as call_counts, run_tasks, schedule, take_current_task, Processor,
    Scheduler,
};
use sched_core::task::{
    cnt_syscall, exit_current_and_run_next, get_syscall_times, mark_current_exited,
    mark_current_suspended, run_first_task, run_next_task, suspend_current_and_run_next,
    TaskContext, TaskControlBlock, TaskManager, TaskStatus, WaitChannel,
};

#[test]
fn new_task_is_ready_and_empty() {
    let task = TaskControlBlock::new(3, 1);
    assert_eq!(task.pid, 3);
    assert_eq!(task.tid, 1);
    assert_eq!(task.task_status, TaskStatus::Ready);
    assert!(task.allocation.is_empty());
    assert!(task.need.is_empty());
    assert_eq!(task.wait_channel, None);
    assert!(task.syscall_times.iter().all(|&n| n == 0));
    let cx = TaskContext::zero_init();
    assert_eq!((cx.ra, cx.sp), (0, 0));
    assert!(cx.s.iter().all(|&r| r == 0));
}

#[test]
fn first_task_is_task_zero() {
    let mut tm = TaskManager::new(3);
    assert_eq!(tm.num_app, 3);
    assert_eq!(run_first_task(&mut tm, &mut TaskContext::zero_init()), 0);
    assert_eq!(tm.tasks[0].task_status, TaskStatus::Running);
    assert_eq!(tm.tasks[1].task_status, TaskStatus::Ready);
    assert_eq!(tm.current_task, 0);
}

#[test]
fn next_task_is_the_first_ready_one_after_the_current() {
    let mut tm = TaskManager::new(4);
    tm.run_first_task(&mut TaskContext::zero_init());
    tm.tasks[1].task_status = TaskStatus::Exited;
    tm.tasks[2].task_status = TaskStatus::Blocked;
    assert_eq!(tm.find_next_task(), Some(3));
    tm.tasks[3].task_status = TaskStatus::Exited;
    assert_eq!(tm.find_next_task(), None);
    tm.tasks[0].task_status = TaskStatus::Ready;
    assert_eq!(tm.find_next_task(), Some(0));
}

#[test]
fn next_task_wraps_round_the_table() {
    let mut tm = TaskManager::new(3);
    tm.current_task = 2;
    tm.tasks[2].task_status = TaskStatus::Running;
    assert_eq!(tm.find_next_task(), Some(0));
    tm.tasks[0].task_status = TaskStatus::Exited;
    assert_eq!(tm.find_next_task(), Some(1));
}

#[test]
fn no_ready_task_is_not_the_same_as_no_task_left_to_try() {
    let mut tm = TaskManager::new(1);
    tm.run_first_task(&mut TaskContext::zero_init());
    assert_eq!(tm.find_next_task(), None);
    mark_current_suspended(&mut tm);
    assert_eq!(tm.find_next_task(), Some(0));
}

#[test]
fn all_ready_tasks_are_visited_once_each_in_turn() {
    let n = 5;
    let mut tm = TaskManager::new(n);
    tm.current_task = 3;
    let mut seen = Vec::new();
    for _ in 0..n {
        let (from, to) = run_next_task(&mut tm, &mut TaskContext::zero_init());
        assert_eq!(to, (from + 1) % n);
        assert_eq!(tm.current_task, to);
        assert_eq!(tm.tasks[to].task_status, TaskStatus::Running);
        seen.push(to);
    }
    assert_eq!(seen, vec![4, 0, 1, 2, 3]);
    assert_eq!(tm.find_next_task(), None);
}

#[test]
fn suspended_tasks_take_turns_for_ever() {
    let mut tm = TaskManager::new(3);
    tm.run_first_task(&mut TaskContext::zero_init());
    let mut order = Vec::new();
    for _ in 0..7 {
        let (_, to) = suspend_current_and_run_next(&mut tm, &mut TaskContext::zero_init());
        order.push(to);
    }
    assert_eq!(order, vec![1, 2, 0, 1, 2, 0, 1]);
    let running = tm.tasks.iter().filter(|t| t.task_status == TaskStatus::Running).count();
    assert_eq!(running, 1);
}

#[test]
fn exited_task_is_never_dispatched_again() {
    let mut tm = TaskManager::new(3);
    tm.run_first_task(&mut TaskContext::zero_init());
    let (from, to) = exit_current_and_run_next(&mut tm, &mut TaskContext::zero_init());
    assert_eq!((from, to), (0, 1));
    assert_eq!(tm.tasks[0].task_status, TaskStatus::Exited);
    let (_, to) = suspend_current_and_run_next(&mut tm, &mut TaskContext::zero_init());
    assert_eq!(to, 2);
    let (_, to) = suspend_current_and_run_next(&mut tm, &mut TaskContext::zero_init());
    assert_eq!(to, 1);
    mark_current_exited(&mut tm);
    assert_eq!(tm.tasks[1].task_status, TaskStatus::Exited);
    assert_eq!(tm.find_next_task(), Some(2));
}

#[test]
fn system_calls_are_counted_for_the_current_task() {
    let mut tm = TaskManager::new(2);
    tm.run_first_task(&mut TaskContext::zero_init());
    cnt_syscall(&mut tm, 64);
    cnt_syscall(&mut tm, 64);
    cnt_syscall(&mut tm, MAX_SYSCALL_NUM - 1);
    let times = get_syscall_times(&tm);
    assert_eq!(times[64], 2);
    assert_eq!(times[MAX_SYSCALL_NUM - 1], 1);
    assert_eq!(times[0], 0);
    assert!(tm.tasks[1].syscall_times.iter().all(|&n| n == 0));
}

#[test]
fn processor_starts_idle() {
    let mut p = Processor::new();
    assert_eq!(p.current(), None);
    assert_eq!(p.take_current(), None);
    let tasks: Vec<TaskControlBlock> = Vec::new();
    assert!(p.get_syscall_times(&tasks).iter().all(|&n| n == 0));
}

#[test]
fn ready_queue_is_first_in_first_out() {
    let mut s = Scheduler::new();
    let a = s.spawn(0, 0);
    let b = s.spawn(0, 1);
    let c = s.spawn(1, 0);
    assert_eq!((a, b, c), (0, 1, 2));
    assert_eq!(run_tasks(&mut s, &mut TaskContext::zero_init()), Some(a));
    assert_eq!(current_task(&s), Some(a));
    assert_eq!(s.tasks[a].task_status, TaskStatus::Running);
    s.suspend_current_and_run_next();
    assert_eq!(current_task(&s), None);
    assert_eq!(s.tasks[a].task_status, TaskStatus::Ready);
    assert_eq!(run_tasks(&mut s, &mut TaskContext::zero_init()), Some(b));
    s.suspend_current_and_run_next();
    assert_eq!(run_tasks(&mut s, &mut TaskContext::zero_init()), Some(c));
    s.suspend_current_and_run_next();
    assert_eq!(run_tasks(&mut s, &mut TaskContext::zero_init()), Some(a));
}

#[test]
fn idle_loop_finds_nothing_when_no_task_is_ready() {
    let mut s = Scheduler::new();
    assert_eq!(run_tasks(&mut s, &mut TaskContext::zero_init()), None);
    let a = s.spawn(0, 0);
    assert_eq!(run_tasks(&mut s, &mut TaskContext::zero_init()), Some(a));
    s.block_current_and_run_next(WaitChannel::Timer);
    assert_eq!(s.tasks[a].task_status, TaskStatus::Blocked);
    assert_eq!(s.tasks[a].wait_channel, Some(WaitChannel::Timer));
    assert_eq!(run_tasks(&mut s, &mut TaskContext::zero_init()), None);
    assert_eq!(current_task(&s), None);
    s.wakeup_task(a);
    assert_eq!(s.tasks[a].task_status, TaskStatus::Ready);
    assert_eq!(s.tasks[a].wait_channel, None);
    assert_eq!(run_tasks(&mut s, &mut TaskContext::zero_init()), Some(a));
}

#[test]
fn exactly_one_task_runs_at_a_time() {
    let mut s = Scheduler::new();
    for tid in 0..4 {
        s.spawn(0, tid);
    }
    for _ in 0..10 {
        let h = run_tasks(&mut s, &mut TaskContext::zero_init()).unwrap();
        let running: Vec<usize> = (0..4)
            .filter(|&i| s.tasks[i].task_status == TaskStatus::Running)
            .collect();
        assert_eq!(running, vec![h]);
        s.suspend_current_and_run_next();
        assert!(s.tasks.iter().all(|t| t.task_status != TaskStatus::Running));
    }
}

#[test]
fn exited_task_leaves_the_processor_and_keeps_its_record() {
    let mut s = Scheduler::new();
    let a = s.spawn(0, 0);
    let b = s.spawn(0, 1);
    run_tasks(&mut s, &mut TaskContext::zero_init());
    s.exit_current_and_run_next();
    assert_eq!(s.tasks[a].task_status, TaskStatus::Exited);
    assert_eq!(s.tasks.len(), 2);
    assert_eq!(run_tasks(&mut s, &mut TaskContext::zero_init()), Some(b));
    s.suspend_current_and_run_next();
    assert_eq!(run_tasks(&mut s, &mut TaskContext::zero_init()), Some(b));
}

#[test]
fn taking_the_current_task_leaves_none() {
    let mut s = Scheduler::new();
    let a = s.spawn(0, 0);
    run_tasks(&mut s, &mut TaskContext::zero_init());
    assert_eq!(take_current_task(&mut s), Some(a));
    assert_eq!(current_task(&s), None);
    assert_eq!(take_current_task(&mut s), None);
    assert_eq!(s.tasks[a].task_status, TaskStatus::Running);
}

#[test]
fn running_task_is_charged_for_its_system_calls() {
    let mut s = Scheduler::new();
    let a = s.spawn(0, 0);
    count_call(&mut s, 7);
    assert!(call_counts(&s).iter().all(|&n| n == 0));
    assert_eq!(s.tasks[a].syscall_times[7], 0);
    run_tasks(&mut s, &mut TaskContext::zero_init());
    count_call(&mut s, 7);
    count_call(&mut s, 7);
    count_call(&mut s, 9);
    let times = call_counts(&s);
    assert_eq!((times[7], times[9], times[8]), (2, 1, 0));
}

#[test]
fn token_and_trap_context_are_those_of_the_running_task() {
    let mut s = Scheduler::new();
    let a = s.spawn(0, 0);
    let b = s.spawn(0, 1);
    s.tasks[a].memory_set.token = 11;
    s.tasks[b].memory_set.token = 22;
    s.tasks[b].trap_cx.sepc = 0x8000;
    run_tasks(&mut s, &mut TaskContext::zero_init());
    assert_eq!(current_user_token(&s), 11);
    assert_eq!(current_trap_cx(&mut s).sepc, 0);
    current_trap_cx(&mut s).x[10] = 42;
    current_trap_cx(&mut s).sepc += 4;
    s.suspend_current_and_run_next();
    run_tasks(&mut s, &mut TaskContext::zero_init());
    assert_eq!(current_user_token(&s), 22);
    assert_eq!(current_trap_cx(&mut s).sepc, 0x8000);
    assert_eq!(current_trap_cx(&mut s).x[10], 0);
    assert_eq!((s.tasks[a].trap_cx.x[10], s.tasks[a].trap_cx.sepc), (42, 4));
    assert_eq!(s.tasks[b].trap_cx.sepc, 0x8000);
}

#[test]
fn trap_context_of_the_current_task_can_be_written() {
    let mut tm = TaskManager::new(2);
    tm.run_first_task(&mut TaskContext::zero_init());
    sched_core::task::current_trap_cx(&mut tm).x[10] = 7;
    tm.get_current_trap_cx().sepc = 0x100;
    assert_eq!(tm.tasks[0].trap_cx.x[10], 7);
    assert_eq!(tm.tasks[0].trap_cx.sepc, 0x100);
    assert_eq!(tm.tasks[1].trap_cx.x[10], 0);
    assert_eq!(tm.tasks[1].trap_cx.sepc, 0);
}

#[test]
fn processes_and_tasks_get_ids_in_order() {
    let mut k = Kernel::new();
    let first = k.add_process();
    let second = k.add_process();
    assert_eq!((first, second), (0, 1));
    let t1 = k.add_thread(first);
    let t2 = k.add_thread(first);
    assert_eq!((t1, t2), (1, 2));
    assert_eq!(k.add_thread(second), 1);
    assert_eq!(k.task_handle(first, 0), Some(0));
    assert_eq!(k.task_handle(second, 0), Some(1));
    assert_eq!(k.task_handle(first, 1), Some(2));
    assert_eq!(k.task_handle(first, 2), Some(3));
    assert_eq!(k.task_handle(second, 1), Some(4));
    assert_eq!(k.task_handle(first, 3), None);
    assert_eq!(k.task_handle(2, 0), None);
    let h = k.task_handle(first, 2).unwrap();
    assert_eq!((k.sched.tasks[h].pid, k.sched.tasks[h].tid), (first, 2));
    assert_eq!(k.run_tasks(&mut TaskContext::zero_init()), Some(0));
    k.suspend_current_and_run_next();
    assert_eq!(k.run_tasks(&mut TaskContext::zero_init()), Some(1));
    k.exit_current_and_run_next();
    assert_eq!(k.sched.tasks[1].task_status, TaskStatus::Exited);
    assert_eq!(k.run_tasks(&mut TaskContext::zero_init()), Some(2));
}

fn context(tag: usize) -> TaskContext {
    let mut cx = TaskContext::zero_init();
    cx.ra = tag;
    cx.sp = tag * 2;
    cx.s[11] = tag * 3;
    cx
}

fn tag_of(cx: &TaskContext) -> usize {
    assert_eq!(cx.sp, cx.ra * 2);
    assert_eq!(cx.s[11], cx.ra * 3);
    cx.ra
}

#[test]
fn first_task_starts_with_its_saved_registers() {
    let mut tm = TaskManager::new(2);
    tm.tasks[0].task_cx = context(10);
    tm.tasks[1].task_cx = context(11);
    let mut cx = context(99);
    assert_eq!(tm.run_first_task(&mut cx), 0);
    assert_eq!(tag_of(&cx), 10);
    assert_eq!(tag_of(&tm.tasks[0].task_cx), 10);
    assert_eq!(tag_of(&tm.tasks[1].task_cx), 11);
}

#[test]
fn switch_saves_the_old_registers_and_loads_the_new() {
    let mut tm = TaskManager::new(3);
    for i in 0..3 {
        tm.tasks[i].task_cx = context(10 + i);
    }
    let mut cx = TaskContext::zero_init();
    tm.run_first_task(&mut cx);
    cx = context(100);
    assert_eq!(suspend_current_and_run_next(&mut tm, &mut cx), (0, 1));
    assert_eq!(tag_of(&cx), 11);
    assert_eq!(tag_of(&tm.tasks[0].task_cx), 100);
    cx = context(101);
    assert_eq!(suspend_current_and_run_next(&mut tm, &mut cx), (1, 2));
    assert_eq!(tag_of(&cx), 12);
    cx = context(102);
    assert_eq!(suspend_current_and_run_next(&mut tm, &mut cx), (2, 0));
    assert_eq!(tag_of(&cx), 100);
    assert_eq!(tag_of(&tm.tasks[1].task_cx), 101);
    assert_eq!(tag_of(&tm.tasks[2].task_cx), 102);
}

#[test]
fn lone_task_resumes_with_the_registers_it_gave_up() {
    let mut tm = TaskManager::new(1);
    let mut cx = TaskContext::zero_init();
    tm.run_first_task(&mut cx);
    cx = context(5);
    assert_eq!(suspend_current_and_run_next(&mut tm, &mut cx), (0, 0));
    assert_eq!(tag_of(&cx), 5);
    assert_eq!(tag_of(&tm.tasks[0].task_cx), 5);
}

#[test]
fn idle_loop_and_tasks_swap_registers() {
    let mut s = Scheduler::new();
    let a = s.spawn(0, 0);
    let b = s.spawn(0, 1);
    s.tasks[a].task_cx = context(1);
    s.tasks[b].task_cx = context(2);
    let mut cx = context(50);
    assert_eq!(run_tasks(&mut s, &mut cx), Some(a));
    assert_eq!(tag_of(&cx), 1);
    assert_eq!(tag_of(&s.processor.idle_task_cx), 50);
    cx = context(7);
    s.suspend_current_and_run_next();
    schedule(&mut s, a, &mut cx);
    assert_eq!(tag_of(&cx), 50);
    assert_eq!(tag_of(&s.tasks[a].task_cx), 7);
    cx = context(51);
    assert_eq!(run_tasks(&mut s, &mut cx), Some(b));
    assert_eq!(tag_of(&cx), 2);
    assert_eq!(tag_of(&s.processor.idle_task_cx), 51);
    s.exit_current_and_run_next();
    cx = context(8);
    schedule(&mut s, b, &mut cx);
    assert_eq!(tag_of(&cx), 51);
    cx = context(52);
    assert_eq!(run_tasks(&mut s, &mut cx), Some(a));
    assert_eq!(tag_of(&cx), 7);
}

#[test]
fn idle_round_without_ready_task_keeps_the_registers() {
    let mut s = Scheduler::new();
    let mut cx = context(9);
    assert_eq!(run_tasks(&mut s, &mut cx), None);
    assert_eq!(tag_of(&cx), 9);
    assert_eq!(s.processor.idle_task_cx.ra, 0);
    let mut k = Kernel::new();
    assert_eq!(k.run_tasks(&mut cx), None);
    assert_eq!(tag_of(&cx), 9);
    k.add_process();
    k.sched.tasks[0].task_cx = context(3);
    assert_eq!(k.run_tasks(&mut cx), Some(0));
    assert_eq!(tag_of(&cx), 3);
    k.suspend_current_and_run_next();
    cx = context(4);
    k.schedule(0, &mut cx);
    assert_eq!(tag_of(&cx), 9);
    assert_eq!(tag_of(&k.sched.tasks[0].task_cx), 4);
}
