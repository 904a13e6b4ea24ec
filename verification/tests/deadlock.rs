use sched_core::kernel::Kernel;
use sched_core::sync::deadlock::{is_safe_state, TaskLedger};
use sched_core::syscall::sync::{
    sys_enable_deadlock_detect, sys_semaphore_create, sys_semaphore_down, sys_semaphore_up,
    DEADLOCK,
};
use sched_core::task::{TaskStatus, TaskContext};

fn row(tid: usize, allocation: &[(usize, isize)], need: &[(usize, isize)]) -> TaskLedger {
    TaskLedger { tid, allocation: allocation.to_vec(), need: need.to_vec() }
}

fn two_tasks_two_semaphores(detect: bool) -> (Kernel, usize, usize, usize, usize) {
    let mut k = Kernel::new();
    let pid = k.add_process();
    k.add_thread(pid);
    let t1 = k.run_tasks(&mut TaskContext::zero_init()).unwrap();
    assert_eq!(sys_enable_deadlock_detect(&mut k, if detect { 1 } else { 0 }), 0);
    let a = sys_semaphore_create(&mut k, 1) as usize;
    let b = sys_semaphore_create(&mut k, 1) as usize;
    assert_eq!(sys_semaphore_down(&mut k, a), 0);
    k.suspend_current_and_run_next();
    let t2 = k.run_tasks(&mut TaskContext::zero_init()).unwrap();
    assert_eq!(sys_semaphore_down(&mut k, b), 0);
    k.suspend_current_and_run_next();
    assert_eq!(k.run_tasks(&mut TaskContext::zero_init()), Some(t1));
    (k, t1, t2, a, b)
}

fn sem_count(k: &Kernel, id: usize) -> isize {
    k.processes[0].semaphore_list[id].as_ref().unwrap().inner.count
}

#[test]
fn state_without_tasks_is_safe() {
    assert!(is_safe_state(vec![(0, 0)], &Vec::new()));
    assert!(is_safe_state(Vec::new(), &Vec::new()));
}

#[test]
fn task_whose_need_is_covered_can_finish() {
    let rows = vec![row(0, &[], &[(0, 1)])];
    assert!(is_safe_state(vec![(0, 1)], &rows));
    assert!(!is_safe_state(vec![(0, 0)], &rows));
    let rows = vec![row(0, &[(0, 3)], &[(0, 2), (1, 1)])];
    assert!(is_safe_state(vec![(0, 2), (1, 1)], &rows));
    assert!(!is_safe_state(vec![(0, 2), (1, 0)], &rows));
    assert!(!is_safe_state(vec![(0, 1), (1, 5)], &rows));
}

#[test]
fn finished_tasks_hand_back_what_they_hold() {
    let rows = vec![
        row(0, &[(0, 1)], &[(1, 1)]),
        row(1, &[(1, 1)], &[]),
    ];
    assert!(is_safe_state(vec![(0, 0), (1, 0)], &rows));
    let rows = vec![
        row(0, &[(0, 1)], &[(1, 2)]),
        row(1, &[(1, 1)], &[(2, 1)]),
        row(2, &[(1, 1), (2, 1)], &[]),
    ];
    assert!(is_safe_state(vec![(0, 0), (1, 0), (2, 0)], &rows));
}

#[test]
fn later_task_may_free_an_earlier_one() {
    let rows = vec![
        row(7, &[], &[(0, 3)]),
        row(8, &[(0, 1)], &[(0, 2)]),
        row(9, &[(0, 2)], &[]),
    ];
    assert!(is_safe_state(vec![(0, 0)], &rows));
}

#[test]
fn circular_wait_is_unsafe() {
    let rows = vec![
        row(0, &[(0, 1)], &[(1, 1)]),
        row(1, &[(1, 1)], &[(0, 1)]),
    ];
    assert!(!is_safe_state(vec![(0, 0), (1, 0)], &rows));
    assert!(is_safe_state(vec![(0, 1), (1, 0)], &rows));
    assert!(is_safe_state(vec![(0, 0), (1, 1)], &rows));
}

#[test]
fn one_stuck_task_makes_the_state_unsafe() {
    let rows = vec![
        row(0, &[(0, 1)], &[]),
        row(1, &[], &[(0, 1)]),
        row(2, &[], &[(1, 1)]),
    ];
    assert!(!is_safe_state(vec![(0, 0), (1, 0)], &rows));
}

#[test]
fn sums_beyond_the_largest_count_still_cover_every_need() {
    let rows = vec![
        row(0, &[(0, isize::MAX)], &[]),
        row(1, &[(0, isize::MAX)], &[]),
        row(2, &[], &[(0, isize::MAX)]),
    ];
    assert!(is_safe_state(vec![(0, isize::MAX)], &rows));
}

#[test]
fn request_that_closes_a_cycle_is_refused_before_the_task_blocks() {
    let (mut k, t1, t2, a, b) = two_tasks_two_semaphores(true);
    assert_eq!(sys_semaphore_down(&mut k, b), 0);
    assert_eq!(k.sched.tasks[t1].task_status, TaskStatus::Blocked);
    assert_eq!(k.sched.tasks[t1].need, vec![(b, 1)]);
    assert_eq!(k.run_tasks(&mut TaskContext::zero_init()), Some(t2));
    let count_before = sem_count(&k, a);
    assert_eq!(count_before, 0);
    assert_eq!(sys_semaphore_down(&mut k, a), DEADLOCK);
    assert_eq!(sem_count(&k, a), count_before);
    assert_eq!(sem_count(&k, b), -1);
    assert_eq!(k.sched.tasks[t2].task_status, TaskStatus::Running);
    assert_eq!(k.sched.processor.current, Some(t2));
    assert!(k.sched.tasks[t2].need.is_empty());
    assert_eq!(k.sched.tasks[t2].allocation, vec![(b, 1)]);
    assert!(k.processes[0].semaphore_list[a].as_ref().unwrap().inner.wait_queue.is_empty());
}

#[test]
fn refused_task_may_release_and_let_the_other_finish() {
    let (mut k, t1, t2, a, b) = two_tasks_two_semaphores(true);
    sys_semaphore_down(&mut k, b);
    k.run_tasks(&mut TaskContext::zero_init());
    assert_eq!(sys_semaphore_down(&mut k, a), DEADLOCK);
    assert_eq!(sys_semaphore_up(&mut k, b), 0);
    assert_eq!(k.sched.tasks[t1].task_status, TaskStatus::Ready);
    assert_eq!(k.sched.tasks[t1].allocation, vec![(a, 1), (b, 1)]);
    assert!(k.sched.tasks[t1].need.is_empty());
    assert_eq!(k.sched.processor.current, Some(t2));
}

#[test]
fn request_is_granted_when_the_holder_asks_for_nothing() {
    let (mut k, t1, t2, a, _b) = two_tasks_two_semaphores(true);
    k.suspend_current_and_run_next();
    assert_eq!(k.run_tasks(&mut TaskContext::zero_init()), Some(t2));
    assert_eq!(sys_semaphore_down(&mut k, a), 0);
    assert_eq!(sem_count(&k, a), -1);
    assert_eq!(k.sched.tasks[t2].task_status, TaskStatus::Blocked);
    assert_eq!(k.sched.tasks[t2].need, vec![(a, 1)]);
    assert_eq!(k.run_tasks(&mut TaskContext::zero_init()), Some(t1));
    assert_eq!(sys_semaphore_up(&mut k, a), 0);
    assert_eq!(k.sched.tasks[t2].task_status, TaskStatus::Ready);
    assert_eq!(sem_count(&k, a), 0);
}

#[test]
fn without_detection_the_cycle_forms() {
    let (mut k, t1, t2, a, b) = two_tasks_two_semaphores(false);
    assert_eq!(sys_semaphore_down(&mut k, b), 0);
    assert_eq!(k.run_tasks(&mut TaskContext::zero_init()), Some(t2));
    assert_eq!(sys_semaphore_down(&mut k, a), 0);
    assert_eq!(k.sched.tasks[t1].task_status, TaskStatus::Blocked);
    assert_eq!(k.sched.tasks[t2].task_status, TaskStatus::Blocked);
    assert_eq!(k.run_tasks(&mut TaskContext::zero_init()), None);
}

#[test]
fn exited_tasks_do_not_count_for_the_check() {
    let mut k = Kernel::new();
    let pid = k.add_process();
    k.add_thread(pid);
    let t1 = k.run_tasks(&mut TaskContext::zero_init()).unwrap();
    sys_enable_deadlock_detect(&mut k, 1);
    let a = sys_semaphore_create(&mut k, 1) as usize;
    assert_eq!(sys_semaphore_down(&mut k, a), 0);
    k.exit_current_and_run_next();
    assert_eq!(k.sched.tasks[t1].task_status, TaskStatus::Exited);
    let t2 = k.run_tasks(&mut TaskContext::zero_init()).unwrap();
    assert_eq!(sys_semaphore_down(&mut k, a), DEADLOCK);
    assert_eq!(k.sched.processor.current, Some(t2));
}

#[test]
fn detection_is_switched_by_zero_and_one_only() {
    let mut k = Kernel::new();
    k.add_process();
    k.run_tasks(&mut TaskContext::zero_init());
    assert!(!k.processes[0].deadlock_detection);
    assert_eq!(sys_enable_deadlock_detect(&mut k, 1), 0);
    assert!(k.processes[0].deadlock_detection);
    assert_eq!(sys_enable_deadlock_detect(&mut k, 2), -1);
    assert!(k.processes[0].deadlock_detection);
    assert_eq!(sys_enable_deadlock_detect(&mut k, usize::MAX), -1);
    assert!(k.processes[0].deadlock_detection);
    assert_eq!(sys_enable_deadlock_detect(&mut k, 0), 0);
    assert!(!k.processes[0].deadlock_detection);
    assert_eq!(sys_enable_deadlock_detect(&mut k, 7), -1);
    assert!(!k.processes[0].deadlock_detection);
}

#[test]
fn detection_is_per_process() {
    let mut k = Kernel::new();
    k.add_process();
    k.add_process();
    k.run_tasks(&mut TaskContext::zero_init());
    sys_enable_deadlock_detect(&mut k, 1);
    assert!(k.processes[0].deadlock_detection);
    assert!(!k.processes[1].deadlock_detection);
}
