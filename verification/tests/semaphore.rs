use sched_core::kernel::Kernel;
use sched_core::sync::semaphore::Semaphore;
use sched_core::syscall::sync::{
    sys_semaphore_create, sys_semaphore_down, sys_semaphore_up,
};
use sched_core::task::processor::{run_tasks, Scheduler};
use sched_core::task::{TaskStatus, WaitChannel, TaskContext};

fn kernel_with_tasks(n: usize) -> Kernel {
    let mut k = Kernel::new();
    let pid = k.add_process();
    for _ in 1..n {
        k.add_thread(pid);
    }
    k
}

fn switch_to_next(k: &mut Kernel) -> usize {
    if k.sched.processor.current.is_some() {
        k.suspend_current_and_run_next();
    }
    k.run_tasks(&mut TaskContext::zero_init()).unwrap()
}

fn queue_of(k: &Kernel, sem: usize) -> Vec<usize> {
    k.processes[0].semaphore_list[sem].as_ref().unwrap().inner.wait_queue.iter().copied().collect()
}

fn count_of(k: &Kernel, sem: usize) -> isize {
    k.processes[0].semaphore_list[sem].as_ref().unwrap().inner.count
}

#[test]
fn new_semaphore_has_its_count_and_no_waiter() {
    let sem = Semaphore::new(4, 3);
    assert_eq!(sem.sem_id, 4);
    assert_eq!(sem.inner.count, 3);
    assert!(sem.inner.wait_queue.is_empty());
    let sem = Semaphore::new(0, 0);
    assert_eq!(sem.inner.count, 0);
}

#[test]
fn down_with_a_free_unit_charges_the_allocation_ledger() {
    let mut s = Scheduler::new();
    let a = s.spawn(0, 0);
    run_tasks(&mut s, &mut TaskContext::zero_init());
    let mut sem = Semaphore::new(2, 2);
    sem.down(&mut s);
    assert_eq!(sem.inner.count, 1);
    assert_eq!(s.tasks[a].allocation, vec![(2, 1)]);
    assert!(s.tasks[a].need.is_empty());
    assert_eq!(s.tasks[a].task_status, TaskStatus::Running);
    sem.down(&mut s);
    assert_eq!(sem.inner.count, 0);
    assert_eq!(s.tasks[a].allocation, vec![(2, 2)]);
    assert!(sem.inner.wait_queue.is_empty());
    assert_eq!(s.processor.current, Some(a));
}

#[test]
fn down_without_a_free_unit_blocks_and_charges_the_need_ledger() {
    let mut s = Scheduler::new();
    let a = s.spawn(0, 0);
    run_tasks(&mut s, &mut TaskContext::zero_init());
    let mut sem = Semaphore::new(5, 0);
    sem.down(&mut s);
    assert_eq!(sem.inner.count, -1);
    assert_eq!(s.tasks[a].need, vec![(5, 1)]);
    assert!(s.tasks[a].allocation.is_empty());
    assert_eq!(s.tasks[a].task_status, TaskStatus::Blocked);
    assert_eq!(s.tasks[a].wait_channel, Some(WaitChannel::Semaphore(5)));
    assert_eq!(sem.inner.wait_queue.iter().copied().collect::<Vec<_>>(), vec![a]);
    assert_eq!(s.processor.current, None);
    assert!(s.ready_queue.is_empty());
}

#[test]
fn ledger_entries_of_other_semaphores_are_kept_apart() {
    let mut s = Scheduler::new();
    let a = s.spawn(0, 0);
    run_tasks(&mut s, &mut TaskContext::zero_init());
    let mut first = Semaphore::new(0, 5);
    let mut second = Semaphore::new(1, 5);
    first.down(&mut s);
    second.down(&mut s);
    first.down(&mut s);
    second.down(&mut s);
    second.down(&mut s);
    assert_eq!(s.tasks[a].allocation, vec![(0, 2), (1, 3)]);
}

#[test]
fn up_moves_the_unit_from_need_to_allocation_and_wakes() {
    let mut s = Scheduler::new();
    let a = s.spawn(0, 0);
    let b = s.spawn(0, 1);
    let mut sem = Semaphore::new(3, 1);
    run_tasks(&mut s, &mut TaskContext::zero_init());
    sem.down(&mut s);
    s.suspend_current_and_run_next();
    assert_eq!(run_tasks(&mut s, &mut TaskContext::zero_init()), Some(b));
    sem.down(&mut s);
    assert_eq!(s.tasks[b].need, vec![(3, 1)]);
    assert_eq!(run_tasks(&mut s, &mut TaskContext::zero_init()), Some(a));
    sem.up(&mut s);
    assert_eq!(sem.inner.count, 0);
    assert!(sem.inner.wait_queue.is_empty());
    assert!(s.tasks[b].need.is_empty());
    assert_eq!(s.tasks[b].allocation, vec![(3, 1)]);
    assert_eq!(s.tasks[b].task_status, TaskStatus::Ready);
    assert_eq!(s.tasks[b].wait_channel, None);
    assert_eq!(s.ready_queue.iter().copied().collect::<Vec<_>>(), vec![b]);
    assert_eq!(s.tasks[a].allocation, vec![(3, 1)]);
    assert_eq!(s.processor.current, Some(a));
}

#[test]
fn up_without_waiter_only_raises_the_count() {
    let mut s = Scheduler::new();
    s.spawn(0, 0);
    run_tasks(&mut s, &mut TaskContext::zero_init());
    let mut sem = Semaphore::new(0, 0);
    sem.up(&mut s);
    sem.up(&mut s);
    assert_eq!(sem.inner.count, 2);
    assert!(s.ready_queue.is_empty());
    assert!(s.tasks[0].allocation.is_empty());
}

#[test]
fn count_is_initial_minus_downs_plus_ups_and_queue_is_its_deficit() {
    let mut k = kernel_with_tasks(4);
    let mut cur = k.run_tasks(&mut TaskContext::zero_init()).unwrap();
    let sem = sys_semaphore_create(&mut k, 2) as usize;
    let script = [
        'd', 'd', 's', 'd', 'd', 'u', 's', 'd', 'u', 'u', 'u', 's', 'd', 'u', 'u', 'd', 'd', 'd',
    ];
    let (mut downs, mut ups) = (0isize, 0isize);
    for step in script {
        match step {
            'd' => {
                assert_eq!(sys_semaphore_down(&mut k, sem), 0);
                downs += 1;
            },
            'u' => {
                assert_eq!(sys_semaphore_up(&mut k, sem), 0);
                ups += 1;
            },
            _ => {},
        }
        let count = count_of(&k, sem);
        assert_eq!(count, 2 - downs + ups);
        assert_eq!(queue_of(&k, sem).len() as isize, (-count).max(0));
        if step == 's' || k.sched.processor.current.is_none() {
            cur = switch_to_next(&mut k);
        }
        assert_eq!(k.sched.processor.current, Some(cur));
    }
}

#[test]
fn waiters_are_woken_in_the_order_in_which_they_blocked() {
    let mut k = kernel_with_tasks(3);
    let t0 = k.run_tasks(&mut TaskContext::zero_init()).unwrap();
    let sem = sys_semaphore_create(&mut k, 0) as usize;
    let t1 = switch_to_next(&mut k);
    assert_eq!(sys_semaphore_down(&mut k, sem), 0);
    let t2 = k.run_tasks(&mut TaskContext::zero_init()).unwrap();
    assert_eq!(sys_semaphore_down(&mut k, sem), 0);
    assert_eq!(queue_of(&k, sem), vec![t1, t2]);
    assert_eq!(k.run_tasks(&mut TaskContext::zero_init()), Some(t0));
    assert_eq!(sys_semaphore_up(&mut k, sem), 0);
    assert_eq!(k.sched.tasks[t1].task_status, TaskStatus::Ready);
    assert_eq!(k.sched.tasks[t2].task_status, TaskStatus::Blocked);
    assert_eq!(queue_of(&k, sem), vec![t2]);
    assert_eq!(sys_semaphore_up(&mut k, sem), 0);
    assert_eq!(k.sched.tasks[t2].task_status, TaskStatus::Ready);
    assert_eq!(k.sched.ready_queue.iter().copied().collect::<Vec<_>>(), vec![t1, t2]);
    assert_eq!(switch_to_next(&mut k), t1);
    assert_eq!(switch_to_next(&mut k), t2);
}

#[test]
fn each_up_wakes_one_waiter_only() {
    let mut k = kernel_with_tasks(4);
    let t0 = k.run_tasks(&mut TaskContext::zero_init()).unwrap();
    let sem = sys_semaphore_create(&mut k, 0) as usize;
    k.suspend_current_and_run_next();
    for _ in 0..3 {
        k.run_tasks(&mut TaskContext::zero_init()).unwrap();
        sys_semaphore_down(&mut k, sem);
    }
    assert_eq!(k.run_tasks(&mut TaskContext::zero_init()), Some(t0));
    assert_eq!(count_of(&k, sem), -3);
    sys_semaphore_up(&mut k, sem);
    let blocked = k.sched.tasks.iter().filter(|t| t.task_status == TaskStatus::Blocked).count();
    assert_eq!(blocked, 2);
    assert_eq!(count_of(&k, sem), -2);
    assert_eq!(k.sched.ready_queue.len(), 1);
}
