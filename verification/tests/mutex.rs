use sched_core::kernel::Kernel;
use sched_core::sync::mutex::{Mutex, MutexBlocking, MutexSpin};
use sched_core::syscall::sync::{
    sys_enable_deadlock_detect, sys_mutex_create, sys_mutex_lock, sys_mutex_unlock, DEADLOCK,
};
use sched_core::task::processor::{run_tasks, Scheduler};
use sched_core::task::{TaskStatus, WaitChannel, TaskContext};

fn kernel_of(n: usize) -> Kernel {
    let mut k = Kernel::new();
    let pid = k.add_process();
    for _ in 1..n {
        k.add_thread(pid);
    }
    k
}

fn next_task(k: &mut Kernel) -> usize {
    if k.sched.processor.current.is_some() {
        k.suspend_current_and_run_next();
    }
    k.run_tasks(&mut TaskContext::zero_init()).unwrap()
}

fn holder_of(k: &Kernel, id: usize) -> Option<usize> {
    match k.processes[0].mutex_list[id].as_ref().unwrap() {
        Mutex::Spin(m) => m.holder,
        Mutex::Blocking(m) => m.holder,
    }
}

fn waiters_of(k: &Kernel, id: usize) -> Vec<usize> {
    match k.processes[0].mutex_list[id].as_ref().unwrap() {
        Mutex::Spin(_) => Vec::new(),
        Mutex::Blocking(m) => m.wait_queue.iter().copied().collect(),
    }
}

#[test]
fn new_mutexes_are_free() {
    let spin = Mutex::Spin(MutexSpin::new(0));
    let blocking = Mutex::Blocking(MutexBlocking::new(1));
    assert!(!spin.is_locking());
    assert!(!blocking.is_locking());
    assert!(!MutexSpin::new(3).is_locking());
    assert!(!MutexBlocking::new(3).is_locking());
}

#[test]
fn free_mutex_is_taken_at_once() {
    let mut s = Scheduler::new();
    let a = s.spawn(0, 0);
    run_tasks(&mut s, &mut TaskContext::zero_init());
    for mut m in [Mutex::Spin(MutexSpin::new(0)), Mutex::Blocking(MutexBlocking::new(0))] {
        m.lock(&mut s);
        assert!(m.is_locking());
        assert_eq!(s.processor.current, Some(a));
        assert_eq!(s.tasks[a].task_status, TaskStatus::Running);
        m.unlock(&mut s);
        assert!(!m.is_locking());
    }
}

#[test]
fn contender_for_a_blocking_mutex_waits_in_the_queue() {
    let mut s = Scheduler::new();
    let a = s.spawn(0, 0);
    let b = s.spawn(0, 1);
    let mut m = MutexBlocking::new(6);
    run_tasks(&mut s, &mut TaskContext::zero_init());
    m.lock(&mut s);
    s.suspend_current_and_run_next();
    assert_eq!(run_tasks(&mut s, &mut TaskContext::zero_init()), Some(b));
    m.lock(&mut s);
    assert_eq!(m.holder, Some(a));
    assert_eq!(m.wait_queue.iter().copied().collect::<Vec<_>>(), vec![b]);
    assert_eq!(s.tasks[b].task_status, TaskStatus::Blocked);
    assert_eq!(s.tasks[b].wait_channel, Some(WaitChannel::Mutex(6)));
    assert_eq!(s.processor.current, None);
}

#[test]
fn contender_for_a_spinning_mutex_yields_and_must_try_again() {
    let mut s = Scheduler::new();
    let a = s.spawn(0, 0);
    let b = s.spawn(0, 1);
    let mut m = MutexSpin::new(0);
    run_tasks(&mut s, &mut TaskContext::zero_init());
    m.lock(&mut s);
    s.suspend_current_and_run_next();
    assert_eq!(run_tasks(&mut s, &mut TaskContext::zero_init()), Some(b));
    m.lock(&mut s);
    assert_eq!(m.holder, Some(a));
    assert_eq!(s.tasks[b].task_status, TaskStatus::Ready);
    assert_eq!(s.processor.current, None);
    assert_eq!(s.ready_queue.iter().copied().collect::<Vec<_>>(), vec![a, b]);
    assert_eq!(run_tasks(&mut s, &mut TaskContext::zero_init()), Some(a));
    m.unlock(&mut s);
    assert_eq!(m.holder, None);
    s.suspend_current_and_run_next();
    assert_eq!(run_tasks(&mut s, &mut TaskContext::zero_init()), Some(b));
    m.lock(&mut s);
    assert_eq!(m.holder, Some(b));
    assert_eq!(s.tasks[b].task_status, TaskStatus::Running);
}

#[test]
fn unlock_hands_the_mutex_to_the_longest_waiter_alone() {
    let mut k = kernel_of(4);
    let t0 = k.run_tasks(&mut TaskContext::zero_init()).unwrap();
    let m = sys_mutex_create(&mut k, true) as usize;
    assert_eq!(sys_mutex_lock(&mut k, m), 0);
    assert_eq!(holder_of(&k, m), Some(t0));
    k.suspend_current_and_run_next();
    let t1 = k.run_tasks(&mut TaskContext::zero_init()).unwrap();
    assert_eq!(sys_mutex_lock(&mut k, m), 0);
    let t2 = k.run_tasks(&mut TaskContext::zero_init()).unwrap();
    assert_eq!(sys_mutex_lock(&mut k, m), 0);
    let t3 = k.run_tasks(&mut TaskContext::zero_init()).unwrap();
    assert_eq!(sys_mutex_lock(&mut k, m), 0);
    assert_eq!(holder_of(&k, m), Some(t0));
    assert_eq!(waiters_of(&k, m), vec![t1, t2, t3]);
    assert_eq!(k.run_tasks(&mut TaskContext::zero_init()), Some(t0));
    assert_eq!(sys_mutex_unlock(&mut k, m), 0);
    assert_eq!(holder_of(&k, m), Some(t1));
    assert_eq!(waiters_of(&k, m), vec![t2, t3]);
    assert_eq!(k.sched.tasks[t1].task_status, TaskStatus::Ready);
    assert_eq!(k.sched.tasks[t2].task_status, TaskStatus::Blocked);
    assert_eq!(k.sched.tasks[t3].task_status, TaskStatus::Blocked);
    assert_eq!(next_task(&mut k), t1);
    assert_eq!(sys_mutex_unlock(&mut k, m), 0);
    assert_eq!(holder_of(&k, m), Some(t2));
    assert_eq!(next_task(&mut k), t0);
    assert_eq!(next_task(&mut k), t2);
    assert_eq!(sys_mutex_unlock(&mut k, m), 0);
    assert_eq!(holder_of(&k, m), Some(t3));
    assert_eq!(next_task(&mut k), t1);
    assert_eq!(next_task(&mut k), t0);
    assert_eq!(next_task(&mut k), t3);
    assert_eq!(sys_mutex_unlock(&mut k, m), 0);
    assert_eq!(holder_of(&k, m), None);
    assert!(waiters_of(&k, m).is_empty());
}

#[test]
fn at_most_one_task_holds_a_blocking_mutex() {
    let mut k = kernel_of(3);
    k.run_tasks(&mut TaskContext::zero_init());
    let m = sys_mutex_create(&mut k, true) as usize;
    let mut held_by: Vec<Option<usize>> = Vec::new();
    for round in 0..12 {
        let cur = k.sched.processor.current.unwrap();
        if holder_of(&k, m) == Some(cur) {
            sys_mutex_unlock(&mut k, m);
        } else {
            sys_mutex_lock(&mut k, m);
        }
        let holder = holder_of(&k, m);
        if let Some(h) = holder {
            assert!(!waiters_of(&k, m).contains(&h));
            assert_ne!(k.sched.tasks[h].task_status, TaskStatus::Blocked);
        }
        held_by.push(holder);
        if k.sched.processor.current.is_none() || round % 2 == 1 {
            next_task(&mut k);
        }
    }
    assert!(held_by.iter().any(|h| h.is_some()));
}

#[test]
fn with_detection_on_a_held_mutex_is_refused_without_blocking() {
    let mut k = kernel_of(2);
    let t0 = k.run_tasks(&mut TaskContext::zero_init()).unwrap();
    let m = sys_mutex_create(&mut k, true) as usize;
    assert_eq!(sys_enable_deadlock_detect(&mut k, 1), 0);
    assert_eq!(sys_mutex_lock(&mut k, m), 0);
    let t1 = next_task(&mut k);
    assert_eq!(sys_mutex_lock(&mut k, m), DEADLOCK);
    assert_eq!(DEADLOCK, -0xDEAD);
    assert_eq!(k.sched.processor.current, Some(t1));
    assert_eq!(k.sched.tasks[t1].task_status, TaskStatus::Running);
    assert_eq!(holder_of(&k, m), Some(t0));
    assert!(waiters_of(&k, m).is_empty());
}

#[test]
fn detection_refuses_contention_that_could_not_deadlock() {
    let mut k = kernel_of(2);
    k.run_tasks(&mut TaskContext::zero_init());
    let m = sys_mutex_create(&mut k, false) as usize;
    sys_enable_deadlock_detect(&mut k, 1);
    assert_eq!(sys_mutex_lock(&mut k, m), 0);
    next_task(&mut k);
    assert_eq!(sys_mutex_lock(&mut k, m), DEADLOCK);
    assert_eq!(sys_enable_deadlock_detect(&mut k, 0), 0);
    assert_eq!(sys_mutex_lock(&mut k, m), 0);
    assert_eq!(k.sched.processor.current, None);
}

#[test]
fn with_detection_on_a_free_mutex_is_granted() {
    let mut k = kernel_of(1);
    let t0 = k.run_tasks(&mut TaskContext::zero_init()).unwrap();
    let m = sys_mutex_create(&mut k, true) as usize;
    sys_enable_deadlock_detect(&mut k, 1);
    assert_eq!(sys_mutex_lock(&mut k, m), 0);
    assert_eq!(holder_of(&k, m), Some(t0));
    assert_eq!(sys_mutex_unlock(&mut k, m), 0);
    assert_eq!(sys_mutex_lock(&mut k, m), 0);
}
