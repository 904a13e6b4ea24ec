use sched_core::kernel::{Kernel, TimerCondVar};
use sched_core::syscall::sync::sys_sleep;
use sched_core::task::{TaskStatus, WaitChannel, TaskContext};

#[test]
fn sleeper_wakes_when_its_time_has_come_and_not_before() {
    let mut k = Kernel::new();
    k.add_process();
    let t = k.run_tasks(&mut TaskContext::zero_init()).unwrap();
    let now = 1000;
    assert_eq!(sys_sleep(&mut k, now, 50), 0);
    assert_eq!(k.sched.tasks[t].task_status, TaskStatus::Blocked);
    assert_eq!(k.sched.tasks[t].wait_channel, Some(WaitChannel::Timer));
    assert_eq!(k.sched.processor.current, None);
    assert_eq!(k.timers, vec![TimerCondVar { expire_ms: 1050, task: t }]);
    for time in [1000, 1001, 1049] {
        k.check_timer(time);
        assert_eq!(k.sched.tasks[t].task_status, TaskStatus::Blocked);
        assert_eq!(k.run_tasks(&mut TaskContext::zero_init()), None);
    }
    k.check_timer(1050);
    assert_eq!(k.sched.tasks[t].task_status, TaskStatus::Ready);
    assert_eq!(k.sched.tasks[t].wait_channel, None);
    assert!(k.timers.is_empty());
    assert_eq!(k.run_tasks(&mut TaskContext::zero_init()), Some(t));
}

#[test]
fn late_timer_check_still_wakes_the_sleeper() {
    let mut k = Kernel::new();
    k.add_process();
    let t = k.run_tasks(&mut TaskContext::zero_init()).unwrap();
    sys_sleep(&mut k, 10, 50);
    k.check_timer(5000);
    assert_eq!(k.sched.tasks[t].task_status, TaskStatus::Ready);
    k.check_timer(6000);
    assert_eq!(k.sched.ready_queue.len(), 1);
}

#[test]
fn sleep_of_no_time_is_over_at_the_next_check() {
    let mut k = Kernel::new();
    k.add_process();
    let t = k.run_tasks(&mut TaskContext::zero_init()).unwrap();
    assert_eq!(sys_sleep(&mut k, 77, 0), 0);
    assert_eq!(k.sched.tasks[t].task_status, TaskStatus::Blocked);
    k.check_timer(76);
    assert_eq!(k.sched.tasks[t].task_status, TaskStatus::Blocked);
    k.check_timer(77);
    assert_eq!(k.sched.tasks[t].task_status, TaskStatus::Ready);
}

#[test]
fn due_sleepers_wake_oldest_request_first_and_others_sleep_on() {
    let mut k = Kernel::new();
    let pid = k.add_process();
    k.add_thread(pid);
    k.add_thread(pid);
    k.add_thread(pid);
    let a = k.run_tasks(&mut TaskContext::zero_init()).unwrap();
    sys_sleep(&mut k, 0, 30);
    let b = k.run_tasks(&mut TaskContext::zero_init()).unwrap();
    sys_sleep(&mut k, 0, 100);
    let c = k.run_tasks(&mut TaskContext::zero_init()).unwrap();
    sys_sleep(&mut k, 5, 10);
    let d = k.run_tasks(&mut TaskContext::zero_init()).unwrap();
    k.check_timer(40);
    assert_eq!(k.sched.ready_queue.iter().copied().collect::<Vec<_>>(), vec![a, c]);
    assert_eq!(k.sched.tasks[b].task_status, TaskStatus::Blocked);
    assert_eq!(k.timers, vec![TimerCondVar { expire_ms: 100, task: b }]);
    assert_eq!(k.sched.processor.current, Some(d));
    k.check_timer(100);
    assert_eq!(k.sched.ready_queue.iter().copied().collect::<Vec<_>>(), vec![a, c, b]);
    assert!(k.timers.is_empty());
}
