use sched_core::config::MAX_SYSCALL_NUM;
use sched_core::kernel::Kernel;
use sched_core::sync::ledger::{add_unit, position, take_unit};
use sched_core::task::processor::{Processor, Scheduler};
use sched_core::task::{TaskContext, TaskControlBlock, TaskStatus};

#[test]
fn position_is_that_of_the_first_entry_for_the_id() {
    let ledger = vec![(4, 1), (2, 5), (4, 9), (0, 1)];
    assert_eq!(position(&ledger, 4), Some(0));
    assert_eq!(position(&ledger, 2), Some(1));
    assert_eq!(position(&ledger, 0), Some(3));
    assert_eq!(position(&ledger, 1), None);
    assert_eq!(position(&Vec::new(), 0), None);
}

#[test]
fn unit_is_merged_into_its_entry_or_appended() {
    let mut ledger = Vec::new();
    add_unit(&mut ledger, 3);
    assert_eq!(ledger, vec![(3, 1)]);
    add_unit(&mut ledger, 1);
    assert_eq!(ledger, vec![(3, 1), (1, 1)]);
    add_unit(&mut ledger, 3);
    add_unit(&mut ledger, 3);
    assert_eq!(ledger, vec![(3, 3), (1, 1)]);
    add_unit(&mut ledger, 0);
    assert_eq!(ledger, vec![(3, 3), (1, 1), (0, 1)]);
}

#[test]
fn entry_leaves_the_ledger_with_its_last_unit() {
    let mut ledger = vec![(3, 2), (1, 1), (0, 4)];
    take_unit(&mut ledger, 3);
    assert_eq!(ledger, vec![(3, 1), (1, 1), (0, 4)]);
    take_unit(&mut ledger, 1);
    assert_eq!(ledger, vec![(3, 1), (0, 4)]);
    take_unit(&mut ledger, 3);
    assert_eq!(ledger, vec![(0, 4)]);
    take_unit(&mut ledger, 0);
    assert_eq!(ledger, vec![(0, 3)]);
}

#[test]
fn processor_acts_on_the_task_that_it_holds() {
    let mut tasks = vec![TaskControlBlock::new(0, 0), TaskControlBlock::new(0, 1)];
    let mut p = Processor::new();
    p.cnt_syscall(&mut tasks, 3);
    assert!(tasks.iter().all(|t| t.syscall_times[3] == 0));
    p.current = Some(1);
    p.cnt_syscall(&mut tasks, 3);
    p.cnt_syscall(&mut tasks, MAX_SYSCALL_NUM - 1);
    let times = p.get_syscall_times(&tasks);
    assert_eq!((times[3], times[MAX_SYSCALL_NUM - 1], times[2]), (1, 1, 0));
    assert_eq!(tasks[0].syscall_times[3], 0);
    assert_eq!(p.mmap(&mut tasks, 0x2000, 0x1000, 3), 0);
    assert_eq!(p.mmap(&mut tasks, 0x2000, 0x1000, 3), -1);
    assert!(tasks[0].memory_set.pages.is_empty());
    assert_eq!(tasks[1].memory_set.pages.get(&2), Some(&22));
    assert_eq!(p.munmap(&mut tasks, 0x3000, 0x1000), -1);
    assert_eq!(p.munmap(&mut tasks, 0x2000, 0x1000), 0);
    assert!(tasks[1].memory_set.pages.is_empty());
    assert_eq!(p.take_current(), Some(1));
    assert_eq!(p.current(), None);
}

#[test]
fn ready_queue_can_be_filled_and_emptied_by_hand() {
    let mut s = Scheduler::new();
    assert_eq!(s.fetch_task(), None);
    s.add_task(5);
    s.add_task(2);
    s.add_task(9);
    assert_eq!(s.fetch_task(), Some(5));
    assert_eq!(s.fetch_task(), Some(2));
    s.add_task(5);
    assert_eq!(s.fetch_task(), Some(9));
    assert_eq!(s.fetch_task(), Some(5));
    assert_eq!(s.fetch_task(), None);
}

#[test]
fn running_task_and_its_process_are_found() {
    let mut k = Kernel::new();
    k.add_process();
    let pid = k.add_process();
    k.add_thread(pid);
    let mut cx = TaskContext::zero_init();
    assert_eq!(k.run_tasks(&mut cx), Some(0));
    assert_eq!(k.current_ids(), (0, 0));
    k.suspend_current_and_run_next();
    assert_eq!(k.run_tasks(&mut cx), Some(1));
    assert_eq!(k.current_ids(), (1, 1));
    k.exit_current_and_run_next();
    assert_eq!(k.run_tasks(&mut cx), Some(2));
    assert_eq!(k.current_ids(), (2, 1));
    assert_eq!(k.sched.tasks[2].tid, 1);
    assert_eq!(k.sched.tasks[1].task_status, TaskStatus::Exited);
}

#[test]
fn heap_end_of_an_address_space_moves_by_the_given_bytes() {
    let mut task = TaskControlBlock::new(0, 0);
    task.memory_set.heap_bottom = 100;
    task.memory_set.program_brk = 100;
    assert_eq!(task.memory_set.change_program_brk(28), Some(128));
    assert_eq!(task.memory_set.change_program_brk(-28), Some(100));
    assert_eq!(task.memory_set.change_program_brk(-1), None);
    assert_eq!(task.memory_set.program_brk, 100);
    assert_eq!(task.memory_set.change_program_brk(i32::MAX), Some(100 + i32::MAX as usize));
}
