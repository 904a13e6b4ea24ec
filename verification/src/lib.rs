//! Task scheduling and inter-task synchronization for a single-core kernel.
//!
//! The library is a state machine. Its state is plain data: task records,
//! a ready queue, the processor record, and per process the tables of
//! mutexes, semaphores and condition variables. Each operation takes the
//! state by exclusive reference, changes it, and returns; none of them
//! touches the machine. Saved registers are data too: an operation that
//! switches between contexts is handed the register file, stores it for the
//! context that leaves and hands back the registers of the context that
//! resumes. The code that calls the library applies them to the machine.
//!
//! Two schedulers are offered:
//!
//! - [`task::TaskManager`] holds every task in one table and goes round it
//!   with a cursor.
//! - [`task::processor::Scheduler`] keeps the ready tasks in a queue and
//!   the running task in a [`task::processor::Processor`]. The
//!   synchronization objects in [`sync`] and the system calls in
//!   [`syscall`] are built on it; [`kernel::Kernel`] joins it with the
//!   processes and the sleepers.
//!
//! Every type has a mathematical view, and every operation says what it
//! does as an equation between the view before and the view after. The
//! views carry the rules that the records obey (`wf`), and each operation
//! that is given a well-formed state leaves one.

pub mod config;
pub mod kernel;
pub mod mm;
pub mod sync;
pub mod syscall;
pub mod task;
