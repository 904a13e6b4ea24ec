//! Sizes fixed for the kernel.

use vstd::prelude::*;

verus! {

/// Bytes in one page of memory.
pub const PAGE_SIZE: usize = 4096;

/// Number of distinct system calls whose invocations are counted per task.
pub const MAX_SYSCALL_NUM: usize = 500;

} // verus!
