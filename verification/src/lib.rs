//! Kernel-side scheduling and synchronisation logic: stride priorities,
//! deadlock avoidance with the banker's algorithm, counting semaphores,
//! program-break bookkeeping and the decision parts of the system calls.

pub mod sync;
pub mod syscall;
pub mod task;
