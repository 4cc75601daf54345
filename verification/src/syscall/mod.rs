//! The decision parts of the system calls. Each function here takes the
//! state the call reads as plain values, decides, updates what the kernel
//! keeps in this library, and says what is left to do for the memory
//! manager, the file system or the scheduler.

pub mod fs;
pub mod process;
pub mod slots;
pub mod sync;
