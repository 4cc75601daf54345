//! Synchronisation: counting semaphores, and deadlock avoidance for
//! mutexes and semaphores with the banker's algorithm.

pub mod resource_check;
pub mod resource_manager;
pub mod semaphore;
