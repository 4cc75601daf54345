# Kernel synchronisation and scheduling logic, verified

The decision-making core of a small teaching kernel, written in Verus:

- `src/sync/resource_check.rs` — deadlock avoidance with the banker's
  algorithm, where a thread's maximum claim grows as it asks. `is_safe` is
  proved to answer exactly whether some order lets every thread finish;
  `try_acquire` is proved to leave the state safe when it grants or lets a
  thread wait, and untouched when it refuses.
- `src/sync/resource_manager.rs` — one banker for a process's mutexes and one
  for its semaphores, and the bookkeeping around lock, unlock, `up`, `down`.
- `src/sync/semaphore.rs` — counting semaphore with a FIFO wait queue.
- `src/task/` — stride-scheduling priorities and the program-break part of a
  task control block.
- `src/syscall/` — the decision parts of the system calls: argument checks,
  descriptor and id allocation, waiting for children, and the deadlock
  bookkeeping of the synchronisation calls.

`app/` holds the system-call entry points over a `Kernel` trait that stands
for the scheduler, memory manager and file system; they ask the library what
to do and carry it out. `tests/` exercises the library on concrete values.
