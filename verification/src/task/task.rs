//! The bookkeeping part of a task control block: its status and its heap.
//! The address space, trap context and kernel stack belong to the memory
//! manager; this module decides and records how the program break moves.

use vstd::prelude::*;

verus! {

/// Task status: UnInit, Ready, Running, Exited.
#[derive(Clone, Copy, PartialEq, Eq, Structural, Debug)]
pub enum TaskStatus {
    /// uninitialized
    UnInit,
    /// ready to run
    Ready,
    /// running
    Running,
    /// exited
    Exited,
}

/// Which way the heap area must be resized to reach a new break.
#[derive(Clone, Copy, PartialEq, Eq, Structural, Debug)]
pub enum BrkResize {
    /// Shrink the heap area so that it ends at the given address.
    Shrink(usize),
    /// Grow the heap area so that it ends at the given address.
    Grow(usize),
}

/// The task control block (TCB) of a task, as far as scheduling and the
/// program break are concerned.
#[derive(Clone)]
pub struct TaskControlBlock {
    /// Application id (for kernel stack location).
    pub app_id: usize,
    /// Execution status of the task.
    pub task_status: TaskStatus,
    /// The size (top address) of the program loaded from its ELF file.
    pub base_size: usize,
    /// Heap bottom.
    pub heap_bottom: usize,
    /// Program break.
    pub program_brk: usize,
    /// System call counts, indexed by system call id.
    pub syscall_counts: [usize; 512],
}

/// The break that a change of `size` bytes asks for.
pub open spec fn requested_brk(program_brk: usize, size: i32) -> int {
    (program_brk as isize) + (size as isize)
}

impl TaskControlBlock {
    /// Build the control block of a freshly loaded program whose user stack
    /// pointer (the end of its image) is `user_sp`: the task is ready and its
    /// heap is empty, starting right above the image.
    pub fn new(app_id: usize, user_sp: usize) -> (r: Self)
        ensures
            r.app_id == app_id,
            r.task_status == TaskStatus::Ready,
            r.base_size == user_sp,
            r.heap_bottom == user_sp,
            r.program_brk == user_sp,
            forall|i: int| 0 <= i < 512 ==> #[trigger] r.syscall_counts@[i] == 0,
    {
        Self {
            app_id,
            task_status: TaskStatus::Ready,
            base_size: user_sp,
            heap_bottom: user_sp,
            program_brk: user_sp,
            syscall_counts: [0; 512],
        }
    }

    /// The resize of the heap area that moving the break by `size` needs,
    /// or `None` when the new break would fall below the heap bottom.
    pub fn brk_request(&self, size: i32) -> (r: Option<BrkResize>)
        requires
            isize::MIN <= requested_brk(self.program_brk, size) <= isize::MAX,
        ensures
            requested_brk(self.program_brk, size) < (self.heap_bottom as isize) ==> r is None,
            requested_brk(self.program_brk, size) >= (self.heap_bottom as isize) && size < 0 ==> r
                == Some(BrkResize::Shrink(requested_brk(self.program_brk, size) as usize)),
            requested_brk(self.program_brk, size) >= (self.heap_bottom as isize) && size >= 0 ==> r
                == Some(BrkResize::Grow(requested_brk(self.program_brk, size) as usize)),
    {
        let new_brk = self.program_brk as isize + size as isize;
        if new_brk < self.heap_bottom as isize {
            return None;
        }
        if size < 0 {
            Some(BrkResize::Shrink(new_brk as usize))
        } else {
            Some(BrkResize::Grow(new_brk as usize))
        }
    }

    /// Change the location of the program break by `size` bytes, once the
    /// heap area has been resized as `brk_request` asked, with `resized`
    /// telling whether that succeeded. Returns the old break, or `None`
    /// if the change failed.
    pub fn change_program_brk(&mut self, size: i32, resized: bool) -> (r: Option<usize>)
        requires
            isize::MIN <= requested_brk(old(self).program_brk, size) <= isize::MAX,
        ensures
            final(self).app_id == old(self).app_id,
            final(self).task_status == old(self).task_status,
            final(self).base_size == old(self).base_size,
            final(self).heap_bottom == old(self).heap_bottom,
            final(self).syscall_counts == old(self).syscall_counts,
            requested_brk(old(self).program_brk, size) >= (old(self).heap_bottom as isize) && resized
                ==> {
                &&& r == Some(old(self).program_brk)
                &&& final(self).program_brk == requested_brk(old(self).program_brk, size) as usize
            },
            !(requested_brk(old(self).program_brk, size) >= (old(self).heap_bottom as isize)
                && resized) ==> {
                &&& r is None
                &&& final(self).program_brk == old(self).program_brk
            },
    {
        let old_break = self.program_brk;
        let new_brk = self.program_brk as isize + size as isize;
        if new_brk < self.heap_bottom as isize {
            return None;
        }
        if resized {
            self.program_brk = new_brk as usize;
            Some(old_break)
        } else {
            None
        }
    }
}

} // verus!
