//! Stride scheduling: each process carries a stride that grows by its pass
//! every time it is scheduled; the pass is `BIG_STRIDE / priority`.

use vstd::prelude::*;

verus! {

/// The constant that every pass is derived from.
pub const BIG_STRIDE: usize = 65536;

/// The priority info of a process, which is used in stride scheduling.
pub struct PriorityInfo {
    /// The priority, set by the set-priority system call; initially 16.
    pub priority: usize,
    /// How far the process has run so far; initially 0.
    pub stride: usize,
    /// The amount added to `stride` each time the process is scheduled.
    pub pass: usize,
}

/// The pass that belongs to a priority.
pub open spec fn pass_of(priority: usize) -> usize
    recommends
        priority > 0,
{
    (BIG_STRIDE / priority) as usize
}

impl PriorityInfo {
    /// The pass always agrees with the priority.
    pub open spec fn wf(&self) -> bool {
        &&& self.priority > 0
        &&& self.pass == pass_of(self.priority)
    }

    /// Create a new PriorityInfo with the given priority.
    pub fn new(priority: usize) -> (r: Self)
        requires
            priority > 0,
        ensures
            r.wf(),
            r.priority == priority,
            r.stride == 0,
            r.pass == BIG_STRIDE / priority,
    {
        Self { priority, stride: 0, pass: BIG_STRIDE / priority }
    }

    /// Update the stride of the process when it is scheduled.
    pub fn update_stride(&mut self)
        requires
            old(self).stride + old(self).pass <= usize::MAX,
        ensures
            final(self).stride == old(self).stride + old(self).pass,
            final(self).priority == old(self).priority,
            final(self).pass == old(self).pass,
    {
        self.stride = self.stride + self.pass;
    }

    /// Set the priority of the process and update the pass accordingly.
    pub fn set_priority(&mut self, priority: usize)
        requires
            priority > 0,
        ensures
            final(self).priority == priority,
            final(self).pass == BIG_STRIDE / priority,
            final(self).stride == old(self).stride,
            final(self).wf(),
    {
        self.priority = priority;
        self.pass = BIG_STRIDE / priority;
    }

    /// Get the priority of the process.
    pub fn get_priority(&self) -> (r: usize)
        ensures
            r == self.priority,
    {
        self.priority
    }

    /// Get the stride of the process.
    pub fn get_stride(&self) -> (r: usize)
        ensures
            r == self.stride,
    {
        self.stride
    }
}

} // verus!
