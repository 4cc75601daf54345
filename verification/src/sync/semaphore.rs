//! Counting semaphore. A negative count is the number of threads waiting
//! on it; waiting threads are kept in arrival order by thread id.

use std::collections::VecDeque;
use vstd::prelude::*;

verus! {

/// The state guarded by a semaphore.
pub struct SemaphoreInner {
    pub count: isize,
    /// Initial resource count (constant, for deadlock detection).
    pub total: usize,
    /// Ids of the threads blocked in `down`, oldest first.
    pub wait_queue: VecDeque<usize>,
}

/// Semaphore structure.
pub struct Semaphore {
    /// Semaphore inner state.
    pub inner: SemaphoreInner,
}

/// The abstract state of a semaphore.
pub struct SemaphoreView {
    pub count: isize,
    pub total: usize,
    /// The waiting threads, oldest first.
    pub waiters: Seq<usize>,
}

impl SemaphoreView {
    /// Exactly the threads the count says are missing are queued.
    pub open spec fn wf(self) -> bool {
        self.waiters.len() == if self.count < 0 {
            -self.count
        } else {
            0
        }
    }

    /// The oldest waiter, if any.
    pub open spec fn front(self) -> Option<usize> {
        if self.waiters.len() > 0 {
            Some(self.waiters[0])
        } else {
            None
        }
    }

    /// After `up`, a waiter is due to be woken when the count shows one.
    pub open spec fn woken(self) -> Option<usize> {
        if self.count + 1 <= 0 {
            self.front()
        } else {
            None
        }
    }

    /// The state after `up`: the count grows by one and the woken waiter
    /// leaves the queue.
    pub open spec fn raised(self) -> SemaphoreView {
        SemaphoreView {
            count: (self.count + 1) as isize,
            total: self.total,
            waiters: if self.woken() is Some {
                self.waiters.drop_first()
            } else {
                self.waiters
            },
        }
    }

    /// The state after `down` by thread `tid`: the count drops by one and
    /// the thread queues up when no unit is left for it.
    pub open spec fn lowered(self, tid: usize) -> SemaphoreView {
        SemaphoreView {
            count: (self.count - 1) as isize,
            total: self.total,
            waiters: if self.count - 1 < 0 {
                self.waiters.push(tid)
            } else {
                self.waiters
            },
        }
    }
}

/// With nobody waiting, an `up` undoes a `down`.
pub proof fn lemma_up_undoes_down(s: SemaphoreView, tid: usize)
    requires
        s.wf(),
        s.waiters.len() == 0,
    ensures
        s.lowered(tid).raised() == s,
{
    let r = s.lowered(tid).raised();
    if s.count == 0 {
        assert(s.lowered(tid).waiters =~= seq![tid]);
        assert(r.waiters =~= s.waiters);
    }
}

impl View for Semaphore {
    type V = SemaphoreView;

    open spec fn view(&self) -> SemaphoreView {
        SemaphoreView {
            count: self.inner.count,
            total: self.inner.total,
            waiters: self.inner.wait_queue@,
        }
    }
}

impl Semaphore {
    /// Exactly the threads the count says are missing are queued.
    pub open spec fn wf(&self) -> bool {
        self@.wf()
    }

    /// Thread id at the front of the wait queue (for deadlock shadow updates), if any.
    pub fn peek_waiter_tid(&self) -> (r: Option<usize>)
        ensures
            r == self@.front(),
    {
        if self.inner.wait_queue.len() > 0 {
            Some(self.inner.wait_queue[0])
        } else {
            None
        }
    }

    /// Current counter value (for initializing deadlock state).
    pub fn current_count(&self) -> (r: isize)
        ensures
            r == self.inner.count,
    {
        self.inner.count
    }

    /// Get the total count (capacity) of this semaphore.
    pub fn total_count(&self) -> (r: usize)
        ensures
            r == self.inner.total,
    {
        self.inner.total
    }

    /// Create a new semaphore with `res_count` units.
    pub fn new(res_count: usize) -> (r: Self)
        ensures
            r.inner.count == res_count as isize,
            r.inner.total == res_count,
            r.inner.wait_queue@ == Seq::<usize>::empty(),
            res_count <= isize::MAX ==> r.wf(),
    {
        Self {
            inner: SemaphoreInner {
                count: res_count as isize,
                total: res_count,
                wait_queue: VecDeque::new(),
            },
        }
    }

    /// Up operation of the semaphore. Returns the thread to wake, if any:
    /// the oldest waiter, when the count shows that someone is waiting.
    pub fn up(&mut self) -> (woken: Option<usize>)
        requires
            old(self).inner.count < isize::MAX,
        ensures
            woken == old(self)@.woken(),
            final(self)@ == old(self)@.raised(),
            old(self).wf() ==> final(self).wf(),
    {
        self.inner.count = self.inner.count + 1;
        if self.inner.count <= 0 {
            if let Some(task) = self.inner.wait_queue.pop_front() {
                return Some(task);
            }
        }
        None
    }

    /// Down operation of the semaphore for thread `tid`. Returns whether the
    /// thread must block; if so it has been queued behind the other waiters.
    pub fn down(&mut self, tid: usize) -> (must_block: bool)
        requires
            old(self).inner.count > isize::MIN,
        ensures
            must_block == (old(self).inner.count - 1 < 0),
            final(self)@ == old(self)@.lowered(tid),
            old(self).wf() ==> final(self).wf(),
    {
        self.inner.count = self.inner.count - 1;
        if self.inner.count < 0 {
            self.inner.wait_queue.push_back(tid);
            true
        } else {
            false
        }
    }
}

} // verus!
