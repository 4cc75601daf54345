//! The deadlock-avoidance state of a process: one banker for its mutexes
//! and one for its semaphores, each resource column being one lock or one
//! semaphore, each row one thread.

use vstd::prelude::*;
use crate::sync::resource_check::{BankerView, ResourceCheck};
use crate::sync::semaphore::Semaphore;

verus! {

/// Why a lock or a semaphore `down` is refused before it starts.
#[derive(Clone, Copy, PartialEq, Eq, Structural, Debug)]
pub enum Refusal {
    /// The resource is unknown to the banker, or has no units at all.
    NoSuchResource,
    /// Granting or waiting would make the state unsafe.
    Deadlock,
}

/// A resource manager for mutexes and semaphores.
pub struct ResourceManager {
    pub mutex_check: ResourceCheck,
    pub sem_check: ResourceCheck,
}

/// The units a mutex slot contributes: one lock, or none for an empty slot.
pub open spec fn mutex_totals<M>(list: Seq<Option<M>>) -> Seq<usize> {
    Seq::new(list.len(), |i: int| if list[i] is Some { 1usize } else { 0usize })
}

/// The units a semaphore slot contributes: its initial count.
pub open spec fn sem_totals(list: Seq<Option<Semaphore>>) -> Seq<usize> {
    Seq::new(
        list.len(),
        |i: int|
            match list[i] {
                Some(s) => s.inner.total,
                None => 0usize,
            },
    )
}

/// The units of each semaphore that are free right now.
pub open spec fn sem_free(list: Seq<Option<Semaphore>>) -> Seq<usize> {
    Seq::new(
        list.len(),
        |i: int|
            match list[i] {
                Some(s) => if s.inner.count > 0 {
                    s.inner.count as usize
                } else {
                    0usize
                },
                None => 0usize,
            },
    )
}

/// `v` with one more resource column per entry of `extra`, each with that
/// many units, all free, held and claimed by nobody.
pub open spec fn widened(v: BankerView, extra: Seq<usize>) -> BankerView {
    BankerView {
        total: v.total + extra,
        available: v.available + extra,
        allocation: v.allocation.map_values(|r: Seq<usize>| r + BankerView::zero_row(extra.len())),
        max_claim: v.max_claim.map_values(|r: Seq<usize>| r + BankerView::zero_row(extra.len())),
    }
}

/// `v` with a column for each entry of `totals` past the ones it has.
pub open spec fn synced(v: BankerView, totals: Seq<usize>) -> BankerView {
    if totals.len() <= v.num_resources() {
        v
    } else {
        widened(v, totals.subrange(v.num_resources() as int, totals.len() as int))
    }
}

/// A banker that knows the columns of `totals`, all free, and `n` threads
/// that hold and claim nothing.
pub open spec fn fresh(n: nat, totals: Seq<usize>, free: Seq<usize>) -> BankerView {
    BankerView {
        total: totals,
        available: free,
        allocation: Seq::new(n, |_i: int| BankerView::zero_row(totals.len())),
        max_claim: Seq::new(n, |_i: int| BankerView::zero_row(totals.len())),
    }
}

/// Before thread `t` locks mutex `j`: refused when the mutex is unknown
/// or the request for its one unit is refused; otherwise the state after it.
pub open spec fn lock_check(v: BankerView, t: int, j: int) -> Result<BankerView, Refusal> {
    if j >= v.num_resources() || v.total[j] == 0 {
        Err(Refusal::NoSuchResource)
    } else {
        match v.acquired(t, j, 1) {
            Some((_a, w)) => Ok(w),
            None => Err(Refusal::Deadlock),
        }
    }
}

/// Before thread `t` locks mutex `j` again after a condition wait: as
/// `lock_check`, but an unknown mutex is let through unchecked.
pub open spec fn relock_check(v: BankerView, t: int, j: int) -> Result<BankerView, Refusal> {
    if 0 <= j < v.num_resources() && v.total[j] > 0 {
        match v.acquired(t, j, 1) {
            Some((_a, w)) => Ok(w),
            None => Err(Refusal::Deadlock),
        }
    } else {
        Ok(v)
    }
}

/// Before thread `t` takes a unit of semaphore `j`: refused for an unknown
/// semaphore; a semaphore with no units is let through unchecked.
pub open spec fn down_check(v: BankerView, t: int, j: int) -> Result<BankerView, Refusal> {
    if j >= v.num_resources() {
        Err(Refusal::NoSuchResource)
    } else if v.total[j] > 0 {
        match v.acquired(t, j, 1) {
            Some((_a, w)) => Ok(w),
            None => Err(Refusal::Deadlock),
        }
    } else {
        Ok(v)
    }
}

/// Thread `t` got a unit of `j` after waiting: it is recorded unless `t`
/// already holds one (a hand-over gave it).
pub open spec fn after_wait(v: BankerView, t: int, j: int) -> BankerView {
    if 0 <= t < v.num_threads() && 0 <= j < v.num_resources() && v.held(t, j) == 0 {
        v.grant(t, j, 1)
    } else {
        v
    }
}

/// Thread `t` unlocked mutex `j`, handing it straight to `handoff` if some
/// thread was waiting.
pub open spec fn after_unlock(v: BankerView, t: int, j: int, handoff: Option<usize>) -> BankerView {
    if 0 <= j < v.num_resources() && v.total[j] > 0 {
        match handoff {
            Some(nt) => v.hand_over(j, t, nt as int, 1),
            None => if 0 <= t < v.num_threads() {
                v.give_back(t, j, 1)
            } else {
                v
            },
        }
    } else {
        v
    }
}

/// The bookkeeping of `after_unlock` is possible without overflow or
/// hand-over from an unknown thread.
pub open spec fn can_unlock(v: BankerView, t: int, j: int, handoff: Option<usize>) -> bool {
    0 <= j < v.num_resources() && v.total[j] > 0 ==> match handoff {
        Some(nt) => {
            &&& 0 <= t < v.num_threads()
            &&& nt < v.num_threads()
            &&& v.held(t, j) >= 1
            &&& t != nt ==> v.held(nt as int, j) < usize::MAX
        },
        None => 0 <= t < v.num_threads() ==> v.held(t, j) >= 1 && v.available[j] < usize::MAX,
    }
}

/// Thread `t` raised semaphore `j`, waking `waiter` if one was queued. A
/// unit the caller holds goes to the waiter or back to the pool; otherwise
/// a new unit goes to the waiter or to the pool.
pub open spec fn after_up(v: BankerView, t: int, j: int, waiter: Option<usize>) -> BankerView {
    if 0 <= j < v.num_resources() && v.total[j] > 0 {
        let holds = 0 <= t < v.num_threads() && v.held(t, j) > 0;
        match waiter {
            Some(w) => if holds {
                v.hand_over(j, t, w as int, 1)
            } else if w < v.num_threads() {
                v.set_alloc(w as int, j, (v.held(w as int, j) + 1) as usize)
            } else {
                v
            },
            None => if holds {
                v.give_back(t, j, 1)
            } else {
                v.set_available(j, (v.available[j] + 1) as usize)
            },
        }
    } else {
        v
    }
}

/// The bookkeeping of `after_up` is possible without overflow or
/// hand-over to an unknown thread.
pub open spec fn can_up(v: BankerView, t: int, j: int, waiter: Option<usize>) -> bool {
    0 <= j < v.num_resources() && v.total[j] > 0 ==> {
        let holds = 0 <= t < v.num_threads() && v.held(t, j) > 0;
        match waiter {
            Some(w) => if holds {
                &&& w < v.num_threads()
                &&& t != w ==> v.held(w as int, j) < usize::MAX
            } else {
                w < v.num_threads() ==> v.held(w as int, j) < usize::MAX
            },
            None => v.available[j] < usize::MAX,
        }
    }
}

/// Semaphore `j` was taken after a wait: recorded as by `after_wait` for a
/// semaphore that the banker counts.
pub open spec fn after_sem_wait(v: BankerView, t: int, j: int) -> BankerView {
    if 0 <= j < v.num_resources() && v.total[j] > 0 {
        after_wait(v, t, j)
    } else {
        v
    }
}

/// `v` after `push_resource(t)`.
pub open spec fn with_column(v: BankerView, t: usize) -> BankerView {
    BankerView {
        total: v.total.push(t),
        available: v.available.push(t),
        allocation: v.allocation.map_values(|r: Seq<usize>| r.push(0)),
        max_claim: v.max_claim.map_values(|r: Seq<usize>| r.push(0)),
    }
}

proof fn lemma_widen_push(v: BankerView, e: Seq<usize>, t: usize)
    ensures
        with_column(widened(v, e), t) == widened(v, e.push(t)),
{
    let a = with_column(widened(v, e), t);
    let b = widened(v, e.push(t));
    assert(BankerView::zero_row(e.len()).push(0) =~= BankerView::zero_row(e.push(t).len()));
    assert forall|i: int| 0 <= i < v.allocation.len() implies #[trigger] a.allocation[i] =~= b.allocation[i] by {
        assert((v.allocation[i] + BankerView::zero_row(e.len())).push(0) =~= v.allocation[i]
            + BankerView::zero_row(e.push(t).len()));
    }
    assert forall|i: int| 0 <= i < v.max_claim.len() implies #[trigger] a.max_claim[i] =~= b.max_claim[i] by {
        assert((v.max_claim[i] + BankerView::zero_row(e.len())).push(0) =~= v.max_claim[i]
            + BankerView::zero_row(e.push(t).len()));
    }
    assert(a.allocation =~= b.allocation);
    assert(a.max_claim =~= b.max_claim);
    assert(a.total =~= b.total);
    assert(a.available =~= b.available);
}

proof fn lemma_widen_none(v: BankerView)
    ensures
        widened(v, Seq::empty()) == v,
{
    let w = widened(v, Seq::empty());
    assert forall|i: int| 0 <= i < v.allocation.len() implies #[trigger] w.allocation[i] =~= v.allocation[i] by {
    }
    assert forall|i: int| 0 <= i < v.max_claim.len() implies #[trigger] w.max_claim[i] =~= v.max_claim[i] by {
    }
    assert(w.allocation =~= v.allocation);
    assert(w.max_claim =~= v.max_claim);
    assert(w.total =~= v.total);
    assert(w.available =~= v.available);
}

/// An unlock that hands mutex `j` from `t` to another thread `nt` moves one
/// unit from `t` to `nt` and leaves the free units of `j` as they were; an
/// unlock with nobody waiting puts the unit back among the free ones.
pub proof fn lemma_unlock_moves_the_unit(v: BankerView, t: int, j: int, handoff: Option<usize>)
    requires
        v.shaped(),
        0 <= j < v.num_resources(),
        v.total[j] > 0,
        0 <= t < v.num_threads(),
        can_unlock(v, t, j, handoff),
    ensures
        handoff is Some && handoff->0 != t ==> {
            let w = after_unlock(v, t, j, handoff);
            let nt = handoff->0;
            &&& w.held(nt as int, j) == v.held(nt as int, j) + 1
            &&& w.held(t, j) == v.held(t, j) - 1
            &&& w.available[j] == v.available[j]
            &&& w.units(j) == v.units(j)
        },
        handoff is None ==> {
            let w = after_unlock(v, t, j, handoff);
            &&& w.held(t, j) == v.held(t, j) - 1
            &&& w.available[j] == v.available[j] + 1
            &&& w.units(j) == v.units(j)
        },
{
    match handoff {
        Some(nt) => {
            if nt != t {
                v.lemma_units_conserved(t, nt as int, j, 1);
            }
        },
        None => {
            v.lemma_units_conserved(t, t, j, 1);
        },
    }
}

/// A semaphore `up` with nobody waiting gives back the caller's unit if it
/// holds one, and otherwise adds a new unit to the free ones: the units of
/// `j` in the system grow by one exactly when the caller held none. With a
/// waiter, the waiter ends up holding one more unit.
pub proof fn lemma_up_accounts_units(v: BankerView, t: int, j: int, waiter: Option<usize>)
    requires
        v.shaped(),
        0 <= j < v.num_resources(),
        v.total[j] > 0,
        can_up(v, t, j, waiter),
    ensures
        waiter is None ==> after_up(v, t, j, waiter).units(j) == v.units(j) + if 0 <= t
            < v.num_threads() && v.held(t, j) > 0 {
            0int
        } else {
            1int
        },
        waiter is None && !(0 <= t < v.num_threads() && v.held(t, j) > 0) ==> after_up(
            v,
            t,
            j,
            waiter,
        ).available[j] == v.available[j] + 1,
        waiter is Some ==> after_up(v, t, j, waiter).available[j] == v.available[j],
        waiter is Some && (waiter->0 as int) != t && waiter->0 < v.num_threads() ==> after_up(
            v,
            t,
            j,
            waiter,
        ).held(waiter->0 as int, j) == v.held(waiter->0 as int, j) + 1,
{
    let n = v.num_threads() as int;
    let holds = 0 <= t < v.num_threads() && v.held(t, j) > 0;
    match waiter {
        None => {
            if holds {
                v.lemma_units_conserved(t, t, j, 1);
            } else {
                v.lemma_returned_set_available(Set::full(), j, (v.available[j] + 1) as usize, j, n);
            }
        },
        Some(_w) => {},
    }
}

impl ResourceManager {
    pub open spec fn wf(&self) -> bool {
        self.mutex_check.wf() && self.sem_check.wf()
    }

    /// The deadlock state for a process with `num_threads` threads and the
    /// given mutexes and semaphores, with nothing held or claimed yet: every
    /// mutex is free, and each semaphore has its current count free.
    pub fn from_lists<M>(
        mutex_list: &Vec<Option<M>>,
        semaphore_list: &Vec<Option<Semaphore>>,
        num_threads: usize,
    ) -> (r: Self)
        ensures
            r.wf(),
            r.mutex_check@ == fresh(num_threads as nat, mutex_totals(mutex_list@), mutex_totals(mutex_list@)),
            r.sem_check@ == fresh(num_threads as nat, sem_totals(semaphore_list@), sem_free(semaphore_list@)),
    {
        let mut mutex_totals_v: Vec<usize> = Vec::new();
        let mut i: usize = 0;
        while i < mutex_list.len()
            invariant
                i <= mutex_list@.len(),
                mutex_totals_v@ == mutex_totals(mutex_list@).take(i as int),
            decreases mutex_list@.len() - i,
        {
            let unit: usize = if mutex_list[i].is_some() { 1 } else { 0 };
            mutex_totals_v.push(unit);
            i = i + 1;
            assert(mutex_totals_v@ =~= mutex_totals(mutex_list@).take(i as int));
        }
        assert(mutex_totals_v@ =~= mutex_totals(mutex_list@));
        let mut sem_totals_v: Vec<usize> = Vec::new();
        let mut i: usize = 0;
        while i < semaphore_list.len()
            invariant
                i <= semaphore_list@.len(),
                sem_totals_v@ == sem_totals(semaphore_list@).take(i as int),
            decreases semaphore_list@.len() - i,
        {
            let units: usize = match &semaphore_list[i] {
                Some(sem) => sem.total_count(),
                None => 0,
            };
            sem_totals_v.push(units);
            i = i + 1;
            assert(sem_totals_v@ =~= sem_totals(semaphore_list@).take(i as int));
        }
        assert(sem_totals_v@ =~= sem_totals(semaphore_list@));
        let mutex_check = ResourceCheck::new(num_threads, mutex_totals_v);
        let mut sem_check = ResourceCheck::new(num_threads, sem_totals_v);
        let ghost start = sem_check@;
        let mut j: usize = 0;
        while j < semaphore_list.len()
            invariant
                j <= semaphore_list@.len(),
                sem_check.wf(),
                sem_check@.total == start.total,
                sem_check@.allocation == start.allocation,
                sem_check@.max_claim == start.max_claim,
                start.available == sem_totals(semaphore_list@),
                start.total == sem_totals(semaphore_list@),
                sem_check@.available.len() == semaphore_list@.len(),
                forall|x: int| 0 <= x < j ==> #[trigger] sem_check@.available[x] == sem_free(semaphore_list@)[x],
                forall|x: int| j <= x < semaphore_list@.len() ==> #[trigger] sem_check@.available[x] == start.available[x],
            decreases semaphore_list@.len() - j,
        {
            match &semaphore_list[j] {
                Some(sem) => {
                    let c = sem.current_count();
                    let free: usize = if c > 0 { c as usize } else { 0 };
                    sem_check.set_available(j, free);
                },
                None => {},
            }
            j = j + 1;
        }
        assert(sem_check@.available =~= sem_free(semaphore_list@));
        let r = ResourceManager { mutex_check, sem_check };
        assert(r.mutex_check@ =~= fresh(num_threads as nat, mutex_totals(mutex_list@), mutex_totals(mutex_list@)));
        assert(r.sem_check@ =~= fresh(num_threads as nat, sem_totals(semaphore_list@), sem_free(semaphore_list@)));
        r
    }

    /// Give the mutex banker a column for every mutex slot created since it
    /// was last brought up to date.
    pub fn sync_mutex_list<M>(&mut self, mutex_list: &Vec<Option<M>>)
        requires
            old(self).wf(),
        ensures
            final(self).wf(),
            final(self).sem_check@ == old(self).sem_check@,
            final(self).mutex_check@ == synced(old(self).mutex_check@, mutex_totals(mutex_list@)),
    {
        let m0 = self.mutex_check.num_resources();
        if mutex_list.len() <= m0 {
            return;
        }
        let mut i = m0;
        proof {
            lemma_widen_none(old(self).mutex_check@);
            assert(mutex_totals(mutex_list@).subrange(m0 as int, m0 as int) =~= Seq::<usize>::empty());
        }
        while i < mutex_list.len()
            invariant
                self.wf(),
                self.sem_check@ == old(self).sem_check@,
                m0 == old(self).mutex_check@.num_resources(),
                m0 <= i,
                i <= mutex_list@.len(),
                self.mutex_check@ == widened(
                    old(self).mutex_check@,
                    mutex_totals(mutex_list@).subrange(m0 as int, i as int),
                ),
            decreases mutex_list@.len() - i,
        {
            let unit: usize = if mutex_list[i].is_some() { 1 } else { 0 };
            self.mutex_check.push_resource(unit);
            proof {
                let e = mutex_totals(mutex_list@).subrange(m0 as int, i as int);
                lemma_widen_push(old(self).mutex_check@, e, unit);
                assert(e.push(unit) =~= mutex_totals(mutex_list@).subrange(m0 as int, i + 1));
                assert(self.mutex_check@ == with_column(widened(old(self).mutex_check@, e), unit)) by {
                    assert(self.mutex_check@ =~= with_column(widened(old(self).mutex_check@, e), unit));
                }
            }
            i = i + 1;
        }
    }

    /// Give the semaphore banker a column for every semaphore slot created
    /// since it was last brought up to date.
    pub fn sync_semaphore_list(&mut self, semaphore_list: &Vec<Option<Semaphore>>)
        requires
            old(self).wf(),
        ensures
            final(self).wf(),
            final(self).mutex_check@ == old(self).mutex_check@,
            final(self).sem_check@ == synced(old(self).sem_check@, sem_totals(semaphore_list@)),
    {
        let m0 = self.sem_check.num_resources();
        if semaphore_list.len() <= m0 {
            return;
        }
        let mut i = m0;
        proof {
            lemma_widen_none(old(self).sem_check@);
            assert(sem_totals(semaphore_list@).subrange(m0 as int, m0 as int) =~= Seq::<usize>::empty());
        }
        while i < semaphore_list.len()
            invariant
                self.wf(),
                self.mutex_check@ == old(self).mutex_check@,
                m0 == old(self).sem_check@.num_resources(),
                m0 <= i,
                i <= semaphore_list@.len(),
                self.sem_check@ == widened(
                    old(self).sem_check@,
                    sem_totals(semaphore_list@).subrange(m0 as int, i as int),
                ),
            decreases semaphore_list@.len() - i,
        {
            let units: usize = match &semaphore_list[i] {
                Some(sem) => sem.total_count(),
                None => 0,
            };
            self.sem_check.push_resource(units);
            proof {
                let e = sem_totals(semaphore_list@).subrange(m0 as int, i as int);
                lemma_widen_push(old(self).sem_check@, e, units);
                assert(e.push(units) =~= sem_totals(semaphore_list@).subrange(m0 as int, i + 1));
                assert(self.sem_check@ == with_column(widened(old(self).sem_check@, e), units)) by {
                    assert(self.sem_check@ =~= with_column(widened(old(self).sem_check@, e), units));
                }
            }
            i = i + 1;
        }
    }

    /// Check, before thread `t` locks mutex `j`, that the mutex is known
    /// and that granting it or waiting for it is safe; the banker then
    /// records the raised claim (and the grant, if the mutex is free).
    pub fn check_mutex_lock(&mut self, t: usize, j: usize) -> (r: Result<(), Refusal>)
        requires
            old(self).wf(),
        ensures
            final(self).wf(),
            final(self).sem_check@ == old(self).sem_check@,
            (match lock_check(old(self).mutex_check@, t as int, j as int) {
                Ok(w) => r is Ok && final(self).mutex_check@ == w,
                Err(e) => r == Err::<(), Refusal>(e) && final(self).mutex_check@ == old(self).mutex_check@,
            }),
    {
        if j >= self.mutex_check.num_resources() || self.mutex_check.total_units(j) == 0 {
            return Err(Refusal::NoSuchResource);
        }
        match self.mutex_check.try_acquire(t, j, 1) {
            Ok(_) => Ok(()),
            Err(()) => Err(Refusal::Deadlock),
        }
    }

    /// Check, before thread `t` locks mutex `j` again after a condition
    /// wait, that doing so is safe; a mutex the banker does not count is
    /// let through.
    pub fn check_mutex_relock(&mut self, t: usize, j: usize) -> (r: Result<(), Refusal>)
        requires
            old(self).wf(),
        ensures
            final(self).wf(),
            final(self).sem_check@ == old(self).sem_check@,
            (match relock_check(old(self).mutex_check@, t as int, j as int) {
                Ok(w) => r is Ok && final(self).mutex_check@ == w,
                Err(e) => r == Err::<(), Refusal>(e) && final(self).mutex_check@ == old(self).mutex_check@,
            }),
    {
        if j < self.mutex_check.num_resources() && self.mutex_check.total_units(j) > 0 {
            match self.mutex_check.try_acquire(t, j, 1) {
                Ok(_) => {},
                Err(()) => return Err(Refusal::Deadlock),
            }
        }
        Ok(())
    }

    /// Thread `t` holds mutex `j` now: record it, unless a hand-over already did.
    pub fn mutex_acquired(&mut self, t: usize, j: usize)
        requires
            old(self).wf(),
            t < old(self).mutex_check@.num_threads() && j < old(self).mutex_check@.num_resources()
                && old(self).mutex_check@.held(t as int, j as int) == 0 ==> old(self).mutex_check@.available[j as int] >= 1,
        ensures
            final(self).wf(),
            final(self).sem_check@ == old(self).sem_check@,
            final(self).mutex_check@ == after_wait(old(self).mutex_check@, t as int, j as int),
    {
        if self.mutex_check.allocation(t, j) == 0 {
            self.mutex_check.complete_acquire_after_wait(t, j, 1);
        }
    }

    /// Thread `t` unlocked mutex `j`, handing it to `handoff` if a thread
    /// was waiting for it.
    pub fn mutex_released(&mut self, t: usize, j: usize, handoff: Option<usize>)
        requires
            old(self).wf(),
            can_unlock(old(self).mutex_check@, t as int, j as int, handoff),
        ensures
            final(self).wf(),
            final(self).sem_check@ == old(self).sem_check@,
            final(self).mutex_check@ == after_unlock(old(self).mutex_check@, t as int, j as int, handoff),
    {
        if j < self.mutex_check.num_resources() && self.mutex_check.total_units(j) > 0 {
            match handoff {
                Some(ntid) => self.mutex_check.transfer_allocation(j, t, ntid, 1),
                None => self.mutex_check.release(t, j, 1),
            }
        }
    }

    /// Check, before thread `t` takes a unit of semaphore `j`, that the
    /// semaphore is known and, if the banker counts it, that taking or
    /// waiting is safe.
    pub fn check_semaphore_down(&mut self, t: usize, j: usize) -> (r: Result<(), Refusal>)
        requires
            old(self).wf(),
        ensures
            final(self).wf(),
            final(self).mutex_check@ == old(self).mutex_check@,
            (match down_check(old(self).sem_check@, t as int, j as int) {
                Ok(w) => r is Ok && final(self).sem_check@ == w,
                Err(e) => r == Err::<(), Refusal>(e) && final(self).sem_check@ == old(self).sem_check@,
            }),
    {
        if j >= self.sem_check.num_resources() {
            return Err(Refusal::NoSuchResource);
        }
        if self.sem_check.total_units(j) > 0 {
            match self.sem_check.try_acquire(t, j, 1) {
                Ok(_) => {},
                Err(()) => return Err(Refusal::Deadlock),
            }
        }
        Ok(())
    }

    /// Thread `t` got a unit of semaphore `j`: record it, unless it was
    /// handed over already or the banker does not count the semaphore.
    pub fn semaphore_acquired(&mut self, t: usize, j: usize)
        requires
            old(self).wf(),
            t < old(self).sem_check@.num_threads() && j < old(self).sem_check@.num_resources()
                && old(self).sem_check@.total[j as int] > 0
                && old(self).sem_check@.held(t as int, j as int) == 0 ==> old(self).sem_check@.available[j as int] >= 1,
        ensures
            final(self).wf(),
            final(self).mutex_check@ == old(self).mutex_check@,
            final(self).sem_check@ == after_sem_wait(old(self).sem_check@, t as int, j as int),
    {
        let counted = j < self.sem_check.num_resources() && self.sem_check.total_units(j) > 0;
        if counted && self.sem_check.allocation(t, j) == 0 {
            self.sem_check.complete_acquire_after_wait(t, j, 1);
        }
    }

    /// Thread `t` raised semaphore `j`, waking `waiter` if one was queued.
    pub fn semaphore_raised(&mut self, t: usize, j: usize, waiter: Option<usize>)
        requires
            old(self).wf(),
            can_up(old(self).sem_check@, t as int, j as int, waiter),
        ensures
            final(self).wf(),
            final(self).mutex_check@ == old(self).mutex_check@,
            final(self).sem_check@ == after_up(old(self).sem_check@, t as int, j as int, waiter),
    {
        if j < self.sem_check.num_resources() && self.sem_check.total_units(j) > 0 {
            let caller_holds = self.sem_check.allocation(t, j) > 0;
            match waiter {
                Some(wt) => {
                    if caller_holds {
                        self.sem_check.transfer_allocation(j, t, wt, 1);
                    } else {
                        self.sem_check.semaphore_up_wake(j, wt);
                    }
                },
                None => {
                    if caller_holds {
                        self.sem_check.release(t, j, 1);
                    } else {
                        self.sem_check.semaphore_up_no_waiter(j, 1);
                    }
                },
            }
        }
    }
}

} // verus!
