//! Synchronisation system calls: creating mutexes, semaphores and
//! condition variables, and the deadlock-avoidance bookkeeping around
//! locking, unlocking, `up` and `down`. Blocking, waking and the mutexes
//! themselves belong to the scheduler; these calls tell it whom to block
//! or wake and keep the banker in step.

use vstd::prelude::*;
use crate::sync::resource_check::BankerView;
use crate::sync::resource_manager::{
    after_sem_wait, after_unlock, after_up, after_wait, can_unlock, can_up, down_check, fresh,
    lock_check, mutex_totals, relock_check, sem_free, sem_totals, synced, Refusal, ResourceManager,
};
use crate::sync::semaphore::Semaphore;
use crate::syscall::slots::{alloc_slot, slot_for};

verus! {

/// User-visible error when the banker detects an unsafe (deadlock) state.
pub const SYSCALL_DEADLOCK: isize = -0xDEAD;

/// The synchronisation state of a process: its mutexes (`M`), semaphores
/// and condition variables (`C`), indexed by id, and its deadlock state.
pub struct ProcessSync<M, C> {
    pub mutex_list: Vec<Option<M>>,
    pub semaphore_list: Vec<Option<Semaphore>>,
    pub condvar_list: Vec<Option<C>>,
    pub deadlock_detect: bool,
    pub resource_manager: Option<ResourceManager>,
}

/// The value a refused call returns.
pub open spec fn refusal_code(e: Refusal) -> isize {
    match e {
        Refusal::NoSuchResource => -1isize,
        Refusal::Deadlock => SYSCALL_DEADLOCK,
    }
}

fn code_of(e: Refusal) -> (r: isize)
    ensures
        r == refusal_code(e),
{
    match e {
        Refusal::NoSuchResource => -1isize,
        Refusal::Deadlock => SYSCALL_DEADLOCK,
    }
}

impl<M, C> ProcessSync<M, C> {
    pub open spec fn wf(&self) -> bool {
        self.resource_manager matches Some(rm) ==> rm.wf()
    }

    /// Deadlock detection is on and has its state.
    pub open spec fn banker_on(&self) -> bool {
        self.deadlock_detect && self.resource_manager is Some
    }

    pub open spec fn mutex_banker(&self) -> BankerView {
        self.resource_manager->0.mutex_check@
    }

    pub open spec fn sem_banker(&self) -> BankerView {
        self.resource_manager->0.sem_check@
    }

    /// A process with no synchronisation objects and detection off.
    pub fn new() -> (r: Self)
        ensures
            r.wf(),
            r.mutex_list@ == Seq::<Option<M>>::empty(),
            r.semaphore_list@ == Seq::<Option<Semaphore>>::empty(),
            r.condvar_list@ == Seq::<Option<C>>::empty(),
            !r.deadlock_detect,
            r.resource_manager is None,
    {
        ProcessSync {
            mutex_list: Vec::new(),
            semaphore_list: Vec::new(),
            condvar_list: Vec::new(),
            deadlock_detect: false,
            resource_manager: None,
        }
    }
}

/// Mutex create: store `mutex` under the lowest free id and return the id.
pub fn sys_mutex_create<M, C>(ps: &mut ProcessSync<M, C>, mutex: M) -> (r: isize)
    requires
        old(ps).wf(),
        old(ps).mutex_list@.len() < isize::MAX,
    ensures
        final(ps).wf(),
        r == slot_for(old(ps).mutex_list@),
        r < old(ps).mutex_list@.len() ==> final(ps).mutex_list@ == old(ps).mutex_list@.update(
            r as int,
            Some(mutex),
        ),
        r == old(ps).mutex_list@.len() ==> final(ps).mutex_list@ == old(ps).mutex_list@.push(
            Some(mutex),
        ),
        final(ps).semaphore_list@ == old(ps).semaphore_list@,
        final(ps).condvar_list@ == old(ps).condvar_list@,
        final(ps).deadlock_detect == old(ps).deadlock_detect,
        final(ps).resource_manager is Some == old(ps).resource_manager is Some,
        old(ps).banker_on() ==> {
            &&& final(ps).mutex_banker() == synced(
                old(ps).mutex_banker(),
                mutex_totals(final(ps).mutex_list@),
            )
            &&& final(ps).sem_banker() == old(ps).sem_banker()
        },
        !old(ps).banker_on() ==> final(ps).resource_manager == old(ps).resource_manager,
{
    let id = alloc_slot(&mut ps.mutex_list, mutex);
    if ps.deadlock_detect {
        match &mut ps.resource_manager {
            Some(rm) => rm.sync_mutex_list(&ps.mutex_list),
            None => {},
        }
    }
    id as isize
}

/// Mutex lock, first half: with deadlock detection on, refuse an unknown
/// mutex (-1) or a lock that could deadlock (`SYSCALL_DEADLOCK`); otherwise
/// record the raised claim, and the grant if the mutex is free. On `Ok` the
/// caller locks the mutex and then calls `mutex_lock_acquired`.
pub fn sys_mutex_lock<M, C>(ps: &mut ProcessSync<M, C>, tid: usize, mutex_id: usize) -> (r: Result<(), isize>)
    requires
        old(ps).wf(),
    ensures
        final(ps).wf(),
        final(ps).mutex_list@ == old(ps).mutex_list@,
        final(ps).semaphore_list@ == old(ps).semaphore_list@,
        final(ps).condvar_list@ == old(ps).condvar_list@,
        final(ps).deadlock_detect == old(ps).deadlock_detect,
        final(ps).resource_manager is Some == old(ps).resource_manager is Some,
        !old(ps).banker_on() ==> r is Ok && final(ps).resource_manager == old(ps).resource_manager,
        old(ps).banker_on() ==> final(ps).sem_banker() == old(ps).sem_banker(),
        old(ps).banker_on() ==> (match lock_check(old(ps).mutex_banker(), tid as int, mutex_id as int) {
            Ok(w) => r is Ok && final(ps).mutex_banker() == w,
            Err(e) => r == Err::<(), isize>(refusal_code(e)) && final(ps).mutex_banker()
                == old(ps).mutex_banker(),
        }),
{
    if ps.deadlock_detect {
        match &mut ps.resource_manager {
            Some(rm) => {
                match rm.check_mutex_lock(tid, mutex_id) {
                    Ok(()) => {},
                    Err(e) => return Err(code_of(e)),
                }
            },
            None => {},
        }
    }
    Ok(())
}

/// Mutex lock, second half: the caller holds the mutex now; with deadlock
/// detection on, record it unless a hand-over already did. Returns 0.
pub fn mutex_lock_acquired<M, C>(ps: &mut ProcessSync<M, C>, tid: usize, mutex_id: usize) -> (r: isize)
    requires
        old(ps).wf(),
        old(ps).banker_on() && tid < old(ps).mutex_banker().num_threads() && mutex_id
            < old(ps).mutex_banker().num_resources() && old(ps).mutex_banker().held(
            tid as int,
            mutex_id as int,
        ) == 0 ==> old(ps).mutex_banker().available[mutex_id as int] >= 1,
    ensures
        final(ps).wf(),
        r == 0,
        final(ps).mutex_list@ == old(ps).mutex_list@,
        final(ps).semaphore_list@ == old(ps).semaphore_list@,
        final(ps).condvar_list@ == old(ps).condvar_list@,
        final(ps).deadlock_detect == old(ps).deadlock_detect,
        final(ps).resource_manager is Some == old(ps).resource_manager is Some,
        !old(ps).banker_on() ==> final(ps).resource_manager == old(ps).resource_manager,
        old(ps).banker_on() ==> final(ps).sem_banker() == old(ps).sem_banker()
            && final(ps).mutex_banker() == after_wait(old(ps).mutex_banker(), tid as int, mutex_id as int),
{
    if ps.deadlock_detect {
        match &mut ps.resource_manager {
            Some(rm) => rm.mutex_acquired(tid, mutex_id),
            None => {},
        }
    }
    0
}

/// Mutex unlock: the caller has unlocked mutex `mutex_id`, which went
/// straight to thread `handoff` if one was waiting. With deadlock detection
/// on, the banker moves the unit to that thread or back to the pool.
/// Returns 0.
pub fn sys_mutex_unlock<M, C>(
    ps: &mut ProcessSync<M, C>,
    tid: usize,
    mutex_id: usize,
    handoff: Option<usize>,
) -> (r: isize)
    requires
        old(ps).wf(),
        old(ps).banker_on() ==> can_unlock(old(ps).mutex_banker(), tid as int, mutex_id as int, handoff),
    ensures
        final(ps).wf(),
        r == 0,
        final(ps).mutex_list@ == old(ps).mutex_list@,
        final(ps).semaphore_list@ == old(ps).semaphore_list@,
        final(ps).condvar_list@ == old(ps).condvar_list@,
        final(ps).deadlock_detect == old(ps).deadlock_detect,
        final(ps).resource_manager is Some == old(ps).resource_manager is Some,
        !old(ps).banker_on() ==> final(ps).resource_manager == old(ps).resource_manager,
        old(ps).banker_on() ==> final(ps).sem_banker() == old(ps).sem_banker()
            && final(ps).mutex_banker() == after_unlock(
            old(ps).mutex_banker(),
            tid as int,
            mutex_id as int,
            handoff,
        ),
{
    if ps.deadlock_detect {
        match &mut ps.resource_manager {
            Some(rm) => rm.mutex_released(tid, mutex_id, handoff),
            None => {},
        }
    }
    0
}

/// Semaphore create: a semaphore with `res_count` units under the lowest
/// free id; returns the id.
pub fn sys_semaphore_create<M, C>(ps: &mut ProcessSync<M, C>, res_count: usize) -> (r: isize)
    requires
        old(ps).wf(),
        old(ps).semaphore_list@.len() < isize::MAX,
    ensures
        final(ps).wf(),
        r == slot_for(old(ps).semaphore_list@),
        final(ps).semaphore_list@.len() == if r < old(ps).semaphore_list@.len() {
            old(ps).semaphore_list@.len()
        } else {
            old(ps).semaphore_list@.len() + 1
        },
        final(ps).semaphore_list@[r as int] matches Some(s) && s@.count == res_count as isize
            && s@.total == res_count && s@.waiters == Seq::<usize>::empty(),
        forall|k: int|
            0 <= k < old(ps).semaphore_list@.len() && k != r ==> #[trigger] final(ps).semaphore_list@[k]
                == old(ps).semaphore_list@[k],
        final(ps).mutex_list@ == old(ps).mutex_list@,
        final(ps).condvar_list@ == old(ps).condvar_list@,
        final(ps).deadlock_detect == old(ps).deadlock_detect,
        final(ps).resource_manager is Some == old(ps).resource_manager is Some,
        old(ps).banker_on() ==> {
            &&& final(ps).sem_banker() == synced(
                old(ps).sem_banker(),
                sem_totals(final(ps).semaphore_list@),
            )
            &&& final(ps).mutex_banker() == old(ps).mutex_banker()
        },
        !old(ps).banker_on() ==> final(ps).resource_manager == old(ps).resource_manager,
{
    let id = alloc_slot(&mut ps.semaphore_list, Semaphore::new(res_count));
    if ps.deadlock_detect {
        match &mut ps.resource_manager {
            Some(rm) => rm.sync_semaphore_list(&ps.semaphore_list),
            None => {},
        }
    }
    id as isize
}

/// The semaphore stored under `sem_id`.
pub open spec fn sem_at<M, C>(ps: ProcessSync<M, C>, sem_id: usize) -> Semaphore {
    ps.semaphore_list@[sem_id as int]->0
}

/// Semaphore up by thread `tid`: raise the semaphore and, with deadlock
/// detection on, move the unit as `after_up` says. Returns the thread to
/// wake, if any; the call itself returns 0.
pub fn sys_semaphore_up<M, C>(ps: &mut ProcessSync<M, C>, tid: usize, sem_id: usize) -> (woken: Option<usize>)
    requires
        old(ps).wf(),
        sem_id < old(ps).semaphore_list@.len(),
        old(ps).semaphore_list@[sem_id as int] is Some,
        sem_at(*old(ps), sem_id)@.count < isize::MAX,
        old(ps).banker_on() ==> can_up(
            old(ps).sem_banker(),
            tid as int,
            sem_id as int,
            sem_at(*old(ps), sem_id)@.front(),
        ),
    ensures
        final(ps).wf(),
        woken == sem_at(*old(ps), sem_id)@.woken(),
        final(ps).semaphore_list@.len() == old(ps).semaphore_list@.len(),
        final(ps).semaphore_list@[sem_id as int] is Some,
        sem_at(*final(ps), sem_id)@ == sem_at(*old(ps), sem_id)@.raised(),
        forall|k: int|
            0 <= k < old(ps).semaphore_list@.len() && k != sem_id ==> #[trigger] final(ps).semaphore_list@[k]
                == old(ps).semaphore_list@[k],
        final(ps).mutex_list@ == old(ps).mutex_list@,
        final(ps).condvar_list@ == old(ps).condvar_list@,
        final(ps).deadlock_detect == old(ps).deadlock_detect,
        final(ps).resource_manager is Some == old(ps).resource_manager is Some,
        !old(ps).banker_on() ==> final(ps).resource_manager == old(ps).resource_manager,
        old(ps).banker_on() ==> final(ps).mutex_banker() == old(ps).mutex_banker()
            && final(ps).sem_banker() == after_up(
            old(ps).sem_banker(),
            tid as int,
            sem_id as int,
            sem_at(*old(ps), sem_id)@.front(),
        ),
{
    let mut waiter: Option<usize> = None;
    let mut woken: Option<usize> = None;
    match &mut ps.semaphore_list[sem_id] {
        Some(sem) => {
            waiter = sem.peek_waiter_tid();
            woken = sem.up();
        },
        None => {},
    }
    if ps.deadlock_detect {
        match &mut ps.resource_manager {
            Some(rm) => rm.semaphore_raised(tid, sem_id, waiter),
            None => {},
        }
    }
    woken
}

/// The semaphore `down` of thread `tid` is refused before it starts.
pub open spec fn down_refused<M, C>(ps: ProcessSync<M, C>, tid: usize, sem_id: usize) -> bool {
    ps.banker_on() && down_check(ps.sem_banker(), tid as int, sem_id as int) is Err
}

/// Semaphore down by thread `tid`, first half: with deadlock detection on,
/// refuse an unknown semaphore (-1) or a `down` that could deadlock
/// (`SYSCALL_DEADLOCK`); otherwise lower the semaphore. `Ok(true)` means
/// the thread must block until woken; either way it then calls
/// `semaphore_down_acquired`.
pub fn sys_semaphore_down<M, C>(ps: &mut ProcessSync<M, C>, tid: usize, sem_id: usize) -> (r: Result<bool, isize>)
    requires
        old(ps).wf(),
        !down_refused(*old(ps), tid, sem_id) ==> {
            &&& sem_id < old(ps).semaphore_list@.len()
            &&& old(ps).semaphore_list@[sem_id as int] is Some
            &&& sem_at(*old(ps), sem_id)@.count > isize::MIN
        },
    ensures
        final(ps).wf(),
        final(ps).mutex_list@ == old(ps).mutex_list@,
        final(ps).condvar_list@ == old(ps).condvar_list@,
        final(ps).deadlock_detect == old(ps).deadlock_detect,
        final(ps).resource_manager is Some == old(ps).resource_manager is Some,
        down_refused(*old(ps), tid, sem_id) ==> {
            &&& r == Err::<bool, isize>(refusal_code(
                down_check(old(ps).sem_banker(), tid as int, sem_id as int)->Err_0,
            ))
            &&& final(ps).semaphore_list@ == old(ps).semaphore_list@
            &&& final(ps).sem_banker() == old(ps).sem_banker()
            &&& final(ps).mutex_banker() == old(ps).mutex_banker()
        },
        !down_refused(*old(ps), tid, sem_id) ==> {
            &&& r == Ok::<bool, isize>(sem_at(*old(ps), sem_id)@.count - 1 < 0)
            &&& final(ps).semaphore_list@.len() == old(ps).semaphore_list@.len()
            &&& final(ps).semaphore_list@[sem_id as int] is Some
            &&& sem_at(*final(ps), sem_id)@ == sem_at(*old(ps), sem_id)@.lowered(tid)
            &&& forall|k: int|
                0 <= k < old(ps).semaphore_list@.len() && k != sem_id ==> #[trigger] final(ps).semaphore_list@[k] == old(ps).semaphore_list@[k]
            &&& !old(ps).banker_on() ==> final(ps).resource_manager == old(ps).resource_manager
            &&& old(ps).banker_on() ==> final(ps).mutex_banker() == old(ps).mutex_banker()
                && final(ps).sem_banker() == down_check(
                old(ps).sem_banker(),
                tid as int,
                sem_id as int,
            )->Ok_0
        },
{
    if ps.deadlock_detect {
        match &mut ps.resource_manager {
            Some(rm) => {
                match rm.check_semaphore_down(tid, sem_id) {
                    Ok(()) => {},
                    Err(e) => return Err(code_of(e)),
                }
            },
            None => {},
        }
    }
    let mut must_block = false;
    match &mut ps.semaphore_list[sem_id] {
        Some(sem) => {
            must_block = sem.down(tid);
        },
        None => {},
    }
    Ok(must_block)
}

/// Semaphore down, second half: the thread has its unit now; with deadlock
/// detection on, record it unless a hand-over already did. Returns 0.
pub fn semaphore_down_acquired<M, C>(ps: &mut ProcessSync<M, C>, tid: usize, sem_id: usize) -> (r: isize)
    requires
        old(ps).wf(),
        old(ps).banker_on() && tid < old(ps).sem_banker().num_threads() && sem_id
            < old(ps).sem_banker().num_resources() && old(ps).sem_banker().total[sem_id as int] > 0
            && old(ps).sem_banker().held(tid as int, sem_id as int) == 0 ==> old(ps).sem_banker().available[sem_id as int] >= 1,
    ensures
        final(ps).wf(),
        r == 0,
        final(ps).mutex_list@ == old(ps).mutex_list@,
        final(ps).semaphore_list@ == old(ps).semaphore_list@,
        final(ps).condvar_list@ == old(ps).condvar_list@,
        final(ps).deadlock_detect == old(ps).deadlock_detect,
        final(ps).resource_manager is Some == old(ps).resource_manager is Some,
        !old(ps).banker_on() ==> final(ps).resource_manager == old(ps).resource_manager,
        old(ps).banker_on() ==> final(ps).mutex_banker() == old(ps).mutex_banker()
            && final(ps).sem_banker() == after_sem_wait(old(ps).sem_banker(), tid as int, sem_id as int),
{
    if ps.deadlock_detect {
        match &mut ps.resource_manager {
            Some(rm) => rm.semaphore_acquired(tid, sem_id),
            None => {},
        }
    }
    0
}

/// Condition variable create: store `condvar` under the lowest free id and
/// return the id.
pub fn sys_condvar_create<M, C>(ps: &mut ProcessSync<M, C>, condvar: C) -> (r: isize)
    requires
        old(ps).condvar_list@.len() < isize::MAX,
    ensures
        r == slot_for(old(ps).condvar_list@),
        r < old(ps).condvar_list@.len() ==> final(ps).condvar_list@ == old(ps).condvar_list@.update(
            r as int,
            Some(condvar),
        ),
        r == old(ps).condvar_list@.len() ==> final(ps).condvar_list@ == old(ps).condvar_list@.push(
            Some(condvar),
        ),
        final(ps).mutex_list@ == old(ps).mutex_list@,
        final(ps).semaphore_list@ == old(ps).semaphore_list@,
        final(ps).deadlock_detect == old(ps).deadlock_detect,
        final(ps).resource_manager == old(ps).resource_manager,
{
    let id = alloc_slot(&mut ps.condvar_list, condvar);
    id as isize
}

/// Condition wait, first half: returns whether deadlock detection is on.
/// If it is off, the caller simply waits on the condition variable. If it
/// is on, the caller has unlocked the mutex (handing it to `handoff` if a
/// thread was waiting), and the banker is told so here; the caller then
/// waits, and on waking calls `condvar_wait_relock`.
pub fn sys_condvar_wait<M, C>(
    ps: &mut ProcessSync<M, C>,
    tid: usize,
    mutex_id: usize,
    handoff: Option<usize>,
) -> (detect: bool)
    requires
        old(ps).wf(),
        old(ps).deadlock_detect && old(ps).resource_manager is Some ==> can_unlock(
            old(ps).mutex_banker(),
            tid as int,
            mutex_id as int,
            handoff,
        ),
    ensures
        final(ps).wf(),
        detect == old(ps).deadlock_detect,
        final(ps).mutex_list@ == old(ps).mutex_list@,
        final(ps).semaphore_list@ == old(ps).semaphore_list@,
        final(ps).condvar_list@ == old(ps).condvar_list@,
        final(ps).deadlock_detect == old(ps).deadlock_detect,
        final(ps).resource_manager is Some == old(ps).resource_manager is Some,
        !old(ps).banker_on() ==> final(ps).resource_manager == old(ps).resource_manager,
        old(ps).banker_on() ==> final(ps).sem_banker() == old(ps).sem_banker()
            && final(ps).mutex_banker() == after_unlock(
            old(ps).mutex_banker(),
            tid as int,
            mutex_id as int,
            handoff,
        ),
{
    let dl = ps.deadlock_detect;
    if !dl {
        return false;
    }
    match &mut ps.resource_manager {
        Some(rm) => rm.mutex_released(tid, mutex_id, handoff),
        None => {},
    }
    true
}

/// Condition wait with deadlock detection, after waking: check that locking
/// the mutex again is safe (`SYSCALL_DEADLOCK` otherwise). On `Ok` the
/// caller locks the mutex and calls `condvar_wait_acquired`.
pub fn condvar_wait_relock<M, C>(ps: &mut ProcessSync<M, C>, tid: usize, mutex_id: usize) -> (r: Result<(), isize>)
    requires
        old(ps).wf(),
    ensures
        final(ps).wf(),
        final(ps).mutex_list@ == old(ps).mutex_list@,
        final(ps).semaphore_list@ == old(ps).semaphore_list@,
        final(ps).condvar_list@ == old(ps).condvar_list@,
        final(ps).deadlock_detect == old(ps).deadlock_detect,
        final(ps).resource_manager is Some == old(ps).resource_manager is Some,
        old(ps).resource_manager is None ==> r is Ok && final(ps).resource_manager == old(ps).resource_manager,
        old(ps).resource_manager is Some ==> final(ps).sem_banker() == old(ps).sem_banker(),
        old(ps).resource_manager is Some ==> (match relock_check(old(ps).mutex_banker(), tid as int, mutex_id as int) {
            Ok(w) => r is Ok && final(ps).mutex_banker() == w,
            Err(e) => r == Err::<(), isize>(refusal_code(e)) && final(ps).mutex_banker()
                == old(ps).mutex_banker(),
        }),
{
    match &mut ps.resource_manager {
        Some(rm) => {
            match rm.check_mutex_relock(tid, mutex_id) {
                Ok(()) => {},
                Err(e) => return Err(code_of(e)),
            }
        },
        None => {},
    }
    Ok(())
}

/// Condition wait with deadlock detection, once the mutex is locked again:
/// record it unless a hand-over already did. Returns 0.
pub fn condvar_wait_acquired<M, C>(ps: &mut ProcessSync<M, C>, tid: usize, mutex_id: usize) -> (r: isize)
    requires
        old(ps).wf(),
        old(ps).resource_manager is Some && tid < old(ps).mutex_banker().num_threads() && mutex_id
            < old(ps).mutex_banker().num_resources() && old(ps).mutex_banker().held(
            tid as int,
            mutex_id as int,
        ) == 0 ==> old(ps).mutex_banker().available[mutex_id as int] >= 1,
    ensures
        final(ps).wf(),
        r == 0,
        final(ps).mutex_list@ == old(ps).mutex_list@,
        final(ps).semaphore_list@ == old(ps).semaphore_list@,
        final(ps).condvar_list@ == old(ps).condvar_list@,
        final(ps).deadlock_detect == old(ps).deadlock_detect,
        final(ps).resource_manager is Some == old(ps).resource_manager is Some,
        old(ps).resource_manager is None ==> final(ps).resource_manager == old(ps).resource_manager,
        old(ps).resource_manager is Some ==> final(ps).sem_banker() == old(ps).sem_banker()
            && final(ps).mutex_banker() == after_wait(old(ps).mutex_banker(), tid as int, mutex_id as int),
{
    match &mut ps.resource_manager {
        Some(rm) => rm.mutex_acquired(tid, mutex_id),
        None => {},
    }
    0
}

/// Enable (1) or disable (0) deadlock detection for a process with
/// `num_threads` threads; any other value is refused with -1. Enabling
/// starts a fresh banker from the current mutexes and semaphores.
pub fn sys_enable_deadlock_detect<M, C>(ps: &mut ProcessSync<M, C>, enabled: usize, num_threads: usize) -> (r: isize)
    requires
        old(ps).wf(),
    ensures
        final(ps).wf(),
        final(ps).mutex_list@ == old(ps).mutex_list@,
        final(ps).semaphore_list@ == old(ps).semaphore_list@,
        final(ps).condvar_list@ == old(ps).condvar_list@,
        enabled != 0 && enabled != 1 ==> r == -1 && final(ps).deadlock_detect == old(ps).deadlock_detect
            && final(ps).resource_manager == old(ps).resource_manager,
        enabled == 0 ==> r == 0 && !final(ps).deadlock_detect && final(ps).resource_manager is None,
        enabled == 1 ==> {
            &&& r == 0
            &&& final(ps).banker_on()
            &&& final(ps).mutex_banker() == fresh(
                num_threads as nat,
                mutex_totals(old(ps).mutex_list@),
                mutex_totals(old(ps).mutex_list@),
            )
            &&& final(ps).sem_banker() == fresh(
                num_threads as nat,
                sem_totals(old(ps).semaphore_list@),
                sem_free(old(ps).semaphore_list@),
            )
        },
{
    if enabled != 0 && enabled != 1 {
        return -1;
    }
    if enabled == 0 {
        ps.deadlock_detect = false;
        ps.resource_manager = None;
        return 0;
    }
    ps.deadlock_detect = true;
    ps.resource_manager = Some(
        ResourceManager::from_lists(&ps.mutex_list, &ps.semaphore_list, num_threads),
    );
    0
}

} // verus!
