use lib::sync::resource_check::{AcquireResult, ResourceCheck};

#[test]
fn empty_state_has_nothing() {
    let rc = ResourceCheck::empty();
    assert_eq!(rc.num_threads(), 0);
    assert_eq!(rc.num_resources(), 0);
    assert!(rc.is_safe());
}

#[test]
fn new_state_is_safe_and_holds_nothing() {
    let rc = ResourceCheck::new(3, vec![2, 1]);
    assert_eq!(rc.num_threads(), 3);
    assert_eq!(rc.num_resources(), 2);
    assert_eq!(rc.total, vec![2, 1]);
    for t in 0..3 {
        for j in 0..2 {
            assert_eq!(rc.allocation(t, j), 0);
        }
    }
    assert!(rc.is_safe());
}

#[test]
fn allocation_out_of_range_is_zero() {
    let mut rc = ResourceCheck::new(1, vec![1]);
    assert_eq!(rc.try_acquire(0, 0, 1), Ok(AcquireResult::Granted));
    assert_eq!(rc.allocation(0, 0), 1);
    assert_eq!(rc.allocation(1, 0), 0);
    assert_eq!(rc.allocation(0, 1), 0);
}

#[test]
fn zero_units_are_granted_without_change() {
    let mut rc = ResourceCheck::new(1, vec![1]);
    assert_eq!(rc.try_acquire(5, 9, 0), Ok(AcquireResult::Granted));
    assert_eq!(rc.allocation(0, 0), 0);
}

#[test]
fn unknown_thread_or_resource_is_refused() {
    let mut rc = ResourceCheck::new(1, vec![1]);
    assert_eq!(rc.try_acquire(1, 0, 1), Err(()));
    assert_eq!(rc.try_acquire(0, 1, 1), Err(()));
    assert_eq!(rc.allocation(0, 0), 0);
}

#[test]
fn asking_for_more_than_exists_is_refused() {
    let mut rc = ResourceCheck::new(1, vec![2]);
    assert_eq!(rc.try_acquire(0, 0, 3), Err(()));
    assert_eq!(rc.try_acquire(0, 0, 2), Ok(AcquireResult::Granted));
    assert_eq!(rc.try_acquire(0, 0, 1), Err(()));
    assert_eq!(rc.allocation(0, 0), 2);
    assert_eq!(rc.try_acquire(0, 0, usize::MAX), Err(()));
}

#[test]
fn crossing_locks_is_refused_as_deadlock() {
    // two threads, two locks: each takes one lock, then wants the other
    let mut rc = ResourceCheck::new(2, vec![1, 1]);
    assert_eq!(rc.try_acquire(0, 0, 1), Ok(AcquireResult::Granted));
    assert_eq!(rc.try_acquire(1, 1, 1), Ok(AcquireResult::Granted));
    // thread 0 may wait for lock 1: thread 1 can still finish first
    assert_eq!(rc.try_acquire(0, 1, 1), Ok(AcquireResult::WillWait));
    assert!(rc.is_safe());
    // thread 1 asking for lock 0 would close the cycle
    assert_eq!(rc.try_acquire(1, 0, 1), Err(()));
    assert!(rc.is_safe());
    assert_eq!(rc.allocation(1, 0), 0);
    assert_eq!(rc.allocation(1, 1), 1);
}

#[test]
fn refused_grant_is_rolled_back() {
    let mut rc = ResourceCheck::new(2, vec![2, 1]);
    assert_eq!(rc.try_acquire(0, 1, 1), Ok(AcquireResult::Granted));
    assert_eq!(rc.try_acquire(1, 0, 1), Ok(AcquireResult::Granted));
    assert_eq!(rc.try_acquire(0, 0, 1), Ok(AcquireResult::Granted));
    // thread 1 now wants the lock thread 0 holds: 0 needs nothing more,
    // so waiting is safe
    assert_eq!(rc.try_acquire(1, 1, 1), Ok(AcquireResult::WillWait));
    // thread 0 wants one more unit of resource 0, held by 1: unsafe
    assert_eq!(rc.try_acquire(0, 0, 1), Err(()));
    assert_eq!(rc.allocation(0, 0), 1);
    assert_eq!(rc.allocation(1, 0), 1);
    assert!(rc.is_safe());
}

#[test]
fn release_returns_units_to_the_pool() {
    let mut rc = ResourceCheck::new(2, vec![1]);
    assert_eq!(rc.try_acquire(0, 0, 1), Ok(AcquireResult::Granted));
    assert_eq!(rc.try_acquire(1, 0, 1), Ok(AcquireResult::WillWait));
    rc.release(0, 0, 1);
    assert_eq!(rc.allocation(0, 0), 0);
    rc.complete_acquire_after_wait(1, 0, 1);
    assert_eq!(rc.allocation(1, 0), 1);
    assert!(rc.is_safe());
}

#[test]
fn release_after_grant_restores_the_state() {
    let mut rc = ResourceCheck::new(2, vec![3]);
    rc.complete_acquire_after_wait(1, 0, 2);
    assert_eq!(rc.allocation(1, 0), 2);
    rc.release(1, 0, 2);
    assert_eq!(rc.allocation(1, 0), 0);
    // all three units are free again
    assert_eq!(rc.try_acquire(0, 0, 3), Ok(AcquireResult::Granted));
}

#[test]
fn release_and_complete_ignore_unknown_or_empty_requests() {
    let mut rc = ResourceCheck::new(1, vec![1]);
    rc.release(0, 0, 0);
    rc.release(3, 0, 1);
    rc.complete_acquire_after_wait(0, 4, 1);
    rc.complete_acquire_after_wait(0, 0, 0);
    assert_eq!(rc.allocation(0, 0), 0);
    assert_eq!(rc.try_acquire(0, 0, 1), Ok(AcquireResult::Granted));
}

#[test]
fn transfer_moves_a_lock_between_threads() {
    let mut rc = ResourceCheck::new(3, vec![1]);
    assert_eq!(rc.try_acquire(0, 0, 1), Ok(AcquireResult::Granted));
    assert_eq!(rc.try_acquire(2, 0, 1), Ok(AcquireResult::WillWait));
    rc.transfer_allocation(0, 0, 2, 1);
    assert_eq!(rc.allocation(0, 0), 0);
    assert_eq!(rc.allocation(2, 0), 1);
    // the unit was passed on, not freed: nobody else gets it at once
    assert_eq!(rc.try_acquire(1, 0, 1), Ok(AcquireResult::WillWait));
    // unknown resource or zero units: nothing happens
    rc.transfer_allocation(5, 2, 0, 1);
    rc.transfer_allocation(0, 2, 0, 0);
    assert_eq!(rc.allocation(2, 0), 1);
}

#[test]
fn semaphore_up_with_a_waiter_gives_it_a_unit() {
    let mut rc = ResourceCheck::new(2, vec![1]);
    rc.semaphore_up_wake(0, 1);
    assert_eq!(rc.allocation(1, 0), 1);
    rc.semaphore_up_wake(0, 7);
    rc.semaphore_up_wake(3, 1);
    assert_eq!(rc.allocation(1, 0), 1);
}

#[test]
fn semaphore_up_without_waiter_frees_a_unit() {
    let mut rc = ResourceCheck::new(1, vec![1]);
    assert_eq!(rc.try_acquire(0, 0, 1), Ok(AcquireResult::Granted));
    rc.semaphore_up_no_waiter(0, 1);
    assert!(rc.is_safe());
    // the pool has one unit again
    assert_eq!(rc.try_acquire(0, 0, 1), Err(()));
    rc.semaphore_up_no_waiter(4, 1);
}

#[test]
fn set_available_controls_what_is_free() {
    let mut rc = ResourceCheck::new(1, vec![2]);
    rc.set_available(0, 0);
    // nothing free: even waiting could never end
    assert_eq!(rc.try_acquire(0, 0, 1), Err(()));
    rc.set_available(0, 1);
    assert_eq!(rc.try_acquire(0, 0, 1), Ok(AcquireResult::Granted));
    rc.set_available(9, 5);
    assert_eq!(rc.num_resources(), 1);
}

#[test]
fn rows_and_columns_grow() {
    let mut rc = ResourceCheck::new(1, vec![1]);
    rc.ensure_threads(3);
    assert_eq!(rc.num_threads(), 3);
    rc.ensure_threads(2);
    assert_eq!(rc.num_threads(), 3);
    rc.push_resource(4);
    assert_eq!(rc.num_resources(), 2);
    assert_eq!(rc.total, vec![1, 4]);
    assert_eq!(rc.allocation(2, 1), 0);
    assert_eq!(rc.try_acquire(2, 1, 4), Ok(AcquireResult::Granted));
    assert!(rc.is_safe());
}

#[test]
fn waiting_claims_count_against_safety() {
    // one unit: thread 0 holds it, thread 1 waits for it; the state is safe
    // since 0 can finish first
    let mut rc = ResourceCheck::new(2, vec![1]);
    assert_eq!(rc.try_acquire(0, 0, 1), Ok(AcquireResult::Granted));
    assert_eq!(rc.try_acquire(1, 0, 1), Ok(AcquireResult::WillWait));
    assert!(rc.is_safe());
    // a third thread waiting too is still safe: they finish one by one
    rc.ensure_threads(3);
    assert_eq!(rc.try_acquire(2, 0, 1), Ok(AcquireResult::WillWait));
    assert!(rc.is_safe());
}

#[test]
fn a_state_can_become_unsafe_when_units_vanish() {
    let mut rc = ResourceCheck::new(2, vec![2]);
    assert_eq!(rc.try_acquire(0, 0, 1), Ok(AcquireResult::Granted));
    // thread 1 may wait for both units: thread 0 can finish and free one
    assert_eq!(rc.try_acquire(1, 0, 2), Ok(AcquireResult::WillWait));
    assert!(rc.is_safe());
    // with the free unit gone, thread 1 could never get two
    rc.set_available(0, 0);
    assert!(!rc.is_safe());
    // giving a unit back to the pool makes it safe again
    rc.semaphore_up_no_waiter(0, 1);
    assert!(rc.is_safe());
}

#[test]
fn units_are_conserved_by_grant_release_and_transfer() {
    let mut rc = ResourceCheck::new(3, vec![4]);
    let units = |rc: &ResourceCheck| {
        rc.available_units(0) + rc.allocation(0, 0) + rc.allocation(1, 0) + rc.allocation(2, 0)
    };
    assert_eq!(units(&rc), 4);
    rc.complete_acquire_after_wait(0, 0, 3);
    assert_eq!(units(&rc), 4);
    rc.transfer_allocation(0, 0, 2, 2);
    assert_eq!(rc.allocation(2, 0), 2);
    assert_eq!(units(&rc), 4);
    rc.release(2, 0, 1);
    assert_eq!(units(&rc), 4);
    assert_eq!(rc.available_units(0), 2);
    assert_eq!(rc.available_units(7), 0);
    assert_eq!(rc.total_units(0), 4);
    assert_eq!(rc.total_units(1), 0);
}

#[test]
fn releasing_keeps_a_safe_state_safe() {
    let mut rc = ResourceCheck::new(2, vec![2]);
    assert_eq!(rc.try_acquire(0, 0, 1), Ok(AcquireResult::Granted));
    assert_eq!(rc.try_acquire(1, 0, 1), Ok(AcquireResult::Granted));
    assert!(rc.is_safe());
    rc.release(0, 0, 1);
    assert!(rc.is_safe());
    rc.release(1, 0, 1);
    assert!(rc.is_safe());
}

#[test]
fn an_extra_unit_for_a_waiter_keeps_a_safe_state_safe() {
    let mut rc = ResourceCheck::new(2, vec![1]);
    assert_eq!(rc.try_acquire(0, 0, 1), Ok(AcquireResult::Granted));
    assert_eq!(rc.try_acquire(1, 0, 1), Ok(AcquireResult::WillWait));
    rc.semaphore_up_wake(0, 1);
    assert_eq!(rc.allocation(1, 0), 1);
    assert!(rc.is_safe());
}

#[test]
fn requests_conserve_units() {
    let mut rc = ResourceCheck::new(2, vec![3, 1]);
    let units = |rc: &ResourceCheck, j: usize| rc.available_units(j) + rc.allocation(0, j) + rc.allocation(1, j);
    assert_eq!(rc.try_acquire(0, 0, 2), Ok(AcquireResult::Granted));
    assert_eq!(rc.try_acquire(1, 0, 2), Ok(AcquireResult::WillWait));
    assert_eq!(rc.try_acquire(1, 1, 1), Ok(AcquireResult::Granted));
    assert_eq!(rc.try_acquire(0, 1, 1), Err(()));
    assert_eq!(units(&rc, 0), 3);
    assert_eq!(units(&rc, 1), 1);
}

#[test]
fn more_free_units_keep_a_safe_state_safe() {
    let mut rc = ResourceCheck::new(2, vec![2]);
    assert_eq!(rc.try_acquire(0, 0, 1), Ok(AcquireResult::Granted));
    assert_eq!(rc.try_acquire(1, 0, 2), Ok(AcquireResult::WillWait));
    assert!(rc.is_safe());
    rc.set_available(0, 3);
    assert!(rc.is_safe());
}
