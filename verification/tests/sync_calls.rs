use lib::syscall::sync::{
    condvar_wait_acquired, condvar_wait_relock, mutex_lock_acquired, semaphore_down_acquired,
    sys_condvar_create, sys_condvar_wait, sys_enable_deadlock_detect, sys_mutex_create,
    sys_mutex_lock, sys_mutex_unlock, sys_semaphore_create, sys_semaphore_down,
    sys_semaphore_up, ProcessSync, SYSCALL_DEADLOCK,
};

type Proc = ProcessSync<&'static str, &'static str>;

#[test]
fn deadlock_error_value() {
    assert_eq!(SYSCALL_DEADLOCK, -0xDEAD);
}

#[test]
fn create_calls_hand_out_ids_in_order() {
    let mut ps: Proc = ProcessSync::new();
    assert_eq!(sys_mutex_create(&mut ps, "m0"), 0);
    assert_eq!(sys_mutex_create(&mut ps, "m1"), 1);
    assert_eq!(sys_semaphore_create(&mut ps, 3), 0);
    assert_eq!(sys_condvar_create(&mut ps, "c0"), 0);
    assert_eq!(sys_condvar_create(&mut ps, "c1"), 1);
    assert_eq!(ps.semaphore_list[0].as_ref().unwrap().current_count(), 3);
    assert!(ps.resource_manager.is_none());
}

#[test]
fn enable_deadlock_detect_takes_zero_or_one() {
    let mut ps: Proc = ProcessSync::new();
    assert_eq!(sys_enable_deadlock_detect(&mut ps, 2, 1), -1);
    assert!(!ps.deadlock_detect);
    assert_eq!(sys_enable_deadlock_detect(&mut ps, 1, 1), 0);
    assert!(ps.deadlock_detect);
    assert!(ps.resource_manager.is_some());
    assert_eq!(sys_enable_deadlock_detect(&mut ps, 0, 1), 0);
    assert!(!ps.deadlock_detect);
    assert!(ps.resource_manager.is_none());
}

#[test]
fn without_detection_locks_always_proceed() {
    let mut ps: Proc = ProcessSync::new();
    assert_eq!(sys_mutex_lock(&mut ps, 0, 42), Ok(()));
    assert_eq!(mutex_lock_acquired(&mut ps, 0, 42), 0);
    assert_eq!(sys_mutex_unlock(&mut ps, 0, 42, None), 0);
}

#[test]
fn crossing_mutexes_are_refused() {
    let mut ps: Proc = ProcessSync::new();
    sys_mutex_create(&mut ps, "a");
    sys_mutex_create(&mut ps, "b");
    assert_eq!(sys_enable_deadlock_detect(&mut ps, 1, 2), 0);
    assert_eq!(sys_mutex_lock(&mut ps, 0, 0), Ok(()));
    assert_eq!(mutex_lock_acquired(&mut ps, 0, 0), 0);
    assert_eq!(sys_mutex_lock(&mut ps, 1, 1), Ok(()));
    assert_eq!(mutex_lock_acquired(&mut ps, 1, 1), 0);
    // thread 0 may wait for b
    assert_eq!(sys_mutex_lock(&mut ps, 0, 1), Ok(()));
    // thread 1 asking for a would deadlock
    assert_eq!(sys_mutex_lock(&mut ps, 1, 0), Err(SYSCALL_DEADLOCK));
    // an unknown mutex is refused
    assert_eq!(sys_mutex_lock(&mut ps, 1, 5), Err(-1));
    let rm = ps.resource_manager.as_ref().unwrap();
    assert_eq!(rm.mutex_check.allocation(0, 0), 1);
    assert_eq!(rm.mutex_check.allocation(1, 1), 1);
    assert_eq!(rm.mutex_check.allocation(1, 0), 0);
}

#[test]
fn unlock_hands_the_mutex_over_or_frees_it() {
    let mut ps: Proc = ProcessSync::new();
    sys_mutex_create(&mut ps, "a");
    sys_enable_deadlock_detect(&mut ps, 1, 2);
    assert_eq!(sys_mutex_lock(&mut ps, 0, 0), Ok(()));
    mutex_lock_acquired(&mut ps, 0, 0);
    assert_eq!(sys_mutex_lock(&mut ps, 1, 0), Ok(()));
    // thread 0 unlocks and the lock goes straight to thread 1
    assert_eq!(sys_mutex_unlock(&mut ps, 0, 0, Some(1)), 0);
    mutex_lock_acquired(&mut ps, 1, 0);
    {
        let rm = ps.resource_manager.as_ref().unwrap();
        assert_eq!(rm.mutex_check.allocation(0, 0), 0);
        assert_eq!(rm.mutex_check.allocation(1, 0), 1);
    }
    // thread 1 unlocks with nobody waiting: the lock is free again
    assert_eq!(sys_mutex_unlock(&mut ps, 1, 0, None), 0);
    assert_eq!(sys_mutex_lock(&mut ps, 0, 0), Ok(()));
    mutex_lock_acquired(&mut ps, 0, 0);
    assert_eq!(ps.resource_manager.as_ref().unwrap().mutex_check.allocation(0, 0), 1);
}

#[test]
fn mutexes_created_later_join_the_banker() {
    let mut ps: Proc = ProcessSync::new();
    sys_enable_deadlock_detect(&mut ps, 1, 1);
    assert_eq!(sys_mutex_lock(&mut ps, 0, 0), Err(-1));
    assert_eq!(sys_mutex_create(&mut ps, "late"), 0);
    assert_eq!(ps.resource_manager.as_ref().unwrap().mutex_check.num_resources(), 1);
    assert_eq!(sys_mutex_lock(&mut ps, 0, 0), Ok(()));
}

#[test]
fn semaphore_down_and_up() {
    let mut ps: Proc = ProcessSync::new();
    assert_eq!(sys_semaphore_create(&mut ps, 1), 0);
    assert_eq!(sys_semaphore_down(&mut ps, 0, 0), Ok(false));
    assert_eq!(semaphore_down_acquired(&mut ps, 0, 0), 0);
    assert_eq!(sys_semaphore_down(&mut ps, 1, 0), Ok(true));
    assert_eq!(sys_semaphore_up(&mut ps, 0, 0), Some(1));
    assert_eq!(sys_semaphore_up(&mut ps, 1, 0), None);
    assert_eq!(ps.semaphore_list[0].as_ref().unwrap().current_count(), 1);
}

#[test]
fn semaphores_with_detection() {
    let mut ps: Proc = ProcessSync::new();
    sys_semaphore_create(&mut ps, 1);
    sys_semaphore_create(&mut ps, 1);
    sys_enable_deadlock_detect(&mut ps, 1, 2);
    assert_eq!(sys_semaphore_down(&mut ps, 0, 0), Ok(false));
    semaphore_down_acquired(&mut ps, 0, 0);
    assert_eq!(sys_semaphore_down(&mut ps, 1, 1), Ok(false));
    semaphore_down_acquired(&mut ps, 1, 1);
    assert_eq!(sys_semaphore_down(&mut ps, 0, 1), Ok(true));
    assert_eq!(sys_semaphore_down(&mut ps, 1, 0), Err(SYSCALL_DEADLOCK));
    assert_eq!(sys_semaphore_down(&mut ps, 1, 9), Err(-1));
    // thread 1 raises semaphore 1: its unit goes to the waiting thread 0
    assert_eq!(sys_semaphore_up(&mut ps, 1, 1), Some(0));
    semaphore_down_acquired(&mut ps, 0, 1);
    let rm = ps.resource_manager.as_ref().unwrap();
    assert_eq!(rm.sem_check.allocation(1, 1), 0);
    assert_eq!(rm.sem_check.allocation(0, 1), 1);
}

#[test]
fn semaphore_with_no_units_bypasses_the_banker() {
    let mut ps: Proc = ProcessSync::new();
    sys_semaphore_create(&mut ps, 0);
    sys_enable_deadlock_detect(&mut ps, 1, 2);
    assert_eq!(sys_semaphore_down(&mut ps, 0, 0), Ok(true));
    // a unit from nowhere: thread 1 does not hold one, so it is a new unit
    assert_eq!(sys_semaphore_up(&mut ps, 1, 0), Some(0));
    semaphore_down_acquired(&mut ps, 0, 0);
    assert_eq!(ps.resource_manager.as_ref().unwrap().sem_check.allocation(0, 0), 0);
}

#[test]
fn semaphore_up_call_without_waiter_frees_a_unit() {
    let mut ps: Proc = ProcessSync::new();
    sys_semaphore_create(&mut ps, 2);
    sys_enable_deadlock_detect(&mut ps, 1, 1);
    assert_eq!(sys_semaphore_down(&mut ps, 0, 0), Ok(false));
    semaphore_down_acquired(&mut ps, 0, 0);
    assert_eq!(ps.resource_manager.as_ref().unwrap().sem_check.allocation(0, 0), 1);
    assert_eq!(sys_semaphore_up(&mut ps, 0, 0), None);
    assert_eq!(ps.resource_manager.as_ref().unwrap().sem_check.allocation(0, 0), 0);
}

#[test]
fn condvar_wait_releases_and_relocks_the_mutex() {
    let mut ps: Proc = ProcessSync::new();
    sys_mutex_create(&mut ps, "m");
    sys_condvar_create(&mut ps, "c");
    assert!(!sys_condvar_wait(&mut ps, 0, 0, None));
    sys_enable_deadlock_detect(&mut ps, 1, 2);
    assert_eq!(sys_mutex_lock(&mut ps, 0, 0), Ok(()));
    mutex_lock_acquired(&mut ps, 0, 0);
    assert!(sys_condvar_wait(&mut ps, 0, 0, None));
    assert_eq!(ps.resource_manager.as_ref().unwrap().mutex_check.allocation(0, 0), 0);
    assert_eq!(condvar_wait_relock(&mut ps, 0, 0), Ok(()));
    assert_eq!(condvar_wait_acquired(&mut ps, 0, 0), 0);
    assert_eq!(ps.resource_manager.as_ref().unwrap().mutex_check.allocation(0, 0), 1);
}

#[test]
fn enabling_detection_counts_current_semaphore_units() {
    let mut ps: Proc = ProcessSync::new();
    sys_semaphore_create(&mut ps, 1);
    assert_eq!(sys_semaphore_down(&mut ps, 0, 0), Ok(false));
    // detection starts with the one unit already gone from the pool
    sys_enable_deadlock_detect(&mut ps, 1, 2);
    assert_eq!(sys_semaphore_down(&mut ps, 1, 0), Err(SYSCALL_DEADLOCK));
}
