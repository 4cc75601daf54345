use lib::syscall::process::{
    record_child, sys_get_time, sys_mmap, sys_munmap, sys_sbrk, sys_set_priority, sys_waitpid, ChildRecord,
    MapPermission, MapRequest, UnmapRequest, WaitOutcome, PAGE_SIZE,
};
use lib::task::priority::PriorityInfo;
use lib::task::task::TaskControlBlock;

#[test]
fn get_time_splits_the_reading() {
    let t = sys_get_time(2_500);
    assert_eq!(t.sec, 2);
    assert_eq!(t.usec, 500_000);
    let z = sys_get_time(999);
    assert_eq!(z.sec, 0);
    assert_eq!(z.usec, 999_000);
    let w = sys_get_time(3_000);
    assert_eq!(w.sec, 3);
    assert_eq!(w.usec, 0);
}

#[test]
fn mmap_rejects_unaligned_start() {
    assert_eq!(sys_mmap(PAGE_SIZE + 1, PAGE_SIZE, 1), MapRequest::Invalid);
}

#[test]
fn mmap_rejects_bad_protection() {
    assert_eq!(sys_mmap(0x10000, PAGE_SIZE, 0), MapRequest::Invalid);
    assert_eq!(sys_mmap(0x10000, PAGE_SIZE, 8), MapRequest::Invalid);
    assert_eq!(sys_mmap(0x10000, PAGE_SIZE, 0x9), MapRequest::Invalid);
}

#[test]
fn mmap_of_nothing_succeeds() {
    assert_eq!(sys_mmap(0x10000, 0, 3), MapRequest::Empty);
    // the checks come before the length
    assert_eq!(sys_mmap(0x10001, 0, 3), MapRequest::Invalid);
}

#[test]
fn mmap_maps_with_the_asked_permissions() {
    assert_eq!(
        sys_mmap(0x10000, 0x1800, 3),
        MapRequest::Mapping {
            start: 0x10000,
            end: 0x11800,
            perm: MapPermission { r: true, w: true, x: false, u: true },
        }
    );
    assert_eq!(
        sys_mmap(0, PAGE_SIZE, 4),
        MapRequest::Mapping {
            start: 0,
            end: PAGE_SIZE,
            perm: MapPermission { r: false, w: false, x: true, u: true },
        }
    );
    assert_eq!(
        sys_mmap(0, 1, 7),
        MapRequest::Mapping {
            start: 0,
            end: 1,
            perm: MapPermission { r: true, w: true, x: true, u: true },
        }
    );
}

#[test]
fn munmap_checks_alignment_and_length() {
    assert_eq!(sys_munmap(0x10010, PAGE_SIZE), UnmapRequest::Invalid);
    assert_eq!(sys_munmap(0x10000, 0), UnmapRequest::Empty);
    assert_eq!(
        sys_munmap(0x10000, PAGE_SIZE),
        UnmapRequest::Unmapping { start: 0x10000, end: 0x11000 }
    );
}

#[test]
fn sbrk_returns_the_old_break_or_minus_one() {
    let mut t = TaskControlBlock::new(0, 0x4000);
    assert_eq!(sys_sbrk(&mut t, 0x1000, true), 0x4000);
    assert_eq!(t.program_brk, 0x5000);
    assert_eq!(sys_sbrk(&mut t, -0x2000, true), -1);
    assert_eq!(sys_sbrk(&mut t, 0x1000, false), -1);
    assert_eq!(t.program_brk, 0x5000);
}

#[test]
fn set_priority_needs_at_least_two() {
    let mut p = PriorityInfo::new(16);
    assert_eq!(sys_set_priority(&mut p, 1), -1);
    assert_eq!(sys_set_priority(&mut p, -5), -1);
    assert_eq!(p.get_priority(), 16);
    assert_eq!(sys_set_priority(&mut p, 2), 2);
    assert_eq!(p.get_priority(), 2);
    assert_eq!(p.pass, 32768);
}

fn child(pid: usize, zombie: bool, exit_code: i32) -> ChildRecord {
    ChildRecord { pid, zombie, exit_code }
}

#[test]
fn waitpid_without_matching_child() {
    let mut children = vec![child(3, true, 0)];
    assert_eq!(sys_waitpid(&mut children, 4), WaitOutcome::NoChild);
    assert_eq!(WaitOutcome::NoChild.code(), -1);
    let mut none: Vec<ChildRecord> = Vec::new();
    assert_eq!(sys_waitpid(&mut none, -1), WaitOutcome::NoChild);
    assert_eq!(children.len(), 1);
}

#[test]
fn waitpid_for_a_running_child() {
    let mut children = vec![child(3, false, 0), child(5, true, 1)];
    assert_eq!(sys_waitpid(&mut children, 3), WaitOutcome::Running);
    assert_eq!(WaitOutcome::Running.code(), -2);
    assert_eq!(children.len(), 2);
}

#[test]
fn waitpid_reaps_the_first_exited_child() {
    let mut children = vec![child(3, false, 0), child(5, true, 7), child(6, true, 9)];
    let r = sys_waitpid(&mut children, -1);
    assert_eq!(r, WaitOutcome::Reaped { index: 1, pid: 5, exit_code: 7 });
    assert_eq!(r.code(), 5);
    assert_eq!(children, vec![child(3, false, 0), child(6, true, 9)]);
    let r2 = sys_waitpid(&mut children, 6);
    assert_eq!(r2, WaitOutcome::Reaped { index: 1, pid: 6, exit_code: 9 });
    assert_eq!(children, vec![child(3, false, 0)]);
}

#[test]
fn a_recorded_child_runs_until_it_exits() {
    let mut children: Vec<ChildRecord> = Vec::new();
    record_child(&mut children, 8);
    record_child(&mut children, 9);
    assert_eq!(children, vec![child(8, false, 0), child(9, false, 0)]);
    assert_eq!(sys_waitpid(&mut children, 9), WaitOutcome::Running);
    children[1].zombie = true;
    children[1].exit_code = 3;
    assert_eq!(sys_waitpid(&mut children, -1), WaitOutcome::Reaped { index: 1, pid: 9, exit_code: 3 });
    assert_eq!(children, vec![child(8, false, 0)]);
}
