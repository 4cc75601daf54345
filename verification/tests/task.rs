use lib::task::task::{BrkResize, TaskControlBlock, TaskStatus};

#[test]
fn new_task_is_ready_with_an_empty_heap() {
    let t = TaskControlBlock::new(3, 0x8000);
    assert_eq!(t.app_id, 3);
    assert!(t.task_status == TaskStatus::Ready);
    assert_eq!(t.base_size, 0x8000);
    assert_eq!(t.heap_bottom, 0x8000);
    assert_eq!(t.program_brk, 0x8000);
    assert!(t.syscall_counts.iter().all(|&c| c == 0));
}

#[test]
fn growing_the_heap() {
    let mut t = TaskControlBlock::new(0, 0x1000);
    assert_eq!(t.brk_request(0x100), Some(BrkResize::Grow(0x1100)));
    assert_eq!(t.change_program_brk(0x100, true), Some(0x1000));
    assert_eq!(t.program_brk, 0x1100);
}

#[test]
fn shrinking_the_heap() {
    let mut t = TaskControlBlock::new(0, 0x1000);
    assert_eq!(t.change_program_brk(0x200, true), Some(0x1000));
    assert_eq!(t.brk_request(-0x100), Some(BrkResize::Shrink(0x1100)));
    assert_eq!(t.change_program_brk(-0x100, true), Some(0x1200));
    assert_eq!(t.program_brk, 0x1100);
}

#[test]
fn break_cannot_go_below_heap_bottom() {
    let mut t = TaskControlBlock::new(0, 0x1000);
    assert_eq!(t.brk_request(-1), None);
    assert_eq!(t.change_program_brk(-1, true), None);
    assert_eq!(t.program_brk, 0x1000);
    // back to the bottom exactly is fine
    assert_eq!(t.change_program_brk(0x10, true), Some(0x1000));
    assert_eq!(t.brk_request(-0x10), Some(BrkResize::Shrink(0x1000)));
}

#[test]
fn failed_resize_leaves_the_break() {
    let mut t = TaskControlBlock::new(0, 0x1000);
    assert_eq!(t.change_program_brk(0x100, false), None);
    assert_eq!(t.program_brk, 0x1000);
}

#[test]
fn zero_change_returns_the_break() {
    let mut t = TaskControlBlock::new(0, 0x1000);
    assert_eq!(t.brk_request(0), Some(BrkResize::Grow(0x1000)));
    assert_eq!(t.change_program_brk(0, true), Some(0x1000));
}
