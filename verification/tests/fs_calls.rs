use lib::syscall::fs::{sys_close, sys_fstat, sys_linkat, sys_open, sys_read, sys_write};
use lib::syscall::slots::alloc_slot;

#[test]
fn open_takes_the_lowest_free_descriptor() {
    let mut table: Vec<Option<&str>> = vec![Some("stdin"), None, Some("stderr")];
    assert_eq!(sys_open(&mut table, Some("a")), 1);
    assert_eq!(sys_open(&mut table, Some("b")), 3);
    assert_eq!(table, vec![Some("stdin"), Some("a"), Some("stderr"), Some("b")]);
}

#[test]
fn failed_open_returns_minus_one() {
    let mut table: Vec<Option<&str>> = vec![None];
    assert_eq!(sys_open(&mut table, None), -1);
    assert_eq!(table, vec![None]);
}

#[test]
fn close_frees_the_descriptor_for_reuse() {
    let mut table: Vec<Option<&str>> = vec![Some("stdin"), Some("stdout"), Some("f")];
    assert_eq!(sys_close(&mut table, 1), 0);
    assert_eq!(table[1], None);
    assert_eq!(sys_close(&mut table, 1), -1);
    assert_eq!(sys_close(&mut table, 7), -1);
    assert_eq!(sys_open(&mut table, Some("g")), 1);
}

#[test]
fn read_and_write_find_the_open_file() {
    let table: Vec<Option<&str>> = vec![Some("stdin"), None];
    assert_eq!(sys_read(&table, 0, |_f: &&str| true), Some(&"stdin"));
    assert_eq!(sys_write(&table, 0, |_f: &&str| true), Some(&"stdin"));
    assert_eq!(sys_read(&table, 1, |_f: &&str| true), None);
    assert_eq!(sys_write(&table, 1, |_f: &&str| true), None);
    assert_eq!(sys_write(&table, 2, |_f: &&str| true), None);
    assert_eq!(sys_read(&table, 9, |_f: &&str| true), None);
}

#[test]
fn read_and_write_refuse_files_without_access() {
    // (name, readable, writable)
    let table: Vec<Option<(&str, bool, bool)>> =
        vec![Some(("stdin", true, false)), Some(("stdout", false, true))];
    let readable = |f: &(&str, bool, bool)| f.1;
    let writable = |f: &(&str, bool, bool)| f.2;
    assert_eq!(sys_read(&table, 0, readable).map(|f| f.0), Some("stdin"));
    assert_eq!(sys_write(&table, 0, writable), None);
    assert_eq!(sys_read(&table, 1, readable), None);
    assert_eq!(sys_write(&table, 1, writable).map(|f| f.0), Some("stdout"));
}

#[test]
fn fstat_needs_an_open_descriptor() {
    let table: Vec<Option<&str>> = vec![None, Some("f")];
    assert_eq!(sys_fstat(&table, 0), None);
    assert_eq!(sys_fstat(&table, 1), Some(&"f"));
    assert_eq!(sys_fstat(&table, 2), None);
}

#[test]
fn link_to_the_same_name_is_refused() {
    assert!(!sys_linkat(&String::from("a"), &String::from("a")));
    assert!(sys_linkat(&String::from("a"), &String::from("b")));
}

#[test]
fn slots_are_reused_lowest_first() {
    let mut list: Vec<Option<u8>> = Vec::new();
    assert_eq!(alloc_slot(&mut list, 1), 0);
    assert_eq!(alloc_slot(&mut list, 2), 1);
    assert_eq!(alloc_slot(&mut list, 3), 2);
    list[0] = None;
    list[2] = None;
    assert_eq!(alloc_slot(&mut list, 4), 0);
    assert_eq!(alloc_slot(&mut list, 5), 2);
    assert_eq!(alloc_slot(&mut list, 6), 3);
    assert_eq!(list, vec![Some(4), Some(2), Some(5), Some(6)]);
}

#[test]
fn a_closed_descriptor_is_the_next_one_opened() {
    let mut table: Vec<Option<&str>> = vec![Some("a"), Some("b"), Some("c"), Some("d")];
    assert_eq!(sys_close(&mut table, 2), 0);
    assert_eq!(sys_open(&mut table, Some("e")), 2);
    assert_eq!(sys_close(&mut table, 3), 0);
    assert_eq!(sys_close(&mut table, 0), 0);
    assert_eq!(sys_open(&mut table, Some("f")), 0);
}
