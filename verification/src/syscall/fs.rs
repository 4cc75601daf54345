//! File-descriptor checks of the file system calls.

use vstd::prelude::*;
use crate::syscall::slots::{alloc_slot, slot_for};

verus! {

/// The open file behind `fd`, if `fd` names one.
pub open spec fn open_file_at<T>(fd_table: Seq<Option<T>>, fd: usize) -> Option<T> {
    if fd < fd_table.len() {
        fd_table[fd as int]
    } else {
        None
    }
}

/// Looks up `fd` and asks `allowed` about the file it names.
fn usable<'a, T, F: Fn(&T) -> bool>(fd_table: &'a Vec<Option<T>>, fd: usize, allowed: F) -> (r: Option<&'a T>)
    requires
        forall|f: &T| #[trigger] allowed.requires((f,)),
    ensures
        r matches Some(f) ==> open_file_at(fd_table@, fd) == Some(*f) && allowed.ensures((f,), true),
        r is None ==> (match open_file_at(fd_table@, fd) {
            Some(f) => allowed.ensures((&f,), false),
            None => true,
        }),
{
    if fd >= fd_table.len() {
        return None;
    }
    match &fd_table[fd] {
        Some(file) => {
            if allowed(file) {
                Some(file)
            } else {
                None
            }
        },
        None => None,
    }
}

/// The file that a write to `fd` goes to, or `None` when the call fails
/// with -1: `fd` is not open, or `writable` says its file cannot be
/// written.
pub fn sys_write<'a, T, F: Fn(&T) -> bool>(fd_table: &'a Vec<Option<T>>, fd: usize, writable: F) -> (r: Option<&'a T>)
    requires
        forall|f: &T| #[trigger] writable.requires((f,)),
    ensures
        r matches Some(f) ==> open_file_at(fd_table@, fd) == Some(*f) && writable.ensures((f,), true),
        r is None ==> (match open_file_at(fd_table@, fd) {
            Some(f) => writable.ensures((&f,), false),
            None => true,
        }),
{
    usable(fd_table, fd, writable)
}

/// The file that a read from `fd` comes from, or `None` when the call
/// fails with -1: `fd` is not open, or `readable` says its file cannot
/// be read.
pub fn sys_read<'a, T, F: Fn(&T) -> bool>(fd_table: &'a Vec<Option<T>>, fd: usize, readable: F) -> (r: Option<&'a T>)
    requires
        forall|f: &T| #[trigger] readable.requires((f,)),
    ensures
        r matches Some(f) ==> open_file_at(fd_table@, fd) == Some(*f) && readable.ensures((f,), true),
        r is None ==> (match open_file_at(fd_table@, fd) {
            Some(f) => readable.ensures((&f,), false),
            None => true,
        }),
{
    usable(fd_table, fd, readable)
}

/// The file whose status `fd` asks for, or `None` when the call fails
/// with -1 because `fd` is not open.
pub fn sys_fstat<T>(fd_table: &Vec<Option<T>>, fd: usize) -> (r: Option<&T>)
    ensures
        r matches Some(f) ==> open_file_at(fd_table@, fd) == Some(*f),
        r is None ==> open_file_at(fd_table@, fd) is None,
{
    if fd >= fd_table.len() {
        return None;
    }
    match &fd_table[fd] {
        Some(file) => Some(file),
        None => None,
    }
}

/// Install the file that opening a path produced (`None` if the path
/// could not be opened) in the lowest free descriptor. Returns the
/// descriptor, or -1.
pub fn sys_open<T>(fd_table: &mut Vec<Option<T>>, opened: Option<T>) -> (r: isize)
    requires
        old(fd_table)@.len() < isize::MAX,
    ensures
        opened is None ==> r == -1 && final(fd_table)@ == old(fd_table)@,
        opened matches Some(f) ==> {
            let fd = slot_for(old(fd_table)@);
            &&& r == fd
            &&& fd < old(fd_table)@.len() ==> final(fd_table)@ == old(fd_table)@.update(fd, Some(f))
            &&& fd == old(fd_table)@.len() ==> final(fd_table)@ == old(fd_table)@.push(Some(f))
        },
{
    match opened {
        Some(inode) => {
            let fd = alloc_slot(fd_table, inode);
            fd as isize
        },
        None => -1,
    }
}

/// Close `fd`: 0 on success, -1 if it was not open.
pub fn sys_close<T>(fd_table: &mut Vec<Option<T>>, fd: usize) -> (r: isize)
    ensures
        open_file_at(old(fd_table)@, fd) is None ==> r == -1 && final(fd_table)@ == old(fd_table)@,
        open_file_at(old(fd_table)@, fd) is Some ==> r == 0 && final(fd_table)@ == old(fd_table)@.update(
            fd as int,
            None,
        ),
{
    if fd >= fd_table.len() {
        return -1;
    }
    if fd_table[fd].is_none() {
        return -1;
    }
    fd_table.set(fd, None);
    0
}

/// Whether a hard link may be made: it may not, and the call fails with
/// -1, when the new name is the old one.
pub fn sys_linkat(old_name: &String, new_name: &String) -> (proceed: bool)
    ensures
        proceed == (old_name@ != new_name@),
{
    !(*old_name == *new_name)
}

} // verus!
