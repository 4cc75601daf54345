//! Process-management system calls: time, anonymous memory mappings,
//! waiting for children, the program break and priorities.

use vstd::prelude::*;
use crate::task::priority::PriorityInfo;
use crate::task::task::{TaskControlBlock, requested_brk};

verus! {

/// Size of a virtual-memory page in bytes.
pub const PAGE_SIZE: usize = 4096;

/// Time as seconds and microseconds.
pub struct TimeVal {
    pub sec: usize,
    pub usec: usize,
}

/// The time value written back to the user for a clock reading of
/// `now_ms` milliseconds: whole seconds, and the rest in microseconds.
pub fn sys_get_time(now_ms: usize) -> (t: TimeVal)
    ensures
        t.sec == now_ms / 1000,
        t.usec == (now_ms % 1000) * 1000,
{
    let sec = now_ms / 1000;
    let usec = (now_ms % 1000) * 1000;
    TimeVal { sec, usec }
}

/// Page permissions of a mapping.
#[derive(Clone, Copy, PartialEq, Eq, Structural, Debug)]
pub struct MapPermission {
    /// readable
    pub r: bool,
    /// writable
    pub w: bool,
    /// executable
    pub x: bool,
    /// accessible from user mode
    pub u: bool,
}

/// What a mapping request asks of the memory manager.
#[derive(Clone, Copy, PartialEq, Eq, Structural, Debug)]
pub enum MapRequest {
    /// The arguments are invalid; the call returns -1.
    Invalid,
    /// Nothing to map; the call returns 0.
    Empty,
    /// Map `[start, end)` with `perm`; the call returns what the memory
    /// manager reports.
    Mapping { start: usize, end: usize, perm: MapPermission },
}

/// What an unmapping request asks of the memory manager.
#[derive(Clone, Copy, PartialEq, Eq, Structural, Debug)]
pub enum UnmapRequest {
    /// The start is not page-aligned; the call returns -1.
    Invalid,
    /// Nothing to unmap; the call returns 0.
    Empty,
    /// Unmap `[start, end)`; the call returns what the memory manager reports.
    Unmapping { start: usize, end: usize },
}

/// Protection bits are valid: some of bits 0-2 and nothing else.
pub open spec fn prot_valid(prot: usize) -> bool {
    0 < prot < 8
}

/// The request for mapping `len` bytes at `start` with protection `prot`:
/// invalid unless `start` is page-aligned and `prot` is valid; empty for
/// an empty length; otherwise `[start, start + len)`, user-accessible,
/// with read, write and execute as bits 0, 1 and 2 of `prot` say.
pub open spec fn requested_mapping(start: usize, len: usize, prot: usize) -> MapRequest {
    if start % PAGE_SIZE != 0 || !prot_valid(prot) {
        MapRequest::Invalid
    } else if len == 0 {
        MapRequest::Empty
    } else {
        MapRequest::Mapping {
            start,
            end: (start + len) as usize,
            perm: MapPermission {
                r: prot % 2 == 1,
                w: (prot / 2) % 2 == 1,
                x: (prot / 4) % 2 == 1,
                u: true,
            },
        }
    }
}

/// The request for unmapping `len` bytes at `start`.
pub open spec fn requested_unmapping(start: usize, len: usize) -> UnmapRequest {
    if start % PAGE_SIZE != 0 {
        UnmapRequest::Invalid
    } else if len == 0 {
        UnmapRequest::Empty
    } else {
        UnmapRequest::Unmapping { start, end: (start + len) as usize }
    }
}

/// A valid mapping request covers exactly `[start, start + len)`, is open
/// to user mode, and has read, write and execute permission exactly when
/// bits 0, 1 and 2 of `prot` are set, so that the permission gives `prot`
/// back.
pub proof fn lemma_mapping_follows_prot(start: usize, len: usize, prot: usize)
    requires
        start % PAGE_SIZE == 0,
        prot_valid(prot),
        len > 0,
        start + len <= usize::MAX,
    ensures
        requested_mapping(start, len, prot) is Mapping,
        ({
            let m = requested_mapping(start, len, prot);
            &&& m->Mapping_start == start
            &&& m->Mapping_end == start + len
            &&& m->Mapping_perm.u
            &&& m->Mapping_perm.r <==> (prot & 1usize) == 1usize
            &&& m->Mapping_perm.w <==> (prot & 2usize) == 2usize
            &&& m->Mapping_perm.x <==> (prot & 4usize) == 4usize
            &&& prot == (if m->Mapping_perm.r { 1int } else { 0int }) + (if m->Mapping_perm.w {
                2int
            } else {
                0int
            }) + (if m->Mapping_perm.x { 4int } else { 0int })
        }),
{
    assert((prot & 1usize) == 1usize <==> prot % 2 == 1) by (bit_vector);
    assert((prot & 2usize) == 2usize <==> (prot / 2) % 2 == 1) by (bit_vector);
    assert((prot & 4usize) == 4usize <==> (prot / 4) % 2 == 1) by (bit_vector);
    assert(prot < 8 ==> prot == prot % 2 + 2 * ((prot / 2) % 2) + 4 * ((prot / 4) % 2)) by (bit_vector);
}

/// An unmapping request for a page-aligned start and a non-empty length
/// covers exactly `[start, start + len)`; one for an unaligned start is
/// invalid.
pub proof fn lemma_unmapping_range(start: usize, len: usize)
    requires
        start % PAGE_SIZE == 0 ==> start + len <= usize::MAX,
    ensures
        start % PAGE_SIZE != 0 ==> requested_unmapping(start, len) == UnmapRequest::Invalid,
        start % PAGE_SIZE == 0 && len == 0 ==> requested_unmapping(start, len) == UnmapRequest::Empty,
        start % PAGE_SIZE == 0 && len > 0 ==> {
            let u = requested_unmapping(start, len);
            &&& u is Unmapping
            &&& u->Unmapping_start == start
            &&& u->Unmapping_end == start + len
            &&& u->Unmapping_end - u->Unmapping_start == len
        },
{
}

/// Check an anonymous-mapping request: `start` must be page-aligned, and
/// `prot` must ask for some of read (bit 0), write (bit 1) and execute
/// (bit 2) and nothing else. An empty length maps nothing.
pub fn sys_mmap(start: usize, len: usize, prot: usize) -> (r: MapRequest)
    requires
        start % PAGE_SIZE == 0 && prot_valid(prot) && len > 0 ==> start + len <= usize::MAX,
    ensures
        r == requested_mapping(start, len, prot),
{
    if start % PAGE_SIZE != 0 {
        return MapRequest::Invalid;
    }
    assert((prot & !0x7usize) == 0 <==> prot < 8) by (bit_vector);
    assert((prot & 0x7usize) == 0 <==> prot % 8 == 0) by (bit_vector);
    if prot & !0x7 != 0 || prot & 0x7 == 0 {
        return MapRequest::Invalid;
    }
    if len == 0 {
        return MapRequest::Empty;
    }
    assert((prot & 0x1usize) != 0 <==> prot % 2 == 1) by (bit_vector);
    assert((prot & 0x2usize) != 0 <==> (prot / 2) % 2 == 1) by (bit_vector);
    assert((prot & 0x4usize) != 0 <==> (prot / 4) % 2 == 1) by (bit_vector);
    let perm = MapPermission {
        r: prot & 0x1 != 0,
        w: prot & 0x2 != 0,
        x: prot & 0x4 != 0,
        u: true,
    };
    MapRequest::Mapping { start, end: start + len, perm }
}

/// Check an unmapping request: `start` must be page-aligned; an empty
/// length unmaps nothing.
pub fn sys_munmap(start: usize, len: usize) -> (r: UnmapRequest)
    requires
        start % PAGE_SIZE == 0 && len > 0 ==> start + len <= usize::MAX,
    ensures
        r == requested_unmapping(start, len),
{
    if start % PAGE_SIZE != 0 {
        return UnmapRequest::Invalid;
    }
    if len == 0 {
        return UnmapRequest::Empty;
    }
    UnmapRequest::Unmapping { start, end: start + len }
}

/// Move the program break of `task` by `size` bytes, once the heap area
/// has been resized as `task.brk_request(size)` asked (`resized` tells
/// whether that worked). Returns the old break, or -1.
pub fn sys_sbrk(task: &mut TaskControlBlock, size: i32, resized: bool) -> (r: isize)
    requires
        isize::MIN <= requested_brk(old(task).program_brk, size) <= isize::MAX,
    ensures
        final(task).heap_bottom == old(task).heap_bottom,
        requested_brk(old(task).program_brk, size) >= (old(task).heap_bottom as isize) && resized
            ==> {
            &&& r == old(task).program_brk as isize
            &&& final(task).program_brk == requested_brk(old(task).program_brk, size) as usize
        },
        !(requested_brk(old(task).program_brk, size) >= (old(task).heap_bottom as isize) && resized)
            ==> {
            &&& r == -1
            &&& final(task).program_brk == old(task).program_brk
        },
{
    if let Some(old_brk) = task.change_program_brk(size, resized) {
        old_brk as isize
    } else {
        -1
    }
}

/// Set the priority of the current task: `prio` must be at least 2.
/// Returns `prio`, or -1 when it is too small (and nothing changes).
pub fn sys_set_priority(info: &mut PriorityInfo, prio: isize) -> (r: isize)
    ensures
        prio < 2 ==> r == -1 && *final(info) == *old(info),
        prio >= 2 ==> {
            &&& r == prio
            &&& final(info).priority == prio as usize
            &&& final(info).pass == crate::task::priority::BIG_STRIDE / (prio as usize)
            &&& final(info).stride == old(info).stride
        },
{
    if prio < 2 {
        return -1;
    }
    info.set_priority(prio as usize);
    prio
}

/// What the parent knows of a child process.
#[derive(Clone, Copy, PartialEq, Eq, Structural, Debug)]
pub struct ChildRecord {
    pub pid: usize,
    /// The child has exited and waits to be reaped.
    pub zombie: bool,
    pub exit_code: i32,
}

/// The outcome of waiting for a child.
#[derive(Clone, Copy, PartialEq, Eq, Structural, Debug)]
pub enum WaitOutcome {
    /// No child matches; the call returns -1.
    NoChild,
    /// Matching children exist but none has exited; the call returns -2.
    Running,
    /// The child at `index` was reaped; the call returns its pid and
    /// writes its exit code to the user.
    Reaped { index: usize, pid: usize, exit_code: i32 },
}

/// `pid` selects the child: -1 selects any child.
pub open spec fn selects(pid: isize, c: ChildRecord) -> bool {
    pid == -1 || pid as usize == c.pid
}

/// The child can be reaped by a wait for `pid`.
pub open spec fn reapable(pid: isize, c: ChildRecord) -> bool {
    c.zombie && selects(pid, c)
}

impl WaitOutcome {
    /// The value the system call returns.
    pub fn code(&self) -> (r: isize)
        ensures
            *self == WaitOutcome::NoChild ==> r == -1,
            *self == WaitOutcome::Running ==> r == -2,
            self matches WaitOutcome::Reaped { pid, .. } ==> r == pid as isize,
    {
        match self {
            WaitOutcome::NoChild => -1,
            WaitOutcome::Running => -2,
            WaitOutcome::Reaped { pid, .. } => *pid as isize,
        }
    }
}

/// Record a child process just created with `pid`: it runs, so it cannot
/// be reaped yet.
pub fn record_child(children: &mut Vec<ChildRecord>, pid: usize)
    ensures
        final(children)@ == old(children)@.push((ChildRecord { pid, zombie: false, exit_code: 0 })),
{
    children.push(ChildRecord { pid, zombie: false, exit_code: 0 });
}

/// Wait for a child: `pid` -1 waits for any child. The first exited child
/// that matches is removed from `children` and reported.
pub fn sys_waitpid(children: &mut Vec<ChildRecord>, pid: isize) -> (r: WaitOutcome)
    ensures
        !(exists|i: int| 0 <= i < old(children)@.len() && selects(pid, #[trigger] old(children)@[i]))
            ==> r == WaitOutcome::NoChild && final(children)@ == old(children)@,
        (exists|i: int| 0 <= i < old(children)@.len() && selects(pid, #[trigger] old(children)@[i]))
            && !(exists|i: int|
            0 <= i < old(children)@.len() && reapable(pid, #[trigger] old(children)@[i])) ==> r
            == WaitOutcome::Running && final(children)@ == old(children)@,
        r matches WaitOutcome::Reaped { index, pid: p, exit_code } ==> {
            &&& index < old(children)@.len()
            &&& reapable(pid, old(children)@[index as int])
            &&& forall|k: int| 0 <= k < index ==> !reapable(pid, #[trigger] old(children)@[k])
            &&& p == old(children)@[index as int].pid
            &&& exit_code == old(children)@[index as int].exit_code
            &&& final(children)@ == old(children)@.remove(index as int)
        },
        (exists|i: int| 0 <= i < old(children)@.len() && reapable(pid, #[trigger] old(children)@[i]))
            ==> r is Reaped,
{
    let mut any = false;
    let mut i: usize = 0;
    while i < children.len()
        invariant
            i <= children@.len(),
            children@ == old(children)@,
            any == exists|k: int| 0 <= k < i && selects(pid, #[trigger] children@[k]),
        decreases children@.len() - i,
    {
        if pid == -1 || pid as usize == children[i].pid {
            assert(selects(pid, children@[i as int]));
            any = true;
        }
        i = i + 1;
    }
    if !any {
        return WaitOutcome::NoChild;
    }
    let mut i: usize = 0;
    while i < children.len()
        invariant
            i <= children@.len(),
            children@ == old(children)@,
            forall|k: int| 0 <= k < i ==> !reapable(pid, #[trigger] children@[k]),
        decreases children@.len() - i,
    {
        if children[i].zombie && (pid == -1 || pid as usize == children[i].pid) {
            let child = children.remove(i);
            return WaitOutcome::Reaped { index: i, pid: child.pid, exit_code: child.exit_code };
        }
        i = i + 1;
    }
    WaitOutcome::Running
}

} // verus!
