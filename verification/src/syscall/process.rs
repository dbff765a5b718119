//! System calls on the calling task and on its address space.

use vstd::prelude::*;
use crate::mm::{
    framed, page_ceil, page_floor, page_range, vpn_ceil, vpn_floor, Heap, MapPermission,
    MemorySet, PAGE_SIZE,
};
use crate::syscall::task::{elapsed, TaskControlBlock, TaskStatus, MAX_SYSCALL_NUM};
use crate::timer::{get_timeval, time_sec, time_subsec_us};

verus! {

/// A point in time, as seconds and the microseconds past them.
#[derive(Debug)]
pub struct TimeVal {
    pub sec: usize,
    pub usec: usize,
}

/// A snapshot of a task.
pub struct TaskInfo {
    /// Where the task stands in its life.
    pub status: TaskStatus,
    /// How often the task has made each system call.
    pub syscall_times: [u32; MAX_SYSCALL_NUM],
    /// The time since the task was first scheduled, in milliseconds.
    pub time: usize,
}

/// The protection bits name at least one of read (1), write (2) and
/// execute (4), and nothing else.
pub open spec fn prot_valid(prot: int) -> bool {
    1 <= prot <= 7
}

/// The permission set that protection bits `prot` ask for. User access is
/// always part of it.
pub open spec fn perm_of(prot: int) -> MapPermission {
    MapPermission {
        read: prot % 2 == 1,
        write: (prot / 2) % 2 == 1,
        execute: (prot / 4) % 2 == 1,
        user: true,
    }
}

/// A request to map `len` bytes from address `start` with protection `prot`
/// is turned down: the start is not page-aligned, the protection bits are not
/// valid, the range runs past the last address, or one of its pages is mapped
/// already.
pub open spec fn mmap_rejected(space: Map<int, MapPermission>, start: int, len: int, prot: int) -> bool {
    ||| start % (PAGE_SIZE as int) != 0
    ||| !prot_valid(prot)
    ||| start + len > usize::MAX
    ||| exists|vpn: int|
        page_floor(start) <= vpn < page_ceil(start + len) && #[trigger] space.dom().contains(vpn)
}

/// A request to unmap `len` bytes from address `start` is turned down: the
/// start is not page-aligned, the range runs past the last address, or one of
/// its pages is not mapped.
pub open spec fn munmap_rejected(space: Map<int, MapPermission>, start: int, len: int) -> bool {
    ||| start % (PAGE_SIZE as int) != 0
    ||| start + len > usize::MAX
    ||| exists|vpn: int|
        page_floor(start) <= vpn < page_ceil(start + len) && !#[trigger] space.dom().contains(vpn)
}

/// The address space after a mapping request that is not turned down.
pub open spec fn mapped(space: Map<int, MapPermission>, start: int, len: int, prot: int) -> Map<
    int,
    MapPermission,
> {
    space.union_prefer_right(framed(page_floor(start), page_ceil(start + len), perm_of(prot)))
}

/// The address space after an unmapping request that is not turned down.
pub open spec fn unmapped(space: Map<int, MapPermission>, start: int, len: int) -> Map<
    int,
    MapPermission,
> {
    space.remove_keys(page_range(page_floor(start), page_ceil(start + len)))
}

/// What the bit tests on protection bits mean in arithmetic.
proof fn lemma_prot_bits(prot: usize)
    ensures
        ((prot & !0x7usize) != 0 || (prot & 0x7) == 0) <==> !prot_valid(prot as int),
        ((prot & 0b001) != 0) <==> perm_of(prot as int).read,
        ((prot & 0b010) != 0) <==> perm_of(prot as int).write,
        ((prot & 0b100) != 0) <==> perm_of(prot as int).execute,
{
    assert(((prot & !0x7usize) != 0 || (prot & 0x7) == 0) <==> !(1 <= prot <= 7)) by (bit_vector);
    assert(((prot & 0b001) != 0) <==> prot % 2 == 1) by (bit_vector);
    assert(((prot & 0b010) != 0) <==> (prot / 2) % 2 == 1) by (bit_vector);
    assert(((prot & 0b100) != 0) <==> (prot / 4) % 2 == 1) by (bit_vector);
}

/// The calling task exits: its status becomes `Exited`.
pub fn sys_exit(task: &mut TaskControlBlock, _exit_code: i32)
    ensures
        final(task).task_status == TaskStatus::Exited,
        final(task).syscall_times == old(task).syscall_times,
        final(task).time_begin == old(task).time_begin,
{
    task.task_status = TaskStatus::Exited;
}

/// The calling task gives up the processor: a running task becomes ready, and
/// the caller switches to the next one. A task in any other status keeps it.
pub fn sys_yield(task: &mut TaskControlBlock) -> (code: isize)
    ensures
        code == 0,
        final(task).task_status == if old(task).task_status == TaskStatus::Running {
            TaskStatus::Ready
        } else {
            old(task).task_status
        },
        final(task).syscall_times == old(task).syscall_times,
        final(task).time_begin == old(task).time_begin,
{
    if task.task_status == TaskStatus::Running {
        task.task_status = TaskStatus::Ready;
    }
    0
}

/// Writes the time into `ts`: the seconds and the microseconds past them.
/// `ticks` is the tick counter's value now.
pub fn sys_get_time(ticks: usize, ts: &mut TimeVal, _tz: usize) -> (code: isize)
    ensures
        code == 0,
        final(ts).sec == time_sec(ticks as int),
        final(ts).usec == time_subsec_us(ticks as int),
{
    get_timeval(ticks, ts);
    0
}

/// Writes a snapshot of `task` into `ti`: its status, its system-call
/// histogram, and the time since it was first scheduled. `ticks` is the tick
/// counter's value now, which is not before the first-scheduled time.
pub fn sys_task_info(task: &mut TaskControlBlock, ticks: usize, ti: &mut TaskInfo) -> (code: isize)
    requires
        elapsed(old(task).time_begin, ticks as int) >= 0,
    ensures
        code == 0,
        *final(task) == *old(task),
        final(ti).status == old(task).task_status,
        final(ti).syscall_times == old(task).syscall_times,
        final(ti).time == elapsed(old(task).time_begin, ticks as int),
{
    ti.status = task.task_status;
    ti.syscall_times = task.syscall_times;
    ti.time = task.real_time(ticks);
    0
}

/// Maps `len` bytes from address `start` with protection bits `prot`.
///
/// The request is checked in full before anything changes. A request that is
/// turned down returns -1 and leaves the address space as it was. A request for
/// no bytes at all succeeds and maps nothing. Any other request maps every
/// page that the range touches, as one area, with the permissions that the
/// bits ask for and user access.
pub fn sys_mmap(space: &mut MemorySet, start: usize, len: usize, prot: usize) -> (code: isize)
    requires
        old(space).wf(),
    ensures
        final(space).wf(),
        mmap_rejected(old(space)@, start as int, len as int, prot as int) ==> code == -1 && final(space)@ == old(space)@,
        !mmap_rejected(old(space)@, start as int, len as int, prot as int) ==> code == 0 && final(space)@ == mapped(old(space)@, start as int, len as int, prot as int),
{
    proof {
        lemma_prot_bits(prot);
    }
    if start % PAGE_SIZE != 0 || (prot & !0x7) != 0 || (prot & 0x7) == 0 {
        return -1;
    }
    let end: usize = match start.checked_add(len) {
        Some(end) => end,
        None => {
            return -1;
        },
    };
    let first: usize = vpn_floor(start);
    let beyond: usize = vpn_ceil(end);
    let mut vpn: usize = first;
    while vpn < beyond
        invariant
            first <= vpn <= beyond,
            space.wf(),
            space@ == old(space)@,
            first == page_floor(start as int),
            beyond == page_ceil(start + len),
            forall|v: int| first <= v < vpn ==> !space@.dom().contains(v),
        decreases beyond - vpn,
    {
        if space.translate(vpn).is_some() {
            assert(space@.dom().contains(vpn as int));
            return -1;
        }
        vpn += 1;
    }
    if len == 0 {
        assert(space@ =~= space@.union_prefer_right(
            framed(first as int, beyond as int, perm_of(prot as int)),
        ));
        return 0;
    }
    let map_perm = MapPermission {
        read: (prot & 0b001) != 0,
        write: (prot & 0b010) != 0,
        execute: (prot & 0b100) != 0,
        user: true,
    };
    space.insert_framed_area(start, end, map_perm);
    0
}

/// Unmaps `len` bytes from address `start`.
///
/// The request is checked in full before anything changes. A request that is
/// turned down returns -1 and leaves the address space as it was. Any other
/// request unmaps every page that the range touches.
pub fn sys_munmap(space: &mut MemorySet, start: usize, len: usize) -> (code: isize)
    requires
        old(space).wf(),
    ensures
        final(space).wf(),
        munmap_rejected(old(space)@, start as int, len as int) ==> code == -1 && final(space)@
            == old(space)@,
        !munmap_rejected(old(space)@, start as int, len as int) ==> code == 0 && final(space)@
            == unmapped(old(space)@, start as int, len as int),
{
    if start % PAGE_SIZE != 0 {
        return -1;
    }
    let end: usize = match start.checked_add(len) {
        Some(end) => end,
        None => {
            return -1;
        },
    };
    let first: usize = vpn_floor(start);
    let beyond: usize = vpn_ceil(end);
    let mut vpn: usize = first;
    while vpn < beyond
        invariant
            first <= vpn <= beyond,
            space.wf(),
            space@ == old(space)@,
            first == page_floor(start as int),
            beyond == page_ceil(start + len),
            forall|v: int| first <= v < vpn ==> space@.dom().contains(v),
        decreases beyond - vpn,
    {
        if space.translate(vpn).is_none() {
            assert(!space@.dom().contains(vpn as int));
            return -1;
        }
        vpn += 1;
    }
    space.remove_framed_area(start, end);
    0
}

/// Moves the program break by `size` bytes and returns where it was before,
/// or -1, with the break unmoved, where it cannot move that far.
pub fn sys_sbrk(heap: &mut Heap, size: i32) -> (code: isize)
    requires
        old(heap).wf(),
    ensures
        final(heap).wf(),
        final(heap).heap_bottom == old(heap).heap_bottom,
        old(heap).can_move(size as int) ==> code == old(heap).program_brk && final(heap).program_brk == old(heap).program_brk + size,
        !old(heap).can_move(size as int) ==> code == -1 && final(heap).program_brk == old(heap).program_brk,
{
    if let Some(old_brk) = heap.change_program_brk(size) {
        old_brk as isize
    } else {
        -1
    }
}


/// Mapping a range and then unmapping the same range: where the mapping goes
/// through, so does the unmapping, no page of the range is mapped afterwards,
/// and the address space is what it was before.
pub proof fn lemma_map_then_unmap(space: Map<int, MapPermission>, start: int, len: int, prot: int)
    requires
        0 <= start,
        0 <= len,
        !mmap_rejected(space, start, len, prot),
    ensures
        !munmap_rejected(mapped(space, start, len, prot), start, len),
        forall|vpn: int|
            page_floor(start) <= vpn < page_ceil(start + len) ==> !unmapped(
                mapped(space, start, len, prot),
                start,
                len,
            ).dom().contains(vpn),
        unmapped(mapped(space, start, len, prot), start, len) == space,
{
    let between = mapped(space, start, len, prot);
    assert forall|vpn: int| page_floor(start) <= vpn < page_ceil(start + len) implies between.dom().contains(
        vpn,
    ) by {
        assert(framed(page_floor(start), page_ceil(start + len), perm_of(prot)).dom().contains(vpn));
    }
    assert forall|vpn: int| #[trigger] space.dom().contains(vpn) implies !(page_floor(start) <= vpn
        < page_ceil(start + len)) by {}
    assert(unmapped(between, start, len) =~= space);
}

/// A mapping request that touches a page of a range mapped before is turned
/// down, whatever else it asks for.
pub proof fn lemma_overlapping_map_rejected(
    space: Map<int, MapPermission>,
    start: int,
    len: int,
    prot: int,
    again_start: int,
    again_len: int,
    again_prot: int,
    vpn: int,
)
    requires
        !mmap_rejected(space, start, len, prot),
        page_floor(start) <= vpn < page_ceil(start + len),
        page_floor(again_start) <= vpn < page_ceil(again_start + again_len),
    ensures
        mmap_rejected(mapped(space, start, len, prot), again_start, again_len, again_prot),
{
    assert(framed(page_floor(start), page_ceil(start + len), perm_of(prot)).dom().contains(vpn));
    assert(mapped(space, start, len, prot).dom().contains(vpn));
}

/// A request to map no bytes at a page-aligned address, with valid protection
/// bits, is not turned down and changes no mapping.
pub proof fn lemma_map_nothing(space: Map<int, MapPermission>, start: int, prot: int)
    requires
        0 <= start <= usize::MAX,
        start % (PAGE_SIZE as int) == 0,
        prot_valid(prot),
    ensures
        !mmap_rejected(space, start, 0, prot),
        mapped(space, start, 0, prot) == space,
{
    assert(mapped(space, start, 0, prot) =~= space);
}

} // verus!
