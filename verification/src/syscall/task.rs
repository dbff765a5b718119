//! The per-task record: status, system-call histogram, first-scheduled time.

use vstd::prelude::*;
use crate::timer::{get_time_ms, time_ms};

verus! {

/// System-call numbers run from zero up to and not including this.
pub const MAX_SYSCALL_NUM: usize = 500;

/// Where a task stands in its life.
#[derive(Copy, Clone, PartialEq, Eq, Structural, Debug)]
pub enum TaskStatus {
    /// Not yet set up.
    UnInit,
    /// Waiting for its turn.
    Ready,
    /// On the processor.
    Running,
    /// Over.
    Exited,
}

/// What the kernel keeps about a task.
#[derive(Copy, Clone)]
pub struct TaskControlBlock {
    /// Where the task stands in its life.
    pub task_status: TaskStatus,
    /// How often the task has made each system call.
    pub syscall_times: [u32; MAX_SYSCALL_NUM],
    /// When the task was first put on the processor, in milliseconds.
    pub time_begin: Option<usize>,
}

/// The time a task has been around since it was first scheduled at `begin`,
/// seen at `ticks`: zero for a task never scheduled.
pub open spec fn elapsed(begin: Option<usize>, ticks: int) -> int {
    match begin {
        Some(t) => time_ms(ticks) - t,
        None => 0,
    }
}

/// The elapsed time never runs backwards: a later look at the clock reports
/// no less than an earlier one.
pub proof fn lemma_elapsed_monotone(begin: Option<usize>, earlier: int, later: int)
    requires
        0 <= earlier <= later,
    ensures
        elapsed(begin, earlier) <= elapsed(begin, later),
{
    crate::timer::lemma_time_monotone(earlier, later);
}

impl TaskControlBlock {
    /// Counts one more call of system call `syscall_id`.
    pub fn record_syscall(&mut self, syscall_id: usize)
        requires
            syscall_id < MAX_SYSCALL_NUM,
            old(self).syscall_times[syscall_id as int] < u32::MAX,
        ensures
            final(self).syscall_times@ == old(self).syscall_times@.update(
                syscall_id as int,
                (old(self).syscall_times[syscall_id as int] + 1) as u32,
            ),
            final(self).task_status == old(self).task_status,
            final(self).time_begin == old(self).time_begin,
    {
        self.syscall_times[syscall_id] += 1;
    }

    /// Notes the time as the task's first-scheduled time, unless one is noted
    /// already. `ticks` is the tick counter's value now.
    pub fn record_first_time(&mut self, ticks: usize)
        ensures
            old(self).time_begin.is_some() ==> *final(self) == *old(self),
            old(self).time_begin.is_none() ==> final(self).time_begin == Some(
                time_ms(ticks as int) as usize,
            ),
            final(self).task_status == old(self).task_status,
            final(self).syscall_times == old(self).syscall_times,
    {
        if self.time_begin.is_none() {
            self.time_begin = Some(get_time_ms(ticks));
        }
    }

    /// The time since the task was first scheduled, in milliseconds, or zero
    /// where it never was. `ticks` is the tick counter's value now, which is
    /// not before the first-scheduled time.
    pub fn real_time(&mut self, ticks: usize) -> (ms: usize)
        requires
            elapsed(old(self).time_begin, ticks as int) >= 0,
        ensures
            ms == elapsed(old(self).time_begin, ticks as int),
            *final(self) == *old(self),
    {
        if let Some(time_begin) = self.time_begin {
            get_time_ms(ticks) - time_begin
        } else {
            0
        }
    }
}

impl Default for TaskControlBlock {
    /// A task not yet set up: no call counted, never scheduled.
    fn default() -> (task: TaskControlBlock)
        ensures
            task.task_status == TaskStatus::UnInit,
            task.time_begin.is_none(),
            forall|id: int| 0 <= id < MAX_SYSCALL_NUM ==> task.syscall_times[id] == 0,
    {
        TaskControlBlock {
            task_status: TaskStatus::UnInit,
            syscall_times: [0; MAX_SYSCALL_NUM],
            time_begin: None,
        }
    }
}

} // verus!
