//! Conversions from the platform's tick counter to wall-clock units.
//!
//! The counter runs at a fixed frequency. Every function here takes the value
//! that the caller has just read from it.

use vstd::prelude::*;
use crate::syscall::process::TimeVal;

verus! {

/// Timer interrupts per second.
pub const TICKS_PER_SEC: usize = 100;

/// Milliseconds per second.
pub const MILLI_PER_SEC: usize = 1000;

/// Microseconds per second.
pub const MICRO_PER_SEC: usize = 1000000;

/// Ticks of the counter per second.
pub const CLOCK_FREQ: usize = 12500000;

/// Ticks of the counter per millisecond.
pub const CLOCKS_PER_MSEC: usize = 12500;

/// Ticks of the counter between two timer interrupts.
pub const CLOCKS_PER_TICK: usize = 125000;

/// The per-millisecond and per-interrupt tick counts are the clock frequency
/// divided down.
pub proof fn lemma_clock_constants()
    ensures
        CLOCKS_PER_MSEC * MILLI_PER_SEC == CLOCK_FREQ,
        CLOCKS_PER_TICK * TICKS_PER_SEC == CLOCK_FREQ,
        MILLI_PER_SEC * MILLI_PER_SEC == MICRO_PER_SEC,
{
}

/// Whole milliseconds that have passed after `ticks` ticks.
pub open spec fn time_ms(ticks: int) -> int {
    ticks / (CLOCKS_PER_MSEC as int)
}

/// The time after `ticks` ticks in microseconds, at millisecond resolution.
pub open spec fn time_us(ticks: int) -> int {
    time_ms(ticks) * MILLI_PER_SEC
}

/// The seconds part of the time after `ticks` ticks.
pub open spec fn time_sec(ticks: int) -> int {
    time_ms(ticks) / (MILLI_PER_SEC as int)
}

/// The microseconds past the last whole second after `ticks` ticks.
pub open spec fn time_subsec_us(ticks: int) -> int {
    time_us(ticks) % (MICRO_PER_SEC as int)
}

/// The microsecond value never exceeds the tick count it was derived from, so
/// it fits wherever the tick count fits.
pub proof fn lemma_time_us_bounded(ticks: int)
    requires
        0 <= ticks,
    ensures
        0 <= time_ms(ticks) <= ticks,
        0 <= time_us(ticks) <= ticks,
{
}

/// Seconds and sub-second microseconds together give back the microsecond
/// value: nothing is lost in the split.
pub proof fn lemma_timeval_recomposes(ticks: int)
    requires
        0 <= ticks,
    ensures
        time_sec(ticks) * MICRO_PER_SEC + time_subsec_us(ticks) == time_us(ticks),
        0 <= time_subsec_us(ticks) < MICRO_PER_SEC,
        time_subsec_us(ticks) == (time_ms(ticks) % (MILLI_PER_SEC as int)) * MILLI_PER_SEC,
{
}

/// Time is monotone in the tick counter.
pub proof fn lemma_time_monotone(earlier: int, later: int)
    requires
        0 <= earlier <= later,
    ensures
        time_ms(earlier) <= time_ms(later),
        time_us(earlier) <= time_us(later),
{
    assert(MILLI_PER_SEC == 1000 && CLOCKS_PER_MSEC == 12500);
}

/// The current time in milliseconds, given the counter's value.
pub fn get_time_ms(ticks: usize) -> (ms: usize)
    ensures
        ms == time_ms(ticks as int),
{
    ticks / CLOCKS_PER_MSEC
}

/// The current time in microseconds, given the counter's value.
pub fn get_time_us(ticks: usize) -> (us: usize)
    ensures
        us == time_us(ticks as int),
{
    proof {
        lemma_time_us_bounded(ticks as int);
    }
    get_time_ms(ticks) * MILLI_PER_SEC
}

/// Writes the current time into `ts`, given the counter's value.
pub fn get_timeval(ticks: usize, ts: &mut TimeVal)
    ensures
        final(ts).sec == time_sec(ticks as int),
        final(ts).usec == time_subsec_us(ticks as int),
{
    ts.sec = get_time_ms(ticks) / MILLI_PER_SEC;
    ts.usec = get_time_us(ticks) % MICRO_PER_SEC;
}

/// The counter value at which the next timer interrupt is due, one scheduling
/// tick after `ticks`; `None` when that value lies beyond the counter's range.
pub fn set_next_trigger(ticks: usize) -> (deadline: Option<usize>)
    ensures
        ticks + CLOCKS_PER_TICK <= usize::MAX ==> deadline == Some(
            (ticks + CLOCKS_PER_TICK) as usize,
        ),
        ticks + CLOCKS_PER_TICK > usize::MAX ==> deadline.is_none(),
{
    ticks.checked_add(CLOCKS_PER_TICK)
}

/// A sleeping thread and the time at which it is to be woken.
#[derive(Clone, Copy, PartialEq, Eq, Structural, Debug)]
pub struct TimerCondVar {
    /// The deadline, in milliseconds.
    pub expire_ms: usize,
    /// The thread to wake.
    pub tid: usize,
}

/// The sleepers in `timers` are in the order of their deadlines.
pub open spec fn deadline_ordered(timers: Seq<TimerCondVar>) -> bool {
    forall|i: int, j: int|
        0 <= i < j < timers.len() ==> (#[trigger] timers[i]).expire_ms <= (
        #[trigger] timers[j]).expire_ms
}

/// Where a sleeper with deadline `expire_ms` goes among `timers`, searching
/// from `from` on: before the first one that is due later.
pub open spec fn slot_from(timers: Seq<TimerCondVar>, expire_ms: int, from: int) -> int
    decreases timers.len() - from,
{
    if from < 0 || from >= timers.len() {
        timers.len() as int
    } else if timers[from].expire_ms > expire_ms {
        from
    } else {
        slot_from(timers, expire_ms, from + 1)
    }
}

/// Where a sleeper with deadline `expire_ms` goes among `timers`: behind
/// everyone due no later, before everyone due later.
pub open spec fn slot_for(timers: Seq<TimerCondVar>, expire_ms: int) -> int {
    slot_from(timers, expire_ms, 0)
}

/// The slot found lies within the queue; everyone before it, from `from` on,
/// is due no later, and whoever stands at it is due later.
pub proof fn lemma_slot_from(timers: Seq<TimerCondVar>, expire_ms: int, from: int)
    requires
        0 <= from <= timers.len(),
    ensures
        from <= slot_from(timers, expire_ms, from) <= timers.len(),
        forall|i: int|
            from <= i < slot_from(timers, expire_ms, from) ==> (#[trigger] timers[i]).expire_ms
                <= expire_ms,
        slot_from(timers, expire_ms, from) < timers.len() ==> timers[slot_from(
            timers,
            expire_ms,
            from,
        )].expire_ms > expire_ms,
    decreases timers.len() - from,
{
    if from < timers.len() && timers[from].expire_ms <= expire_ms {
        lemma_slot_from(timers, expire_ms, from + 1);
    }
}

/// The queue of sleeping threads, earliest deadline first. Threads with one
/// deadline stand in the order in which they went to sleep.
pub struct TimerQueue {
    timers: Vec<TimerCondVar>,
}

impl View for TimerQueue {
    type V = Seq<TimerCondVar>;

    /// The sleepers, the next one to wake first.
    closed spec fn view(&self) -> Seq<TimerCondVar> {
        self.timers@
    }
}

impl TimerQueue {
    /// The sleepers are in the order of their deadlines.
    pub closed spec fn wf(&self) -> bool {
        deadline_ordered(self.timers@)
    }

    /// A queue with nobody asleep.
    pub fn new() -> (queue: TimerQueue)
        ensures
            queue.wf(),
            queue@ == Seq::<TimerCondVar>::empty(),
    {
        TimerQueue { timers: Vec::new() }
    }

    /// The number of sleepers.
    pub fn len(&self) -> (n: usize)
        ensures
            n == self@.len(),
    {
        self.timers.len()
    }

    /// The next sleeper to wake, or `None` where nobody is asleep.
    pub fn peek(&self) -> (next: Option<TimerCondVar>)
        ensures
            self@.len() > 0 ==> next == Some(self@[0]),
            self@.len() == 0 ==> next.is_none(),
    {
        if self.timers.len() > 0 {
            Some(self.timers[0])
        } else {
            None
        }
    }
}

/// Puts thread `tid` to sleep until `expire_ms`.
pub fn add_timer(queue: &mut TimerQueue, expire_ms: usize, tid: usize)
    requires
        old(queue).wf(),
    ensures
        final(queue).wf(),
        final(queue)@ == old(queue)@.insert(
            slot_for(old(queue)@, expire_ms as int),
            (TimerCondVar { expire_ms, tid }),
        ),
{
    let mut at: usize = 0;
    while at < queue.timers.len() && queue.timers[at].expire_ms <= expire_ms
        invariant
            0 <= at <= queue.timers.len(),
            queue.timers@ == old(queue).timers@,
            slot_for(queue.timers@, expire_ms as int) == slot_from(
                queue.timers@,
                expire_ms as int,
                at as int,
            ),
        decreases queue.timers.len() - at,
    {
        at += 1;
    }
    proof {
        let before = queue.timers@;
        let timer = TimerCondVar { expire_ms, tid };
        let after = before.insert(at as int, timer);
        lemma_slot_from(before, expire_ms as int, 0);
        assert forall|i: int, j: int| 0 <= i < j < after.len() implies (#[trigger] after[i]).expire_ms
            <= (#[trigger] after[j]).expire_ms by {
            if i < at && j > at {
                assert(after[i] == before[i] && after[j] == before[j - 1]);
            } else if i < at && j < at {
                assert(after[i] == before[i] && after[j] == before[j]);
            } else if i < at {
                assert(after[i] == before[i]);
            } else if i == at {
                assert(after[j] == before[j - 1]);
                assert(before[at as int].expire_ms <= before[j - 1].expire_ms);
            } else {
                assert(after[i] == before[i - 1] && after[j] == before[j - 1]);
            }
        }
    }
    queue.timers.insert(at, TimerCondVar { expire_ms, tid });
}

/// Wakes the next sleeper if its deadline has come: takes it off the queue
/// and returns its thread. Returns `None`, and leaves the queue alone, where
/// nobody is due yet. `ticks` is the tick counter's value now.
pub fn check_timer(queue: &mut TimerQueue, ticks: usize) -> (woken: Option<usize>)
    requires
        old(queue).wf(),
    ensures
        final(queue).wf(),
        old(queue)@.len() > 0 && old(queue)@[0].expire_ms <= time_ms(ticks as int) ==> woken
            == Some(old(queue)@[0].tid) && final(queue)@ == old(queue)@.drop_first(),
        !(old(queue)@.len() > 0 && old(queue)@[0].expire_ms <= time_ms(ticks as int)) ==> woken
            == None::<usize> && final(queue)@ == old(queue)@,
{
    if queue.timers.len() > 0 && queue.timers[0].expire_ms <= get_time_ms(ticks) {
        let timer = queue.timers.remove(0);
        assert(queue.timers@ =~= old(queue).timers@.drop_first());
        Some(timer.tid)
    } else {
        None
    }
}

} // verus!
