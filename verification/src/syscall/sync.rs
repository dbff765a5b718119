//! System calls on a process's synchronization resources.
//!
//! A process has three arrays of slots, one each for mutexes, semaphores and
//! condition variables. Beside them stand each resource's own state (whether a
//! mutex is locked, who waits for what) and the bookkeeping that the deadlock
//! detector reads: who is booked as the owner of each mutex, how many units of
//! each semaphore are available, and how many each thread holds and asks for.
//!
//! The calls decide and keep the books; they never suspend anyone. Each call
//! that can make the caller wait returns an [`Outcome`]: the result code, what
//! the calling task does next, and the thread to wake, if there is one. The
//! kernel around this crate carries that out.
//!
//! The counters are signed. A request is booked when it is admitted, not when
//! the caller gets to run on, so `available` goes below zero while threads
//! wait for a semaphore (it then counts them), and a thread that hands back
//! units it never took holds a negative number of them.

use vstd::prelude::*;
use crate::deadlock::{
    fits, grid, has_width, ints, is_safe, lemma_no_waiting_is_safe, safe_state,
};
use crate::timer::{add_timer, get_time_ms, slot_for, time_ms, TimerCondVar, TimerQueue};

verus! {

/// Returned by a lock or a decrement that the deadlock detector has refused.
pub const DEADLOCK: isize = -0xdead;

/// Returned by a call that fails for any other reason.
pub const FAILURE: isize = -1;

/// How a mutex waits for its turn.
#[derive(Clone, Copy, PartialEq, Eq, Structural, Debug)]
pub enum MutexKind {
    /// Polls until the mutex is free.
    Spin,
    /// Suspends the calling task until the mutex is handed over.
    Blocking,
}

/// What the calling task does after a call.
#[derive(Clone, Copy, PartialEq, Eq, Structural, Debug)]
pub enum Next {
    /// It runs on.
    Proceed,
    /// It is suspended until another thread's call names it as the one to
    /// wake.
    Block,
    /// It gives up the processor and, once it runs again, tries the lock
    /// again with [`relock_mutex`].
    Retry,
}

/// What a call on a resource comes to.
#[derive(Clone, Copy, PartialEq, Eq, Structural, Debug)]
pub struct Outcome {
    /// Zero, [`FAILURE`] or [`DEADLOCK`].
    pub code: isize,
    /// What the calling task does next.
    pub next: Next,
    /// The waiting thread to wake, if any.
    pub wake: Option<usize>,
}

impl Outcome {
    /// The call went through: the caller does `next`, and `wake` is woken.
    pub open spec fn done(next: Next, wake: Option<usize>) -> Outcome {
        Outcome { code: 0, next, wake }
    }

    /// The call failed: the caller runs on and nobody is woken.
    pub open spec fn failed() -> Outcome {
        Outcome { code: FAILURE, next: Next::Proceed, wake: None }
    }

    /// The detector refused the call: the caller runs on and nobody is woken.
    pub open spec fn refused() -> Outcome {
        Outcome { code: DEADLOCK, next: Next::Proceed, wake: None }
    }
}

/// Puts the calling thread `tid` to sleep for `ms` milliseconds, after which
/// the caller suspends the task until it is woken. `ticks` is the tick
/// counter's value now.
///
/// Fails, with nobody put to sleep, only where the deadline lies beyond the
/// range of the clock.
pub fn sys_sleep(queue: &mut TimerQueue, ticks: usize, tid: usize, ms: usize) -> (code: isize)
    requires
        old(queue).wf(),
    ensures
        final(queue).wf(),
        time_ms(ticks as int) + ms <= usize::MAX ==> code == 0 && final(queue)@ == old(queue)@.insert(
            slot_for(old(queue)@, time_ms(ticks as int) + ms),
            (TimerCondVar { expire_ms: (time_ms(ticks as int) + ms) as usize, tid }),
        ),
        time_ms(ticks as int) + ms > usize::MAX ==> code == FAILURE && final(queue)@ == old(queue)@,
{
    match get_time_ms(ticks).checked_add(ms) {
        Some(expire_ms) => {
            add_timer(queue, expire_ms, tid);
            0
        },
        None => FAILURE,
    }
}

/// The first empty slot from `from` on, or the number of slots when every one
/// from there on is taken.
pub open spec fn first_free_from<T>(slots: Seq<Option<T>>, from: int) -> int
    decreases slots.len() - from,
{
    if from < 0 || from >= slots.len() {
        slots.len() as int
    } else if slots[from] is None {
        from
    } else {
        first_free_from(slots, from + 1)
    }
}

/// The slot that the next resource goes to: the lowest empty one, or a new
/// one at the end when none is empty.
pub open spec fn first_free<T>(slots: Seq<Option<T>>) -> int {
    first_free_from(slots, 0)
}

/// The sequence with `item` at index `k`: an existing entry is replaced, the
/// entry one past the end is appended.
pub open spec fn put<T>(s: Seq<T>, k: int, item: T) -> Seq<T> {
    if k < s.len() {
        s.update(k, item)
    } else {
        s.push(item)
    }
}

/// The slots after `item` has gone to slot `k`.
pub open spec fn placed<T>(slots: Seq<Option<T>>, k: int, item: T) -> Seq<Option<T>> {
    put(slots, k, Some(item))
}

/// A row of `n` zero counters.
pub open spec fn zeros(n: nat) -> Seq<int> {
    Seq::new(n, |r: int| 0int)
}

/// Matrix `m` with entry `r` of row `t` raised by `delta`.
pub open spec fn bumped(m: Seq<Seq<int>>, t: int, r: int, delta: int) -> Seq<Seq<int>> {
    m.update(t, m[t].update(r, m[t][r] + delta))
}

/// Matrix `m` with one more column of zeros.
pub open spec fn widened(m: Seq<Seq<int>>) -> Seq<Seq<int>> {
    Seq::new(m.len(), |t: int| m[t].push(0int))
}

/// Matrix `m` with column `r` cleared.
pub open spec fn column_cleared(m: Seq<Seq<int>>, r: int) -> Seq<Seq<int>> {
    Seq::new(m.len(), |t: int| m[t].update(r, 0int))
}

/// The waiting queues as sequences of thread identifiers.
pub open spec fn queues(qs: Seq<Vec<usize>>) -> Seq<Seq<usize>> {
    qs.map_values(|q: Vec<usize>| q@)
}

/// Queue `id` with thread `tid` at its end.
pub open spec fn joined(qs: Seq<Seq<usize>>, id: int, tid: usize) -> Seq<Seq<usize>> {
    qs.update(id, qs[id].push(tid))
}

/// Queue `id` without its first thread.
pub open spec fn served(qs: Seq<Seq<usize>>, id: int) -> Seq<Seq<usize>> {
    qs.update(id, qs[id].drop_first())
}

/// The first thread of a queue, if it has one.
pub open spec fn front(q: Seq<usize>) -> Option<usize> {
    if q.len() > 0 {
        Some(q[0])
    } else {
        None
    }
}

/// The number of threads that a semaphore with `available` units owes a unit.
pub open spec fn debt(available: int) -> int {
    if available < 0 {
        -available
    } else {
        0
    }
}

/// What a process's synchronization table holds.
#[verifier::ext_equal]
pub struct TableView {
    /// The mutex slots, each empty or holding the mutex's kind.
    pub mutexes: Seq<Option<MutexKind>>,
    /// For each mutex slot, the thread booked as its owner.
    pub owners: Seq<Option<usize>>,
    /// For each mutex slot, whether the mutex is locked.
    pub locked: Seq<bool>,
    /// For each mutex slot, the threads suspended until the mutex is handed
    /// to them, the longest-waiting first.
    pub lock_waiters: Seq<Seq<usize>>,
    /// The semaphore slots, each empty or holding the semaphore's initial count.
    pub semaphores: Seq<Option<usize>>,
    /// For each semaphore slot, the units not booked to any thread. This is
    /// the semaphore's own counter.
    pub available: Seq<int>,
    /// For each thread and semaphore slot, the units booked to the thread.
    pub alloc: Seq<Seq<int>>,
    /// For each thread and semaphore slot, the units asked for and not yet booked.
    pub need: Seq<Seq<int>>,
    /// For each semaphore slot, the threads suspended until a unit comes back,
    /// the longest-waiting first.
    pub sem_waiters: Seq<Seq<usize>>,
    /// The condition-variable slots.
    pub condvars: Seq<Option<()>>,
    /// For each condition-variable slot, the threads suspended until the
    /// condition is signalled, the longest-waiting first.
    pub cond_waiters: Seq<Seq<usize>>,
    /// Whether locks and decrements are put before the deadlock detector.
    pub detect: bool,
}

impl TableView {
    /// The parallel arrays are aligned: one entry per slot in each array that
    /// goes with a slot array, and in both matrices one row per thread with one
    /// counter per semaphore slot.
    pub open spec fn aligned(self) -> bool {
        &&& self.owners.len() == self.mutexes.len()
        &&& self.locked.len() == self.mutexes.len()
        &&& self.lock_waiters.len() == self.mutexes.len()
        &&& self.available.len() == self.semaphores.len()
        &&& self.sem_waiters.len() == self.semaphores.len()
        &&& self.cond_waiters.len() == self.condvars.len()
        &&& self.need.len() == self.alloc.len()
        &&& forall|t: int|
            0 <= t < self.alloc.len() ==> (#[trigger] self.alloc[t]).len() == self.semaphores.len()
        &&& forall|t: int|
            0 <= t < self.need.len() ==> (#[trigger] self.need[t]).len() == self.semaphores.len()
    }

    /// The queues fit the resources' state: threads wait only for a blocking
    /// mutex that is locked, and a semaphore's queue holds as many threads as
    /// its counter is below zero.
    pub open spec fn queues_fit(self) -> bool {
        &&& forall|id: int|
            #![trigger self.mutexes[id]]
            self.has_mutex(id) && self.lock_waiters[id].len() > 0 ==> self.locked[id]
                && self.mutexes[id] == Some(MutexKind::Blocking)
        &&& forall|id: int|
            #![trigger self.semaphores[id]]
            self.has_semaphore(id) ==> self.sem_waiters[id].len() == debt(self.available[id])
    }

    /// The arrays are aligned and the queues fit.
    pub open spec fn wf(self) -> bool {
        self.aligned() && self.queues_fit()
    }

    /// The table of a fresh process: no slots, no threads, detection off.
    pub open spec fn empty() -> TableView {
        TableView {
            mutexes: Seq::empty(),
            owners: Seq::empty(),
            locked: Seq::empty(),
            lock_waiters: Seq::empty(),
            semaphores: Seq::empty(),
            available: Seq::empty(),
            alloc: Seq::empty(),
            need: Seq::empty(),
            sem_waiters: Seq::empty(),
            condvars: Seq::empty(),
            cond_waiters: Seq::empty(),
            detect: false,
        }
    }

    /// The number of threads.
    pub open spec fn threads(self) -> nat {
        self.alloc.len()
    }

    /// `tid` names a thread of the process.
    pub open spec fn has_thread(self, tid: int) -> bool {
        0 <= tid < self.alloc.len()
    }

    /// Slot `id` holds a mutex.
    pub open spec fn has_mutex(self, id: int) -> bool {
        0 <= id < self.mutexes.len() && self.mutexes[id] is Some
    }

    /// Slot `id` holds a semaphore.
    pub open spec fn has_semaphore(self, id: int) -> bool {
        0 <= id < self.semaphores.len() && self.semaphores[id] is Some
    }

    /// Slot `id` holds a condition variable.
    pub open spec fn has_condvar(self, id: int) -> bool {
        0 <= id < self.condvars.len() && self.condvars[id] is Some
    }

    /// The table with one more thread, which holds and asks for nothing.
    pub open spec fn with_thread(self) -> TableView {
        TableView {
            alloc: self.alloc.push(zeros(self.semaphores.len())),
            need: self.need.push(zeros(self.semaphores.len())),
            ..self
        }
    }

    /// The table with a mutex of kind `kind` in slot `k`: unlocked, owned by
    /// nobody, with nobody waiting.
    pub open spec fn with_mutex(self, k: int, kind: MutexKind) -> TableView {
        TableView {
            mutexes: placed(self.mutexes, k, kind),
            owners: put(self.owners, k, None),
            locked: put(self.locked, k, false),
            lock_waiters: put(self.lock_waiters, k, Seq::empty()),
            ..self
        }
    }

    /// The table with a semaphore of `count` units in slot `k`: all units
    /// available, none held or asked for, nobody waiting. A new slot adds a
    /// column to both matrices; a reused slot has its column cleared.
    pub open spec fn with_semaphore(self, k: int, count: usize) -> TableView {
        TableView {
            semaphores: placed(self.semaphores, k, count),
            available: put(self.available, k, count as int),
            alloc: if k < self.semaphores.len() {
                column_cleared(self.alloc, k)
            } else {
                widened(self.alloc)
            },
            need: if k < self.semaphores.len() {
                column_cleared(self.need, k)
            } else {
                widened(self.need)
            },
            sem_waiters: put(self.sem_waiters, k, Seq::empty()),
            ..self
        }
    }

    /// The table with a condition variable in slot `k`, with nobody waiting.
    pub open spec fn with_condvar(self, k: int) -> TableView {
        TableView {
            condvars: placed(self.condvars, k, ()),
            cond_waiters: put(self.cond_waiters, k, Seq::empty()),
            ..self
        }
    }

    /// The table with mutex slot `id` emptied.
    pub open spec fn without_mutex(self, id: int) -> TableView {
        TableView { mutexes: self.mutexes.update(id, None), ..self }
    }

    /// The table with semaphore slot `id` emptied.
    pub open spec fn without_semaphore(self, id: int) -> TableView {
        TableView { semaphores: self.semaphores.update(id, None), ..self }
    }

    /// The table with condition-variable slot `id` emptied.
    pub open spec fn without_condvar(self, id: int) -> TableView {
        TableView { condvars: self.condvars.update(id, None), ..self }
    }

    /// The detector refuses a lock of mutex `id`: detection is on and some
    /// thread is booked as the owner. Any contention counts as a deadlock.
    pub open spec fn lock_refused(self, id: int) -> bool {
        self.detect && self.owners[id] is Some
    }

    /// The table with thread `tid` booked as the owner of mutex `id`.
    pub open spec fn locked_by(self, tid: usize, id: int) -> TableView {
        TableView { owners: self.owners.update(id, Some(tid)), ..self }
    }

    /// The table with nobody booked as the owner of mutex `id`.
    pub open spec fn unlocked(self, id: int) -> TableView {
        TableView { owners: self.owners.update(id, None), ..self }
    }

    /// What a thread that tries to take mutex `id` does next: it runs on
    /// where the mutex is free; where it is taken, the thread polls a spinning
    /// mutex again and is suspended on a blocking one.
    pub open spec fn take_next(self, id: int) -> Next {
        if !self.locked[id] {
            Next::Proceed
        } else if self.mutexes[id] == Some(MutexKind::Spin) {
            Next::Retry
        } else {
            Next::Block
        }
    }

    /// The table after thread `tid` has tried to take mutex `id`: a free
    /// mutex is locked; a taken blocking mutex has the thread join its queue; a
    /// taken spinning mutex is as it was.
    pub open spec fn taking(self, tid: usize, id: int) -> TableView {
        match self.take_next(id) {
            Next::Proceed => TableView { locked: self.locked.update(id, true), ..self },
            Next::Retry => self,
            Next::Block => TableView { lock_waiters: joined(self.lock_waiters, id, tid), ..self },
        }
    }

    /// The thread that a release of mutex `id` wakes: the one that has
    /// waited longest, if any waits.
    pub open spec fn release_wake(self, id: int) -> Option<usize> {
        front(self.lock_waiters[id])
    }

    /// The table after mutex `id` has been released: where a thread waits,
    /// the mutex stays locked and is handed to the one that has waited longest,
    /// which leaves the queue; where none waits, the mutex is unlocked.
    pub open spec fn releasing(self, id: int) -> TableView {
        if self.lock_waiters[id].len() > 0 {
            TableView { lock_waiters: served(self.lock_waiters, id), ..self }
        } else {
            TableView { locked: self.locked.update(id, false), ..self }
        }
    }

    /// What a lock of mutex `mutex_id` by thread `tid` comes to.
    pub open spec fn lock_outcome(self, tid: usize, mutex_id: int) -> Outcome {
        if !self.has_mutex(mutex_id) {
            Outcome::failed()
        } else if self.lock_refused(mutex_id) {
            Outcome::refused()
        } else {
            Outcome::done(self.take_next(mutex_id), None)
        }
    }

    /// The table after a lock of mutex `mutex_id` by thread `tid`: unchanged
    /// where the call fails or is refused; else the thread is booked as the
    /// owner and tries to take the mutex.
    pub open spec fn after_lock(self, tid: usize, mutex_id: int) -> TableView {
        if !self.has_mutex(mutex_id) || self.lock_refused(mutex_id) {
            self
        } else {
            self.locked_by(tid, mutex_id).taking(tid, mutex_id)
        }
    }

    /// What an unlock of mutex `mutex_id` comes to.
    pub open spec fn unlock_outcome(self, mutex_id: int) -> Outcome {
        if !self.has_mutex(mutex_id) {
            Outcome::failed()
        } else {
            Outcome::done(Next::Proceed, self.release_wake(mutex_id))
        }
    }

    /// The table after an unlock of mutex `mutex_id`: unchanged where the
    /// call fails; else nobody is booked as the owner and the mutex is released.
    pub open spec fn after_unlock(self, mutex_id: int) -> TableView {
        if !self.has_mutex(mutex_id) {
            self
        } else {
            self.unlocked(mutex_id).releasing(mutex_id)
        }
    }

    /// The table with one more unit of semaphore `id` asked for by thread `tid`.
    pub open spec fn asking(self, tid: int, id: int) -> TableView {
        TableView { need: bumped(self.need, tid, id, 1), ..self }
    }

    /// The detector refuses a decrement of semaphore `id` by thread `tid`:
    /// detection is on, and the state with the request recorded is not safe.
    pub open spec fn down_refused(self, tid: int, id: int) -> bool {
        let asked = self.asking(tid, id);
        self.detect && !safe_state(asked.available, asked.alloc, asked.need)
    }

    /// The table after one unit of semaphore `id` has been booked to thread
    /// `tid`: one unit less available, one more held, the request settled.
    pub open spec fn granted(self, tid: int, id: int) -> TableView {
        TableView {
            available: self.available.update(id, self.available[id] - 1),
            alloc: bumped(self.alloc, tid, id, 1),
            ..self
        }
    }

    /// The table after thread `tid` has handed back one unit of semaphore `id`.
    pub open spec fn given_back(self, tid: int, id: int) -> TableView {
        TableView {
            available: self.available.update(id, self.available[id] + 1),
            alloc: bumped(self.alloc, tid, id, -1),
            ..self
        }
    }

    /// A counter that a decrement of semaphore `id` by thread `tid` would
    /// move stands at the end of its range.
    pub open spec fn down_out_of_range(self, tid: int, id: int) -> bool {
        ||| self.need[tid][id] >= i64::MAX
        ||| self.alloc[tid][id] >= i64::MAX
        ||| self.available[id] <= i64::MIN
    }

    /// A counter that an increment of semaphore `id` by thread `tid` would
    /// move stands at the end of its range.
    pub open spec fn up_out_of_range(self, tid: int, id: int) -> bool {
        ||| self.alloc[tid][id] <= i64::MIN
        ||| self.available[id] >= i64::MAX
    }

    /// A decrement of semaphore `sem_id` by thread `tid` can be booked: the
    /// slot holds a semaphore, the thread is known, and no counter stands at the
    /// end of its range.
    pub open spec fn down_possible(self, tid: int, sem_id: int) -> bool {
        self.has_semaphore(sem_id) && self.has_thread(tid) && !self.down_out_of_range(tid, sem_id)
    }

    /// An increment of semaphore `sem_id` by thread `tid` can be booked.
    pub open spec fn up_possible(self, tid: int, sem_id: int) -> bool {
        self.has_semaphore(sem_id) && self.has_thread(tid) && !self.up_out_of_range(tid, sem_id)
    }

    /// What a decrement of semaphore `sem_id` by thread `tid` comes to. A
    /// thread that takes a unit which is not there is suspended.
    pub open spec fn down_outcome(self, tid: usize, sem_id: int) -> Outcome {
        if !self.down_possible(tid as int, sem_id) {
            Outcome::failed()
        } else if self.down_refused(tid as int, sem_id) {
            Outcome::refused()
        } else if self.available[sem_id] <= 0 {
            Outcome::done(Next::Block, None)
        } else {
            Outcome::done(Next::Proceed, None)
        }
    }

    /// The table after a decrement of semaphore `sem_id` by thread `tid`:
    /// unchanged where the call fails or is refused; else the unit is booked,
    /// and the thread joins the queue where the unit was not there.
    pub open spec fn after_down(self, tid: usize, sem_id: int) -> TableView {
        if !self.down_possible(tid as int, sem_id) || self.down_refused(tid as int, sem_id) {
            self
        } else if self.available[sem_id] <= 0 {
            TableView {
                sem_waiters: joined(self.sem_waiters, sem_id, tid),
                ..self.granted(tid as int, sem_id)
            }
        } else {
            self.granted(tid as int, sem_id)
        }
    }

    /// What an increment of semaphore `sem_id` by thread `tid` comes to. The
    /// thread that has waited longest for a unit, if any waits, is woken.
    pub open spec fn up_outcome(self, tid: usize, sem_id: int) -> Outcome {
        if !self.up_possible(tid as int, sem_id) {
            Outcome::failed()
        } else {
            Outcome::done(Next::Proceed, front(self.sem_waiters[sem_id]))
        }
    }

    /// The table after an increment of semaphore `sem_id` by thread `tid`:
    /// unchanged where the call fails; else the unit is booked back, and the
    /// thread that is woken leaves the queue.
    pub open spec fn after_up(self, tid: usize, sem_id: int) -> TableView {
        if !self.up_possible(tid as int, sem_id) {
            self
        } else if self.sem_waiters[sem_id].len() > 0 {
            TableView {
                sem_waiters: served(self.sem_waiters, sem_id),
                ..self.given_back(tid as int, sem_id)
            }
        } else {
            self.given_back(tid as int, sem_id)
        }
    }

    /// What a signal on condition variable `condvar_id` comes to: the thread
    /// that has waited longest, if any waits, is woken.
    pub open spec fn signal_outcome(self, condvar_id: int) -> Outcome {
        if !self.has_condvar(condvar_id) {
            Outcome::failed()
        } else {
            Outcome::done(Next::Proceed, front(self.cond_waiters[condvar_id]))
        }
    }

    /// The table after a signal on condition variable `condvar_id`: the
    /// thread that is woken leaves the queue. With nobody waiting the signal is
    /// lost.
    pub open spec fn after_signal(self, condvar_id: int) -> TableView {
        if self.has_condvar(condvar_id) && self.cond_waiters[condvar_id].len() > 0 {
            TableView { cond_waiters: served(self.cond_waiters, condvar_id), ..self }
        } else {
            self
        }
    }

    /// What a wait on condition variable `condvar_id` with mutex `mutex_id`
    /// comes to: the caller is suspended, and whoever the release of the mutex
    /// wakes is woken.
    pub open spec fn wait_outcome(self, condvar_id: int, mutex_id: int) -> Outcome {
        if !self.has_condvar(condvar_id) || !self.has_mutex(mutex_id) {
            Outcome::failed()
        } else {
            Outcome::done(Next::Block, self.release_wake(mutex_id))
        }
    }

    /// The table after a wait of thread `tid` on condition variable
    /// `condvar_id` with mutex `mutex_id`: unchanged where the call fails; else
    /// the mutex is released and the thread joins the condition's queue.
    pub open spec fn after_wait(self, tid: usize, condvar_id: int, mutex_id: int) -> TableView {
        if !self.has_condvar(condvar_id) || !self.has_mutex(mutex_id) {
            self
        } else {
            TableView {
                cond_waiters: joined(self.cond_waiters, condvar_id, tid),
                ..self.releasing(mutex_id)
            }
        }
    }
}

/// A process's synchronization table.
pub struct SyncTable {
    mutex_list: Vec<Option<MutexKind>>,
    mutex_alloc: Vec<Option<usize>>,
    mutex_locked: Vec<bool>,
    mutex_waiting: Vec<Vec<usize>>,
    semaphore_list: Vec<Option<usize>>,
    sem_avail: Vec<i64>,
    sem_alloc: Vec<Vec<i64>>,
    sem_need: Vec<Vec<i64>>,
    sem_waiting: Vec<Vec<usize>>,
    condvar_list: Vec<Option<()>>,
    condvar_waiting: Vec<Vec<usize>>,
    deadlock_detect: bool,
}

impl View for SyncTable {
    type V = TableView;

    closed spec fn view(&self) -> TableView {
        TableView {
            mutexes: self.mutex_list@,
            owners: self.mutex_alloc@,
            locked: self.mutex_locked@,
            lock_waiters: queues(self.mutex_waiting@),
            semaphores: self.semaphore_list@,
            available: ints(self.sem_avail@),
            alloc: grid(self.sem_alloc@),
            need: grid(self.sem_need@),
            sem_waiters: queues(self.sem_waiting@),
            condvars: self.condvar_list@,
            cond_waiters: queues(self.condvar_waiting@),
            detect: self.deadlock_detect,
        }
    }
}

/// The kind of mutex that a creation request asks for.
pub open spec fn kind_of(blocking: bool) -> MutexKind {
    if blocking {
        MutexKind::Blocking
    } else {
        MutexKind::Spin
    }
}

/// The lowest empty slot, or the number of slots when none is empty.
fn lowest_free<T>(slots: &Vec<Option<T>>) -> (k: usize)
    ensures
        k == first_free(slots@),
        k <= slots.len(),
{
    let mut k: usize = 0;
    while k < slots.len()
        invariant
            0 <= k <= slots.len(),
            first_free(slots@) == first_free_from(slots@, k as int),
        decreases slots.len() - k,
    {
        if slots[k].is_none() {
            return k;
        }
        k += 1;
    }
    k
}

/// Puts `item` at index `k`, appending it when `k` is one past the end.
fn put_item<T>(v: &mut Vec<T>, k: usize, item: T)
    requires
        k <= old(v).len(),
    ensures
        final(v)@ == put(old(v)@, k as int, item),
{
    if k < v.len() {
        v[k] = item;
    } else {
        v.push(item);
    }
}

/// Puts an empty queue at index `k`, appending it when `k` is one past the
/// end.
fn put_queue(qs: &mut Vec<Vec<usize>>, k: usize)
    requires
        k <= old(qs).len(),
    ensures
        queues(final(qs)@) == put(queues(old(qs)@), k as int, Seq::empty()),
{
    put_item(qs, k, Vec::new());
    assert(queues(qs@) =~~= put(queues(old(qs)@), k as int, Seq::empty()));
}

/// Adds thread `tid` to the end of queue `id`.
fn enqueue(qs: &mut Vec<Vec<usize>>, id: usize, tid: usize)
    requires
        id < old(qs).len(),
    ensures
        queues(final(qs)@) == joined(queues(old(qs)@), id as int, tid),
{
    qs[id].push(tid);
    assert(queues(qs@) =~~= joined(queues(old(qs)@), id as int, tid));
}

/// Takes the first thread off queue `id`, if it has one.
fn dequeue(qs: &mut Vec<Vec<usize>>, id: usize) -> (woken: Option<usize>)
    requires
        id < old(qs).len(),
    ensures
        woken == front(queues(old(qs)@)[id as int]),
        woken.is_none() ==> queues(final(qs)@) == queues(old(qs)@),
        woken.is_some() ==> queues(final(qs)@) == served(queues(old(qs)@), id as int),
{
    if qs[id].len() == 0 {
        assert(queues(qs@) =~~= queues(old(qs)@));
        return None;
    }
    let tid: usize = qs[id].remove(0);
    assert(queues(qs@) =~~= served(queues(old(qs)@), id as int));
    Some(tid)
}

/// A copy of a queue.
fn copy_queue(q: &Vec<usize>) -> (copy: Vec<usize>)
    ensures
        copy@ == q@,
{
    let mut copy: Vec<usize> = Vec::new();
    let mut i: usize = 0;
    while i < q.len()
        invariant
            0 <= i <= q.len(),
            copy@ == q@.take(i as int),
        decreases q.len() - i,
    {
        copy.push(q[i]);
        assert(q@.take(i + 1) =~= q@.take(i as int).push(q[i as int]));
        i += 1;
    }
    assert(q@.take(q.len() as int) =~= q@);
    copy
}

/// A row of `n` zero counters.
fn zero_row(n: usize) -> (row: Vec<i64>)
    ensures
        row.len() == n,
        ints(row@) == zeros(n as nat),
{
    let mut row: Vec<i64> = Vec::new();
    let mut r: usize = 0;
    while r < n
        invariant
            0 <= r <= n,
            row.len() == r,
            forall|k: int| 0 <= k < r ==> row[k] == 0,
        decreases n - r,
    {
        row.push(0);
        r += 1;
    }
    assert(ints(row@) =~= zeros(n as nat));
    row
}

/// The rows of a matrix are as wide in the table's view as in its vectors.
proof fn lemma_grid_width(m: Seq<Vec<i64>>, width: nat)
    ensures
        has_width(m, width) <==> (forall|t: int|
            0 <= t < grid(m).len() ==> (#[trigger] grid(m)[t]).len() == width),
        grid(m).len() == m.len(),
{
    if has_width(m, width) {
        assert forall|t: int| 0 <= t < grid(m).len() implies (#[trigger] grid(m)[t]).len()
            == width by {
            assert(m[t].len() == width);
        }
    }
    if forall|t: int| 0 <= t < grid(m).len() ==> (#[trigger] grid(m)[t]).len() == width {
        assert forall|t: int| 0 <= t < m.len() implies (#[trigger] m[t]).len() == width by {
            assert(grid(m)[t].len() == width);
        }
    }
}

/// Raises entry `r` of row `t` by `delta`.
fn bump(m: &mut Vec<Vec<i64>>, t: usize, r: usize, delta: i64)
    requires
        t < old(m).len(),
        r < old(m)[t as int].len(),
        i64::MIN <= old(m)[t as int][r as int] + delta <= i64::MAX,
    ensures
        final(m).len() == old(m).len(),
        final(m)[t as int].len() == old(m)[t as int].len(),
        final(m)[t as int][r as int] == old(m)[t as int][r as int] + delta,
        grid(final(m)@) == bumped(grid(old(m)@), t as int, r as int, delta as int),
        forall|width: nat| has_width(old(m)@, width) ==> has_width(final(m)@, width),
{
    let value: i64 = m[t][r] + delta;
    m[t][r] = value;
    assert(grid(m@) =~~= bumped(grid(old(m)@), t as int, r as int, delta as int));
}

/// Appends a zero to every row.
fn widen(m: &mut Vec<Vec<i64>>, Ghost(width): Ghost<nat>)
    requires
        has_width(old(m)@, width),
    ensures
        grid(final(m)@) == widened(grid(old(m)@)),
        has_width(final(m)@, width + 1),
{
    let mut t: usize = 0;
    while t < m.len()
        invariant
            0 <= t <= m.len(),
            m.len() == old(m).len(),
            forall|u: int| 0 <= u < t ==> (#[trigger] m[u])@ == old(m)[u]@.push(0i64),
            forall|u: int| t <= u < m.len() ==> (#[trigger] m[u]) == old(m)[u],
            has_width(old(m)@, width),
        decreases m.len() - t,
    {
        m[t].push(0);
        t += 1;
    }
    assert(grid(m@) =~~= widened(grid(old(m)@)));
    assert forall|u: int| 0 <= u < m.len() implies (#[trigger] m[u]).len() == width + 1 by {
        assert(old(m)[u].len() == width);
    }
}

/// Clears entry `r` of every row.
fn clear_column(m: &mut Vec<Vec<i64>>, r: usize, Ghost(width): Ghost<nat>)
    requires
        has_width(old(m)@, width),
        r < width,
    ensures
        grid(final(m)@) == column_cleared(grid(old(m)@), r as int),
        has_width(final(m)@, width),
{
    let mut t: usize = 0;
    while t < m.len()
        invariant
            0 <= t <= m.len(),
            m.len() == old(m).len(),
            r < width,
            forall|u: int| 0 <= u < t ==> (#[trigger] m[u])@ == old(m)[u]@.update(r as int, 0i64),
            forall|u: int| t <= u < m.len() ==> (#[trigger] m[u]) == old(m)[u],
            has_width(old(m)@, width),
        decreases m.len() - t,
    {
        assert(old(m)[t as int].len() == width);
        m[t][r] = 0;
        t += 1;
    }
    assert(grid(m@) =~~= column_cleared(grid(old(m)@), r as int));
    assert forall|u: int| 0 <= u < m.len() implies (#[trigger] m[u]).len() == width by {
        assert(old(m)[u].len() == width);
    }
}

impl SyncTable {
    /// The table's view is well-formed, as [`TableView::wf`] says, and no unit
    /// of any semaphore has been lost or made up.
    pub closed spec fn wf(&self) -> bool {
        self@.wf() && self@.conserved()
    }

    /// What a well-formed table's view is known to satisfy.
    pub proof fn lemma_wf(&self)
        requires
            self.wf(),
        ensures
            self@.wf(),
            self@.conserved(),
    {
    }

    /// The table of a fresh process: no slots, no threads, detection off.
    pub fn new() -> (table: SyncTable)
        ensures
            table.wf(),
            table@ == TableView::empty(),
    {
        let table = SyncTable {
            mutex_list: Vec::new(),
            mutex_alloc: Vec::new(),
            mutex_locked: Vec::new(),
            mutex_waiting: Vec::new(),
            semaphore_list: Vec::new(),
            sem_avail: Vec::new(),
            sem_alloc: Vec::new(),
            sem_need: Vec::new(),
            sem_waiting: Vec::new(),
            condvar_list: Vec::new(),
            condvar_waiting: Vec::new(),
            deadlock_detect: false,
        };
        assert(table@ =~~= TableView::empty());
        table
    }

    /// Registers one more thread and returns its identifier. Identifiers are
    /// handed out in order, from zero.
    pub fn add_thread(&mut self) -> (tid: usize)
        requires
            old(self).wf(),
        ensures
            final(self).wf(),
            tid == old(self)@.threads(),
            final(self)@ == old(self)@.with_thread(),
    {
        let tid: usize = self.sem_alloc.len();
        let width: usize = self.semaphore_list.len();
        self.sem_alloc.push(zero_row(width));
        self.sem_need.push(zero_row(width));
        proof {
            assert(self@ =~~= old(self)@.with_thread());
            lemma_thread_conserves(old(self)@);
        }
        tid
    }

    /// The number of threads registered.
    pub fn thread_count(&self) -> (n: usize)
        requires
            self.wf(),
        ensures
            n == self@.threads(),
    {
        self.sem_alloc.len()
    }

    /// The kind of the mutex in slot `id`, or `None` where the slot holds none.
    pub fn mutex_kind(&self, id: usize) -> (kind: Option<MutexKind>)
        ensures
            self@.has_mutex(id as int) ==> kind == self@.mutexes[id as int],
            !self@.has_mutex(id as int) ==> kind.is_none(),
    {
        if id < self.mutex_list.len() {
            self.mutex_list[id]
        } else {
            None
        }
    }

    /// The thread booked as the owner of mutex `id`, or `None` where nobody
    /// is, or where the slot holds no mutex.
    pub fn mutex_owner(&self, id: usize) -> (owner: Option<usize>)
        requires
            self.wf(),
        ensures
            self@.has_mutex(id as int) ==> owner == self@.owners[id as int],
            !self@.has_mutex(id as int) ==> owner.is_none(),
    {
        if id < self.mutex_list.len() && self.mutex_list[id].is_some() {
            self.mutex_alloc[id]
        } else {
            None
        }
    }

    /// Whether mutex `id` is locked; `false` where the slot holds no mutex.
    pub fn is_locked(&self, id: usize) -> (locked: bool)
        requires
            self.wf(),
        ensures
            locked == (self@.has_mutex(id as int) && self@.locked[id as int]),
    {
        id < self.mutex_list.len() && self.mutex_list[id].is_some() && self.mutex_locked[id]
    }

    /// The threads that wait for mutex `id`, the longest-waiting first; none
    /// where the slot holds no mutex.
    pub fn mutex_waiters(&self, id: usize) -> (waiting: Vec<usize>)
        requires
            self.wf(),
        ensures
            self@.has_mutex(id as int) ==> waiting@ == self@.lock_waiters[id as int],
            !self@.has_mutex(id as int) ==> waiting@ == Seq::<usize>::empty(),
    {
        if id < self.mutex_list.len() && self.mutex_list[id].is_some() {
            copy_queue(&self.mutex_waiting[id])
        } else {
            Vec::new()
        }
    }

    /// The count that the semaphore in slot `id` was created with, or `None`
    /// where the slot holds none.
    pub fn semaphore_count(&self, id: usize) -> (count: Option<usize>)
        ensures
            self@.has_semaphore(id as int) ==> count == self@.semaphores[id as int],
            !self@.has_semaphore(id as int) ==> count.is_none(),
    {
        if id < self.semaphore_list.len() {
            self.semaphore_list[id]
        } else {
            None
        }
    }

    /// The units of semaphore `id` that are booked to no thread, or `None`
    /// where the slot holds no semaphore.
    pub fn available(&self, id: usize) -> (units: Option<i64>)
        requires
            self.wf(),
        ensures
            self@.has_semaphore(id as int) ==> units.is_some() && units.unwrap()
                == self@.available[id as int],
            !self@.has_semaphore(id as int) ==> units.is_none(),
    {
        if id < self.semaphore_list.len() && self.semaphore_list[id].is_some() {
            Some(self.sem_avail[id])
        } else {
            None
        }
    }

    /// The units of semaphore `id` booked to thread `tid`, or `None` where
    /// the slot holds no semaphore or the thread is unknown.
    pub fn allocated(&self, tid: usize, id: usize) -> (units: Option<i64>)
        requires
            self.wf(),
        ensures
            self@.has_semaphore(id as int) && self@.has_thread(tid as int) ==> units.is_some()
                && units.unwrap() == self@.alloc[tid as int][id as int],
            !(self@.has_semaphore(id as int) && self@.has_thread(tid as int)) ==> units.is_none(),
    {
        if id < self.semaphore_list.len() && self.semaphore_list[id].is_some()
            && tid < self.sem_alloc.len() {
            proof {
                lemma_grid_width(self.sem_alloc@, self.semaphore_list.len() as nat);
                assert(self.sem_alloc[tid as int].len() == self.semaphore_list.len());
            }
            Some(self.sem_alloc[tid][id])
        } else {
            None
        }
    }

    /// The units of semaphore `id` that thread `tid` asks for and has not
    /// been booked, or `None` where the slot holds no semaphore or the thread
    /// is unknown.
    pub fn needed(&self, tid: usize, id: usize) -> (units: Option<i64>)
        requires
            self.wf(),
        ensures
            self@.has_semaphore(id as int) && self@.has_thread(tid as int) ==> units.is_some()
                && units.unwrap() == self@.need[tid as int][id as int],
            !(self@.has_semaphore(id as int) && self@.has_thread(tid as int)) ==> units.is_none(),
    {
        if id < self.semaphore_list.len() && self.semaphore_list[id].is_some()
            && tid < self.sem_need.len() {
            proof {
                lemma_grid_width(self.sem_need@, self.semaphore_list.len() as nat);
                assert(self.sem_need[tid as int].len() == self.semaphore_list.len());
            }
            Some(self.sem_need[tid][id])
        } else {
            None
        }
    }

    /// The threads that wait for a unit of semaphore `id`, the
    /// longest-waiting first; none where the slot holds no semaphore.
    pub fn semaphore_waiters(&self, id: usize) -> (waiting: Vec<usize>)
        requires
            self.wf(),
        ensures
            self@.has_semaphore(id as int) ==> waiting@ == self@.sem_waiters[id as int],
            !self@.has_semaphore(id as int) ==> waiting@ == Seq::<usize>::empty(),
    {
        if id < self.semaphore_list.len() && self.semaphore_list[id].is_some() {
            copy_queue(&self.sem_waiting[id])
        } else {
            Vec::new()
        }
    }

    /// Whether slot `id` holds a condition variable.
    pub fn holds_condvar(&self, id: usize) -> (held: bool)
        ensures
            held == self@.has_condvar(id as int),
    {
        id < self.condvar_list.len() && self.condvar_list[id].is_some()
    }

    /// The threads that wait on condition variable `id`, the longest-waiting
    /// first; none where the slot holds no condition variable.
    pub fn condvar_waiters(&self, id: usize) -> (waiting: Vec<usize>)
        requires
            self.wf(),
        ensures
            self@.has_condvar(id as int) ==> waiting@ == self@.cond_waiters[id as int],
            !self@.has_condvar(id as int) ==> waiting@ == Seq::<usize>::empty(),
    {
        if id < self.condvar_list.len() && self.condvar_list[id].is_some() {
            copy_queue(&self.condvar_waiting[id])
        } else {
            Vec::new()
        }
    }

    /// Whether locks and decrements are put before the deadlock detector.
    pub fn detects_deadlock(&self) -> (on: bool)
        ensures
            on == self@.detect,
    {
        self.deadlock_detect
    }

    /// Empties mutex slot `id`. Returns whether the slot held a mutex; if it
    /// did not, nothing changes.
    pub fn free_mutex(&mut self, id: usize) -> (freed: bool)
        requires
            old(self).wf(),
        ensures
            final(self).wf(),
            freed == old(self)@.has_mutex(id as int),
            freed ==> final(self)@ == old(self)@.without_mutex(id as int),
            !freed ==> final(self)@ == old(self)@,
    {
        if id >= self.mutex_list.len() || self.mutex_list[id].is_none() {
            return false;
        }
        self.mutex_list[id] = None;
        assert(self@ =~~= old(self)@.without_mutex(id as int));
        true
    }

    /// Empties semaphore slot `id`. Returns whether the slot held a semaphore;
    /// if it did not, nothing changes.
    pub fn free_semaphore(&mut self, id: usize) -> (freed: bool)
        requires
            old(self).wf(),
        ensures
            final(self).wf(),
            freed == old(self)@.has_semaphore(id as int),
            freed ==> final(self)@ == old(self)@.without_semaphore(id as int),
            !freed ==> final(self)@ == old(self)@,
    {
        if id >= self.semaphore_list.len() || self.semaphore_list[id].is_none() {
            return false;
        }
        self.semaphore_list[id] = None;
        proof {
            assert(self@ =~~= old(self)@.without_semaphore(id as int));
            lemma_free_conserves(old(self)@, id as int);
        }
        true
    }

    /// Empties condition-variable slot `id`. Returns whether the slot held a
    /// condition variable; if it did not, nothing changes.
    pub fn free_condvar(&mut self, id: usize) -> (freed: bool)
        requires
            old(self).wf(),
        ensures
            final(self).wf(),
            freed == old(self)@.has_condvar(id as int),
            freed ==> final(self)@ == old(self)@.without_condvar(id as int),
            !freed ==> final(self)@ == old(self)@,
    {
        if id >= self.condvar_list.len() || self.condvar_list[id].is_none() {
            return false;
        }
        self.condvar_list[id] = None;
        assert(self@ =~~= old(self)@.without_condvar(id as int));
        true
    }
}

/// A thread's try at a mutex keeps the table well-formed.
proof fn lemma_taking_fits(table: TableView, tid: usize, id: int)
    requires
        table.wf(),
        table.has_mutex(id),
    ensures
        table.taking(tid, id).wf(),
{
    let after = table.taking(tid, id);
    assert forall|other: int|
        #![trigger after.mutexes[other]]
        after.has_mutex(other) && after.lock_waiters[other].len() > 0 implies after.locked[other]
        && after.mutexes[other] == Some(MutexKind::Blocking) by {
        assert(table.has_mutex(other));
        if other == id {
            match table.mutexes[id] {
                Some(MutexKind::Spin) => {},
                Some(MutexKind::Blocking) => {},
                None => {},
            }
        }
    }
    assert forall|other: int|
        #![trigger after.semaphores[other]]
        after.has_semaphore(other) implies after.sem_waiters[other].len() == debt(
        after.available[other],
    ) by {
        assert(table.has_semaphore(other));
    }
}

/// Thread `tid` tries to take mutex `id`.
fn take(table: &mut SyncTable, tid: usize, id: usize) -> (next: Next)
    requires
        old(table)@.aligned(),
        old(table)@.has_mutex(id as int),
    ensures
        next == old(table)@.take_next(id as int),
        final(table)@ == old(table)@.taking(tid, id as int),
{
    if !table.mutex_locked[id] {
        table.mutex_locked[id] = true;
        assert(table@ =~~= old(table)@.taking(tid, id as int));
        return Next::Proceed;
    }
    match table.mutex_list[id] {
        Some(MutexKind::Spin) => Next::Retry,
        _ => {
            enqueue(&mut table.mutex_waiting, id, tid);
            assert(table@ =~~= old(table)@.taking(tid, id as int));
            Next::Block
        },
    }
}

/// Mutex `id` is released.
fn release(table: &mut SyncTable, id: usize) -> (woken: Option<usize>)
    requires
        old(table)@.aligned(),
        old(table)@.has_mutex(id as int),
    ensures
        woken == old(table)@.release_wake(id as int),
        final(table)@ == old(table)@.releasing(id as int),
{
    let woken: Option<usize> = dequeue(&mut table.mutex_waiting, id);
    if woken.is_none() {
        table.mutex_locked[id] = false;
    }
    assert(table@ =~~= old(table)@.releasing(id as int));
    woken
}

/// Creates a mutex, spinning or blocking, in the lowest empty slot and
/// returns the slot's index. The mutex is unlocked and owned by nobody.
///
/// Fails, changing nothing, only where the index would not fit the result.
pub fn sys_mutex_create(table: &mut SyncTable, blocking: bool) -> (id: isize)
    requires
        old(table).wf(),
    ensures
        final(table).wf(),
        first_free(old(table)@.mutexes) <= isize::MAX ==> id == first_free(old(table)@.mutexes)
            && final(table)@ == old(table)@.with_mutex(id as int, kind_of(blocking)),
        first_free(old(table)@.mutexes) > isize::MAX ==> id == FAILURE && final(table)@ == old(table)@,
{
    let kind = if !blocking {
        MutexKind::Spin
    } else {
        MutexKind::Blocking
    };
    let k: usize = lowest_free(&table.mutex_list);
    if k > isize::MAX as usize {
        return FAILURE;
    }
    put_item(&mut table.mutex_alloc, k, None);
    put_item(&mut table.mutex_locked, k, false);
    put_queue(&mut table.mutex_waiting, k);
    put_item(&mut table.mutex_list, k, Some(kind));
    assert(table@ =~~= old(table)@.with_mutex(k as int, kind_of(blocking)));
    k as isize
}

/// Thread `tid` locks mutex `mutex_id`: it is booked as the owner and tries
/// to take the mutex.
///
/// With detection on, a mutex that already has an owner is refused with
/// [`DEADLOCK`]. A slot that holds no mutex fails. Neither changes anything, and
/// neither touches the mutex.
pub fn sys_mutex_lock(table: &mut SyncTable, tid: usize, mutex_id: usize) -> (out: Outcome)
    requires
        old(table).wf(),
    ensures
        final(table).wf(),
        out == old(table)@.lock_outcome(tid, mutex_id as int),
        final(table)@ == old(table)@.after_lock(tid, mutex_id as int),
{
    if mutex_id >= table.mutex_list.len() || table.mutex_list[mutex_id].is_none() {
        return Outcome { code: FAILURE, next: Next::Proceed, wake: None };
    }
    if table.deadlock_detect && table.mutex_alloc[mutex_id].is_some() {
        return Outcome { code: DEADLOCK, next: Next::Proceed, wake: None };
    }
    table.mutex_alloc[mutex_id] = Some(tid);
    assert(table@ =~~= old(table)@.locked_by(tid, mutex_id as int));
    proof {
        lemma_taking_fits(table@, tid, mutex_id as int);
    }
    let next = take(table, tid, mutex_id);
    Outcome { code: 0, next, wake: None }
}

/// Thread `tid` tries again to take mutex `mutex_id`, without being booked
/// anew: for a thread that polls a spinning mutex, and for a thread woken on a
/// condition that takes its mutex back.
///
/// A slot that holds no mutex fails and changes nothing.
pub fn relock_mutex(table: &mut SyncTable, tid: usize, mutex_id: usize) -> (out: Outcome)
    requires
        old(table).wf(),
    ensures
        final(table).wf(),
        !old(table)@.has_mutex(mutex_id as int) ==> out == Outcome::failed() && final(table)@
            == old(table)@,
        old(table)@.has_mutex(mutex_id as int) ==> out == Outcome::done(
            old(table)@.take_next(mutex_id as int),
            None,
        ) && final(table)@ == old(table)@.taking(tid, mutex_id as int),
{
    if mutex_id >= table.mutex_list.len() || table.mutex_list[mutex_id].is_none() {
        return Outcome { code: FAILURE, next: Next::Proceed, wake: None };
    }
    proof {
        lemma_taking_fits(table@, tid, mutex_id as int);
    }
    let next = take(table, tid, mutex_id);
    Outcome { code: 0, next, wake: None }
}

/// Unlocks mutex `mutex_id`: nobody is booked as its owner any more, and the
/// mutex is released. A blocking mutex wakes the thread that has waited
/// longest, if any waits, and stays locked for it.
///
/// A slot that holds no mutex fails and changes nothing.
pub fn sys_mutex_unlock(table: &mut SyncTable, mutex_id: usize) -> (out: Outcome)
    requires
        old(table).wf(),
    ensures
        final(table).wf(),
        out == old(table)@.unlock_outcome(mutex_id as int),
        final(table)@ == old(table)@.after_unlock(mutex_id as int),
{
    if mutex_id >= table.mutex_list.len() || table.mutex_list[mutex_id].is_none() {
        return Outcome { code: FAILURE, next: Next::Proceed, wake: None };
    }
    table.mutex_alloc[mutex_id] = None;
    assert(table@ =~~= old(table)@.unlocked(mutex_id as int));
    let wake = release(table, mutex_id);
    Outcome { code: 0, next: Next::Proceed, wake }
}

/// Creates a semaphore of `res_count` units in the lowest empty slot and
/// returns the slot's index. All units are available; no thread holds or asks
/// for any.
///
/// Fails, changing nothing, only where the index would not fit the result or
/// the count would not fit a counter.
pub fn sys_semaphore_create(table: &mut SyncTable, res_count: usize) -> (id: isize)
    requires
        old(table).wf(),
    ensures
        final(table).wf(),
        first_free(old(table)@.semaphores) <= isize::MAX && res_count <= i64::MAX ==> id
            == first_free(old(table)@.semaphores) && final(table)@ == old(table)@.with_semaphore(
            id as int,
            res_count,
        ),
        first_free(old(table)@.semaphores) > isize::MAX || res_count > i64::MAX ==> id == FAILURE
            && final(table)@ == old(table)@,
{
    let k: usize = lowest_free(&table.semaphore_list);
    if k > isize::MAX as usize || res_count as u64 > i64::MAX as u64 {
        return FAILURE;
    }
    let ghost width = table.semaphore_list.len() as nat;
    proof {
        lemma_grid_width(table.sem_alloc@, width);
        lemma_grid_width(table.sem_need@, width);
    }
    if k < table.semaphore_list.len() {
        clear_column(&mut table.sem_alloc, k, Ghost(width));
        clear_column(&mut table.sem_need, k, Ghost(width));
    } else {
        widen(&mut table.sem_alloc, Ghost(width));
        widen(&mut table.sem_need, Ghost(width));
    }
    put_item(&mut table.sem_avail, k, res_count as i64);
    put_queue(&mut table.sem_waiting, k);
    put_item(&mut table.semaphore_list, k, Some(res_count));
    proof {
        lemma_grid_width(table.sem_alloc@, table.semaphore_list.len() as nat);
        lemma_grid_width(table.sem_need@, table.semaphore_list.len() as nat);
        assert(table@ =~~= old(table)@.with_semaphore(k as int, res_count));
        lemma_semaphore_conserves(old(table)@, res_count);
    }
    k as isize
}

/// Thread `tid` increments semaphore `sem_id`: one unit is booked back from
/// the thread, and the thread that has waited longest for a unit, if any
/// waits, is woken.
///
/// A slot that holds no semaphore, an unknown thread, or a counter at the end
/// of its range fails and changes nothing.
pub fn sys_semaphore_up(table: &mut SyncTable, tid: usize, sem_id: usize) -> (out: Outcome)
    requires
        old(table).wf(),
    ensures
        final(table).wf(),
        out == old(table)@.up_outcome(tid, sem_id as int),
        final(table)@ == old(table)@.after_up(tid, sem_id as int),
{
    if sem_id >= table.semaphore_list.len() || table.semaphore_list[sem_id].is_none() {
        return Outcome { code: FAILURE, next: Next::Proceed, wake: None };
    }
    if tid >= table.sem_alloc.len() {
        return Outcome { code: FAILURE, next: Next::Proceed, wake: None };
    }
    let ghost width = table.semaphore_list.len() as nat;
    proof {
        lemma_grid_width(table.sem_alloc@, width);
        lemma_grid_width(table.sem_need@, width);
        assert(table.sem_alloc[tid as int].len() == width);
        assert(grid(table.sem_alloc@)[tid as int][sem_id as int] == table.sem_alloc[tid as int][sem_id as int]);
        assert(ints(table.sem_avail@)[sem_id as int] == table.sem_avail[sem_id as int]);
    }
    if table.sem_alloc[tid][sem_id] == i64::MIN || table.sem_avail[sem_id] == i64::MAX {
        return Outcome { code: FAILURE, next: Next::Proceed, wake: None };
    }
    let units: i64 = table.sem_avail[sem_id] + 1;
    table.sem_avail[sem_id] = units;
    bump(&mut table.sem_alloc, tid, sem_id, -1);
    let wake: Option<usize> = dequeue(&mut table.sem_waiting, sem_id);
    proof {
        lemma_grid_width(table.sem_alloc@, width);
        assert(table@ =~~= old(table)@.after_up(tid, sem_id as int));
        lemma_give_back_conserves(old(table)@, tid as int, sem_id as int);
    }
    Outcome { code: 0, next: Next::Proceed, wake }
}

/// Thread `tid` decrements semaphore `sem_id`: one unit is booked to the
/// thread, which is suspended where the unit was not there.
///
/// The request is recorded first. With detection on, the detector then judges
/// the state with the request in it, and an unsafe state is refused with
/// [`DEADLOCK`]. A slot that holds no semaphore, an unknown thread, or a counter
/// at the end of its range fails. A call that fails or is refused changes
/// nothing and touches no semaphore.
pub fn sys_semaphore_down(table: &mut SyncTable, tid: usize, sem_id: usize) -> (out: Outcome)
    requires
        old(table).wf(),
    ensures
        final(table).wf(),
        out == old(table)@.down_outcome(tid, sem_id as int),
        final(table)@ == old(table)@.after_down(tid, sem_id as int),
{
    if sem_id >= table.semaphore_list.len() || table.semaphore_list[sem_id].is_none() {
        return Outcome { code: FAILURE, next: Next::Proceed, wake: None };
    }
    if tid >= table.sem_alloc.len() {
        return Outcome { code: FAILURE, next: Next::Proceed, wake: None };
    }
    let ghost width = table.semaphore_list.len() as nat;
    proof {
        lemma_grid_width(table.sem_alloc@, width);
        lemma_grid_width(table.sem_need@, width);
        assert(table.sem_alloc[tid as int].len() == width);
        assert(table.sem_need[tid as int].len() == width);
        assert(grid(table.sem_alloc@)[tid as int][sem_id as int] == table.sem_alloc[tid as int][sem_id as int]);
        assert(grid(table.sem_need@)[tid as int][sem_id as int] == table.sem_need[tid as int][sem_id as int]);
        assert(ints(table.sem_avail@)[sem_id as int] == table.sem_avail[sem_id as int]);
    }
    if table.sem_need[tid][sem_id] == i64::MAX || table.sem_alloc[tid][sem_id] == i64::MAX
        || table.sem_avail[sem_id] == i64::MIN {
        return Outcome { code: FAILURE, next: Next::Proceed, wake: None };
    }
    bump(&mut table.sem_need, tid, sem_id, 1);
    assert(table@ =~~= old(table)@.asking(tid as int, sem_id as int));
    if table.deadlock_detect && !is_safe(&table.sem_avail, &table.sem_alloc, &table.sem_need) {
        bump(&mut table.sem_need, tid, sem_id, -1);
        proof {
            lemma_grid_width(table.sem_need@, width);
            assert(table@ =~~= old(table)@);
        }
        return Outcome { code: DEADLOCK, next: Next::Proceed, wake: None };
    }
    let units: i64 = table.sem_avail[sem_id] - 1;
    table.sem_avail[sem_id] = units;
    bump(&mut table.sem_alloc, tid, sem_id, 1);
    bump(&mut table.sem_need, tid, sem_id, -1);
    let next = if units < 0 {
        enqueue(&mut table.sem_waiting, sem_id, tid);
        Next::Block
    } else {
        Next::Proceed
    };
    proof {
        lemma_grid_width(table.sem_alloc@, width);
        lemma_grid_width(table.sem_need@, width);
        assert(table@ =~~= old(table)@.after_down(tid, sem_id as int));
        lemma_grant_conserves(old(table)@, tid as int, sem_id as int);
    }
    Outcome { code: 0, next, wake: None }
}

/// Creates a condition variable in the lowest empty slot and returns the
/// slot's index. Nobody waits on it.
///
/// Fails, changing nothing, only where the index would not fit the result.
pub fn sys_condvar_create(table: &mut SyncTable) -> (id: isize)
    requires
        old(table).wf(),
    ensures
        final(table).wf(),
        first_free(old(table)@.condvars) <= isize::MAX ==> id == first_free(old(table)@.condvars)
            && final(table)@ == old(table)@.with_condvar(id as int),
        first_free(old(table)@.condvars) > isize::MAX ==> id == FAILURE && final(table)@ == old(table)@,
{
    let k: usize = lowest_free(&table.condvar_list);
    if k > isize::MAX as usize {
        return FAILURE;
    }
    put_queue(&mut table.condvar_waiting, k);
    put_item(&mut table.condvar_list, k, Some(()));
    assert(table@ =~~= old(table)@.with_condvar(k as int));
    k as isize
}

/// Signals condition variable `condvar_id`: the thread that has waited
/// longest, if any waits, is woken. With nobody waiting the signal is lost.
///
/// A slot that holds no condition variable fails and changes nothing.
pub fn sys_condvar_signal(table: &mut SyncTable, condvar_id: usize) -> (out: Outcome)
    requires
        old(table).wf(),
    ensures
        final(table).wf(),
        out == old(table)@.signal_outcome(condvar_id as int),
        final(table)@ == old(table)@.after_signal(condvar_id as int),
{
    if condvar_id >= table.condvar_list.len() || table.condvar_list[condvar_id].is_none() {
        return Outcome { code: FAILURE, next: Next::Proceed, wake: None };
    }
    let wake: Option<usize> = dequeue(&mut table.condvar_waiting, condvar_id);
    assert(table@ =~~= old(table)@.after_signal(condvar_id as int));
    Outcome { code: 0, next: Next::Proceed, wake }
}

/// Thread `tid` waits on condition variable `condvar_id` with mutex
/// `mutex_id`: in one step the mutex is released and the thread joins the
/// condition's queue, to be suspended. Once woken, the thread takes the mutex
/// back with [`relock_mutex`] before it runs on.
///
/// A slot that holds no condition variable, or no mutex, fails and changes
/// nothing.
pub fn sys_condvar_wait(table: &mut SyncTable, tid: usize, condvar_id: usize, mutex_id: usize) -> (out:
    Outcome)
    requires
        old(table).wf(),
    ensures
        final(table).wf(),
        out == old(table)@.wait_outcome(condvar_id as int, mutex_id as int),
        final(table)@ == old(table)@.after_wait(tid, condvar_id as int, mutex_id as int),
{
    if condvar_id >= table.condvar_list.len() || table.condvar_list[condvar_id].is_none() {
        return Outcome { code: FAILURE, next: Next::Proceed, wake: None };
    }
    if mutex_id >= table.mutex_list.len() || table.mutex_list[mutex_id].is_none() {
        return Outcome { code: FAILURE, next: Next::Proceed, wake: None };
    }
    let wake = release(table, mutex_id);
    enqueue(&mut table.condvar_waiting, condvar_id, tid);
    assert(table@ =~~= old(table)@.after_wait(tid, condvar_id as int, mutex_id as int));
    Outcome { code: 0, next: Next::Block, wake }
}

/// Turns the deadlock detector off (`0`) or on (`1`). Any other value fails
/// and changes nothing.
pub fn sys_enable_deadlock_detect(table: &mut SyncTable, enabled: usize) -> (code: isize)
    requires
        old(table).wf(),
    ensures
        final(table).wf(),
        enabled <= 1 ==> code == 0 && final(table)@ == (TableView {
            detect: enabled == 1,
            ..old(table)@
        }),
        enabled > 1 ==> code == FAILURE && final(table)@ == old(table)@,
{
    match enabled {
        0 => {
            table.deadlock_detect = false;
            0
        },
        1 => {
            table.deadlock_detect = true;
            0
        },
        _ => FAILURE,
    }
}

/// The index that [`first_free_from`] gives is an empty slot, or the end, and
/// every slot between `from` and it is taken.
pub proof fn lemma_first_free_is_lowest<T>(slots: Seq<Option<T>>, from: int)
    requires
        0 <= from <= slots.len(),
    ensures
        from <= first_free_from(slots, from) <= slots.len(),
        first_free_from(slots, from) < slots.len() ==> slots[first_free_from(slots, from)] is None,
        forall|j: int| from <= j < first_free_from(slots, from) ==> (#[trigger] slots[j]) is Some,
    decreases slots.len() - from,
{
    if from < slots.len() && slots[from] is Some {
        lemma_first_free_is_lowest(slots, from + 1);
    }
}

/// An empty slot, or the end, below which every slot from `from` on is taken
/// is the index that [`first_free_from`] gives.
pub proof fn lemma_lowest_is_first_free<T>(slots: Seq<Option<T>>, from: int, k: int)
    requires
        0 <= from <= k <= slots.len(),
        k < slots.len() ==> slots[k] is None,
        forall|j: int| from <= j < k ==> (#[trigger] slots[j]) is Some,
    ensures
        first_free_from(slots, from) == k,
    decreases slots.len() - from,
{
    if from < k {
        assert(slots[from] is Some);
        lemma_lowest_is_first_free(slots, from + 1, k);
    }
}

/// Lowest-free-slot reuse: put a resource into the slot that creation picks,
/// empty that slot again, and the next creation picks the same slot.
pub proof fn lemma_freed_slot_is_reused<T>(slots: Seq<Option<T>>, item: T)
    ensures
        first_free(placed(slots, first_free(slots), item).update(first_free(slots), None))
            == first_free(slots),
{
    let k = first_free(slots);
    lemma_first_free_is_lowest(slots, 0);
    let after = placed(slots, k, item).update(k, None);
    assert forall|j: int| 0 <= j < k implies (#[trigger] after[j]) is Some by {
        assert(slots[j] is Some);
    }
    lemma_lowest_is_first_free(after, 0, k);
}

/// Creating a mutex, freeing its slot and creating another gives the second
/// mutex the identifier of the first.
pub proof fn lemma_mutex_slot_is_reused(table: TableView, first: MutexKind)
    ensures
        first_free(
            table.with_mutex(first_free(table.mutexes), first).without_mutex(
                first_free(table.mutexes),
            ).mutexes,
        ) == first_free(table.mutexes),
{
    lemma_freed_slot_is_reused(table.mutexes, first);
}

/// Creating a semaphore, freeing its slot and creating another gives the
/// second semaphore the identifier of the first.
pub proof fn lemma_semaphore_slot_is_reused(table: TableView, first: usize)
    ensures
        first_free(
            table.with_semaphore(first_free(table.semaphores), first).without_semaphore(
                first_free(table.semaphores),
            ).semaphores,
        ) == first_free(table.semaphores),
{
    lemma_freed_slot_is_reused(table.semaphores, first);
    lemma_first_free_is_lowest(table.semaphores, 0);
    let k = first_free(table.semaphores);
    assert(table.with_semaphore(k, first).semaphores =~= placed(table.semaphores, k, first));
}

/// Creating a condition variable, freeing its slot and creating another
/// gives the second the identifier of the first.
pub proof fn lemma_condvar_slot_is_reused(table: TableView)
    ensures
        first_free(
            table.with_condvar(first_free(table.condvars)).without_condvar(
                first_free(table.condvars),
            ).condvars,
        ) == first_free(table.condvars),
{
    lemma_freed_slot_is_reused(table.condvars, ());
}


/// The units of resource `r` booked to all threads together.
pub open spec fn column_sum(m: Seq<Seq<int>>, r: int) -> int
    decreases m.len(),
{
    if m.len() == 0 {
        0
    } else {
        column_sum(m.drop_last(), r) + m.last()[r]
    }
}

impl TableView {
    /// No unit of any semaphore is lost or made up: what is available and what
    /// the threads hold add up to the count that the semaphore was created
    /// with.
    pub open spec fn conserved(self) -> bool {
        forall|id: int|
            #![trigger self.semaphores[id]]
            self.has_semaphore(id) ==> self.available[id] + column_sum(self.alloc, id)
                == self.semaphores[id].unwrap()
    }
}

/// Raising one entry by `delta` raises its column's sum by `delta` and leaves
/// the other columns' sums alone.
pub proof fn lemma_column_sum_bumped(m: Seq<Seq<int>>, t: int, r: int, delta: int, c: int)
    requires
        0 <= t < m.len(),
        0 <= r < m[t].len(),
        0 <= c < m[t].len(),
    ensures
        column_sum(bumped(m, t, r, delta), c) == column_sum(m, c) + if c == r {
            delta
        } else {
            0
        },
    decreases m.len(),
{
    let after = bumped(m, t, r, delta);
    if t == m.len() - 1 {
        assert(after.drop_last() =~= m.drop_last());
    } else {
        assert(after.drop_last() =~= bumped(m.drop_last(), t, r, delta));
        lemma_column_sum_bumped(m.drop_last(), t, r, delta, c);
    }
}

/// A row of zeros adds nothing to any column's sum.
pub proof fn lemma_column_sum_zero_row(m: Seq<Seq<int>>, width: nat, c: int)
    requires
        0 <= c < width,
    ensures
        column_sum(m.push(zeros(width)), c) == column_sum(m, c),
{
    assert(m.push(zeros(width)).drop_last() =~= m);
}

/// A new column of zeros sums to zero and leaves the other columns' sums
/// alone.
pub proof fn lemma_column_sum_widened(m: Seq<Seq<int>>, width: nat, c: int)
    requires
        forall|t: int| 0 <= t < m.len() ==> (#[trigger] m[t]).len() == width,
        0 <= c <= width,
    ensures
        column_sum(widened(m), c) == if c == width {
            0
        } else {
            column_sum(m, c)
        },
    decreases m.len(),
{
    if m.len() > 0 {
        assert(widened(m).drop_last() =~= widened(m.drop_last()));
        lemma_column_sum_widened(m.drop_last(), width, c);
    }
}

/// A cleared column sums to zero; clearing it leaves the other columns' sums
/// alone.
pub proof fn lemma_column_sum_cleared(m: Seq<Seq<int>>, width: nat, k: int, c: int)
    requires
        forall|t: int| 0 <= t < m.len() ==> (#[trigger] m[t]).len() == width,
        0 <= k < width,
        0 <= c < width,
    ensures
        column_sum(column_cleared(m, k), c) == if c == k {
            0
        } else {
            column_sum(m, c)
        },
    decreases m.len(),
{
    if m.len() > 0 {
        assert(column_cleared(m, k).drop_last() =~= column_cleared(m.drop_last(), k));
        lemma_column_sum_cleared(m.drop_last(), width, k, c);
    }
}

/// A fresh table loses no units: it has none.
pub proof fn lemma_empty_conserved()
    ensures
        TableView::empty().wf(),
        TableView::empty().conserved(),
{
}

/// A new thread holds nothing, so no unit is lost or made up.
pub proof fn lemma_thread_conserves(table: TableView)
    requires
        table.aligned(),
        table.conserved(),
    ensures
        table.with_thread().conserved(),
{
    let after = table.with_thread();
    assert forall|id: int| #![trigger after.semaphores[id]] after.has_semaphore(id) implies after.available[id]
        + column_sum(after.alloc, id) == after.semaphores[id].unwrap() by {
        assert(table.has_semaphore(id));
        lemma_column_sum_zero_row(table.alloc, table.semaphores.len(), id);
    }
}

/// A new semaphore starts with all its units available and none held, and the
/// other semaphores keep theirs.
pub proof fn lemma_semaphore_conserves(table: TableView, count: usize)
    requires
        table.aligned(),
        table.conserved(),
    ensures
        table.with_semaphore(first_free(table.semaphores), count).conserved(),
{
    let k = first_free(table.semaphores);
    let width = table.semaphores.len();
    lemma_first_free_is_lowest(table.semaphores, 0);
    let after = table.with_semaphore(k, count);
    assert forall|id: int| #![trigger after.semaphores[id]] after.has_semaphore(id) implies after.available[id]
        + column_sum(after.alloc, id) == after.semaphores[id].unwrap() by {
        if k < width {
            lemma_column_sum_cleared(table.alloc, width, k, id);
            if id != k {
                assert(table.has_semaphore(id));
            }
        } else {
            lemma_column_sum_widened(table.alloc, width, id);
            if id != k {
                assert(table.has_semaphore(id));
            }
        }
    }
}

/// Emptying a semaphore's slot leaves the other semaphores' units alone.
pub proof fn lemma_free_conserves(table: TableView, id: int)
    requires
        table.aligned(),
        table.conserved(),
        table.has_semaphore(id),
    ensures
        table.without_semaphore(id).conserved(),
{
    let after = table.without_semaphore(id);
    assert forall|other: int| #![trigger after.semaphores[other]] after.has_semaphore(other) implies after.available[other]
        + column_sum(after.alloc, other) == after.semaphores[other].unwrap() by {
        assert(table.has_semaphore(other));
    }
}

/// Booking a unit to a thread moves it from the available ones to the
/// thread's: no unit is lost or made up.
pub proof fn lemma_grant_conserves(table: TableView, tid: int, id: int)
    requires
        table.aligned(),
        table.conserved(),
        table.has_thread(tid),
        table.has_semaphore(id),
    ensures
        table.granted(tid, id).conserved(),
{
    let after = table.granted(tid, id);
    assert forall|other: int| #![trigger after.semaphores[other]] after.has_semaphore(other) implies after.available[other]
        + column_sum(after.alloc, other) == after.semaphores[other].unwrap() by {
        assert(table.has_semaphore(other));
        assert(table.alloc[tid].len() == table.semaphores.len());
        lemma_column_sum_bumped(table.alloc, tid, id, 1, other);
    }
}

/// Booking a unit back from a thread moves it from the thread's to the
/// available ones: no unit is lost or made up.
pub proof fn lemma_give_back_conserves(table: TableView, tid: int, id: int)
    requires
        table.aligned(),
        table.conserved(),
        table.has_thread(tid),
        table.has_semaphore(id),
    ensures
        table.given_back(tid, id).conserved(),
{
    let after = table.given_back(tid, id);
    assert forall|other: int| #![trigger after.semaphores[other]] after.has_semaphore(other) implies after.available[other]
        + column_sum(after.alloc, other) == after.semaphores[other].unwrap() by {
        assert(table.has_semaphore(other));
        assert(table.alloc[tid].len() == table.semaphores.len());
        lemma_column_sum_bumped(table.alloc, tid, id, -1, other);
    }
}


/// Where nobody waits, a unit that is there is never refused: with no thread
/// asking for anything, no thread holding a negative number of units and no
/// semaphore owing any, a decrement of a semaphore that has a unit available
/// passes the detector, however many threads there are.
pub proof fn lemma_free_unit_is_granted(table: TableView, tid: int, id: int)
    requires
        table.wf(),
        table.has_thread(tid),
        table.has_semaphore(id),
        table.available[id] >= 1,
        forall|r: int| 0 <= r < table.available.len() ==> table.available[r] >= 0,
        forall|t: int, r: int|
            0 <= t < table.alloc.len() && 0 <= r < table.semaphores.len()
                ==> #[trigger] table.alloc[t][r] >= 0,
        forall|t: int, r: int|
            0 <= t < table.need.len() && 0 <= r < table.semaphores.len()
                ==> #[trigger] table.need[t][r] == 0,
    ensures
        !table.down_refused(tid, id),
{
    let asked = table.asking(tid, id);
    assert forall|t: int| 0 <= t < asked.need.len() implies fits(
        #[trigger] asked.need[t],
        asked.available,
    ) by {
        assert forall|r: int| 0 <= r < asked.available.len() implies #[trigger] asked.need[t][r]
            <= asked.available[r] by {
            assert(table.need[t].len() == table.semaphores.len());
            assert(table.need[t][r] == 0);
        }
    }
    lemma_no_waiting_is_safe(asked.available, asked.alloc, asked.need);
}


/// A call that does not return zero changes nothing: no queue, no counter
/// and no owner entry is touched by a call that fails or is refused.
pub proof fn lemma_no_change_unless_admitted(
    table: TableView,
    tid: usize,
    mutex_id: int,
    sem_id: int,
    condvar_id: int,
)
    ensures
        table.lock_outcome(tid, mutex_id).code != 0 ==> table.after_lock(tid, mutex_id) == table,
        table.unlock_outcome(mutex_id).code != 0 ==> table.after_unlock(mutex_id) == table,
        table.down_outcome(tid, sem_id).code != 0 ==> table.after_down(tid, sem_id) == table,
        table.up_outcome(tid, sem_id).code != 0 ==> table.after_up(tid, sem_id) == table,
        table.signal_outcome(condvar_id).code != 0 ==> table.after_signal(condvar_id) == table,
        table.wait_outcome(condvar_id, mutex_id).code != 0 ==> table.after_wait(
            tid,
            condvar_id,
            mutex_id,
        ) == table,
{
}

/// With detection off nothing is ever refused.
pub proof fn lemma_no_refusal_without_detection(table: TableView, tid: usize, mutex_id: int, sem_id: int)
    requires
        !table.detect,
    ensures
        table.lock_outcome(tid, mutex_id).code != DEADLOCK,
        table.down_outcome(tid, sem_id).code != DEADLOCK,
{
}

} // verus!
