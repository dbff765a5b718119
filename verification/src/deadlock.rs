//! The deadlock detector: a work-vector simulation over the allocation
//! bookkeeping, cut short by a cap on the number of scan rounds.
//!
//! The detector is given how many units of each resource are available, how
//! many each thread holds and how many each thread still asks for. It lets
//! threads run to completion one at a time, in its imagination, each handing
//! back what it holds. A state is judged safe when every thread gets to finish.
//!
//! The cap makes the detector cautious on purpose: from the fourth round on, a
//! thread that an earlier round found stuck is not looked at again, and the
//! state is refused, even where the units released in the meantime would by now
//! let that thread run. With few threads this never matters; with many it turns
//! some safe states away.
//!
//! A scan takes at most four rounds per thread and four more. The simulation
//! carries that number as a budget; [`lemma_budget_is_enough`] shows that the
//! budget never runs out before the scan has come to its end.

use vstd::prelude::*;

verus! {

/// Rounds after which a thread seen stuck before is given up on.
pub const ROUND_CAP: usize = 3;

/// A row or vector of counters as mathematical integers.
pub open spec fn ints(v: Seq<i64>) -> Seq<int> {
    v.map_values(|x: i64| x as int)
}

/// A matrix of counters, one row per thread, as mathematical integers.
pub open spec fn grid(m: Seq<Vec<i64>>) -> Seq<Seq<int>> {
    m.map_values(|row: Vec<i64>| ints(row@))
}

/// The work vector as mathematical integers.
pub open spec fn wide(v: Seq<i128>) -> Seq<int> {
    v.map_values(|x: i128| x as int)
}

/// Every row of `m` has `width` entries.
pub open spec fn has_width(m: Seq<Vec<i64>>, width: nat) -> bool {
    forall|t: int| 0 <= t < m.len() ==> (#[trigger] m[t]).len() == width
}

/// A thread asking for `need_row` can run to completion with `work` at hand:
/// no resource is asked for beyond what is there.
pub open spec fn fits(need_row: Seq<int>, work: Seq<int>) -> bool {
    forall|r: int| 0 <= r < work.len() ==> #[trigger] need_row[r] <= work[r]
}

/// The work vector after a thread holding `alloc_row` has finished and handed
/// everything back.
pub open spec fn released(work: Seq<int>, alloc_row: Seq<int>) -> Seq<int> {
    Seq::new(work.len(), |r: int| work[r] + alloc_row[r])
}

/// The detector's state between two rounds.
pub struct Scan {
    /// Units of each resource that the simulation has at hand.
    pub work: Seq<int>,
    /// The threads that have run to completion.
    pub finish: Seq<bool>,
    /// The threads that some round has found unable to run.
    pub seen: Seq<bool>,
    /// Rounds completed so far.
    pub round: nat,
}

impl Scan {
    /// The state before the first round: nothing finished, nothing seen.
    pub open spec fn start(available: Seq<int>, threads: nat) -> Scan {
        Scan {
            work: available,
            finish: Seq::new(threads, |t: int| false),
            seen: Seq::new(threads, |t: int| false),
            round: 0,
        }
    }

    /// The round gives up on thread `t`: it is unfinished, the cap is reached,
    /// and an earlier round has already found it stuck.
    pub open spec fn gives_up_at(self, t: int) -> bool {
        !self.finish[t] && self.round >= ROUND_CAP && self.seen[t]
    }

    /// Thread `t` is unfinished and can run with the work at hand.
    pub open spec fn runs_at(self, need: Seq<Seq<int>>, t: int) -> bool {
        !self.finish[t] && fits(need[t], self.work)
    }

    /// The round's scan, which goes through the threads in order, stops at `t`.
    pub open spec fn halts_at(self, need: Seq<Seq<int>>, t: int) -> bool {
        self.gives_up_at(t) || self.runs_at(need, t)
    }

    /// The first thread from `from` on at which the scan stops, or the number
    /// of threads when it stops at none.
    pub open spec fn halt_from(self, need: Seq<Seq<int>>, from: int) -> int
        decreases self.finish.len() - from,
    {
        if from < 0 || from >= self.finish.len() {
            self.finish.len() as int
        } else if self.halts_at(need, from) {
            from
        } else {
            self.halt_from(need, from + 1)
        }
    }

    /// The round ends in a refusal.
    pub open spec fn refused(self, need: Seq<Seq<int>>) -> bool {
        let t = self.halt_from(need, 0);
        t < self.finish.len() && self.gives_up_at(t)
    }

    /// The seen marks after the scan has passed over the threads below `upto`:
    /// every unfinished one among them is marked.
    pub open spec fn marked(self, upto: int) -> Seq<bool> {
        Seq::new(self.finish.len(), |u: int| self.seen[u] || (u < upto && !self.finish[u]))
    }

    /// The state after a round that did not end in a refusal. Where the scan
    /// stopped at a thread, that thread finishes and hands back what it holds.
    pub open spec fn next(self, alloc: Seq<Seq<int>>, need: Seq<Seq<int>>) -> Scan {
        let t = self.halt_from(need, 0);
        if t < self.finish.len() {
            Scan {
                work: released(self.work, alloc[t]),
                finish: self.finish.update(t, true),
                seen: self.marked(t),
                round: self.round + 1,
            }
        } else {
            Scan { work: self.work, finish: self.finish, seen: self.marked(t), round: self.round + 1 }
        }
    }

    /// Every thread has finished.
    pub open spec fn done(self) -> bool {
        forall|t: int| 0 <= t < self.finish.len() ==> self.finish[t]
    }
}

/// What the detector finds from `scan` on, with `budget` further rounds
/// allowed after the next one: `true` when every thread gets to finish.
pub open spec fn settles(scan: Scan, alloc: Seq<Seq<int>>, need: Seq<Seq<int>>, budget: nat) -> bool
    decreases budget,
{
    if scan.refused(need) {
        false
    } else {
        let after = scan.next(alloc, need);
        if after.done() {
            true
        } else if budget == 0 {
            false
        } else {
            settles(after, alloc, need, (budget - 1) as nat)
        }
    }
}

/// What the detector finds of a state: `true` when it is judged safe.
pub open spec fn safe_state(available: Seq<int>, alloc: Seq<Seq<int>>, need: Seq<Seq<int>>) -> bool {
    settles(Scan::start(available, alloc.len()), alloc, need, 4 * alloc.len() + 4)
}

/// How many threads have finished.
pub open spec fn count_done(finish: Seq<bool>) -> nat
    decreases finish.len(),
{
    if finish.len() == 0 {
        0
    } else {
        count_done(finish.drop_last()) + if finish.last() { 1nat } else { 0nat }
    }
}

/// Finishing one more thread raises the count by one, and the count stays
/// below the number of threads while one is unfinished.
pub proof fn lemma_count_done_step(finish: Seq<bool>, t: int)
    requires
        0 <= t < finish.len(),
        !finish[t],
    ensures
        count_done(finish) < finish.len(),
        count_done(finish.update(t, true)) == count_done(finish) + 1,
    decreases finish.len(),
{
    let init = finish.drop_last();
    let last = finish.len() - 1;
    lemma_count_done_bound(init);
    if t == last {
        assert(finish.update(t, true).drop_last() =~= init);
    } else {
        lemma_count_done_step(init, t);
        assert(finish.update(t, true).drop_last() =~= init.update(t, true));
    }
}

/// No more threads have finished than there are.
pub proof fn lemma_count_done_bound(finish: Seq<bool>)
    ensures
        count_done(finish) <= finish.len(),
    decreases finish.len(),
{
    if finish.len() > 0 {
        lemma_count_done_bound(finish.drop_last());
    }
}

impl Scan {
    /// Some unfinished thread has not been seen stuck yet.
    pub open spec fn has_unseen(self) -> bool {
        exists|t: int| 0 <= t < self.finish.len() && !#[trigger] self.finish[t] && !self.seen[t]
    }

    /// A bound on the rounds that can still follow: each finishes a thread,
    /// or brings the cap nearer, or marks the last unseen thread.
    pub open spec fn rounds_left(self) -> nat {
        (4 * (self.finish.len() - count_done(self.finish)) + (if self.round < ROUND_CAP {
            ROUND_CAP - self.round
        } else {
            0
        }) + (if self.has_unseen() {
            1int
        } else {
            0int
        })) as nat
    }
}

/// The scan stops at the index that [`Scan::halt_from`] gives, if that is a
/// thread, and at none from `from` up to it.
pub proof fn lemma_halt_from(scan: Scan, need: Seq<Seq<int>>, from: int)
    requires
        0 <= from <= scan.finish.len(),
    ensures
        from <= scan.halt_from(need, from) <= scan.finish.len(),
        scan.halt_from(need, from) < scan.finish.len() ==> scan.halts_at(
            need,
            scan.halt_from(need, from),
        ),
        forall|u: int| from <= u < scan.halt_from(need, from) ==> !scan.halts_at(need, u),
    decreases scan.finish.len() - from,
{
    if from < scan.finish.len() && !scan.halts_at(need, from) {
        lemma_halt_from(scan, need, from + 1);
    }
}

/// A round that neither refuses nor ends the scan brings the end nearer.
pub proof fn lemma_round_brings_end_nearer(scan: Scan, alloc: Seq<Seq<int>>, need: Seq<Seq<int>>)
    requires
        scan.seen.len() == scan.finish.len(),
        !scan.refused(need),
        !scan.next(alloc, need).done(),
    ensures
        scan.next(alloc, need).seen.len() == scan.next(alloc, need).finish.len(),
        scan.next(alloc, need).rounds_left() < scan.rounds_left(),
{
    let t = scan.halt_from(need, 0);
    let after = scan.next(alloc, need);
    lemma_halt_from(scan, need, 0);
    lemma_count_done_bound(scan.finish);
    lemma_count_done_bound(after.finish);
    if t < scan.finish.len() {
        lemma_count_done_step(scan.finish, t);
    } else {
        let u = choose|u: int| 0 <= u < after.finish.len() && !after.finish[u];
        assert(!scan.halts_at(need, u));
        if after.has_unseen() {
            let w = choose|w: int|
                0 <= w < after.finish.len() && !#[trigger] after.finish[w] && !after.seen[w];
            assert(after.seen[w]);
        }
        if scan.round >= ROUND_CAP {
            assert(!scan.finish[u] && !scan.seen[u]);
        }
    }
}

/// Once the budget covers the rounds that can still follow, a larger budget
/// changes nothing: no scan ends early for want of rounds.
pub proof fn lemma_budget_is_enough(
    scan: Scan,
    alloc: Seq<Seq<int>>,
    need: Seq<Seq<int>>,
    budget: nat,
    more: nat,
)
    requires
        scan.seen.len() == scan.finish.len(),
        scan.rounds_left() <= budget <= more,
    ensures
        settles(scan, alloc, need, budget) == settles(scan, alloc, need, more),
    decreases budget,
{
    if !scan.refused(need) && !scan.next(alloc, need).done() {
        lemma_round_brings_end_nearer(scan, alloc, need);
        lemma_budget_is_enough(
            scan.next(alloc, need),
            alloc,
            need,
            (budget - 1) as nat,
            (more - 1) as nat,
        );
    }
}

/// The budget that [`safe_state`] starts with covers every round that can
/// follow, so what it finds is what the scan run to its end finds.
pub proof fn lemma_safe_state_runs_to_the_end(
    available: Seq<int>,
    alloc: Seq<Seq<int>>,
    need: Seq<Seq<int>>,
    more: nat,
)
    requires
        more >= 4 * alloc.len() + 4,
    ensures
        safe_state(available, alloc, need) == settles(
            Scan::start(available, alloc.len()),
            alloc,
            need,
            more,
        ),
{
    let scan = Scan::start(available, alloc.len());
    lemma_count_done_bound(scan.finish);
    lemma_budget_is_enough(scan, alloc, need, 4 * alloc.len() + 4, more);
}

/// The first thread at which the scan stops is the index that
/// [`Scan::halt_from`] gives.
pub proof fn lemma_first_halt(scan: Scan, need: Seq<Seq<int>>, from: int, t: int)
    requires
        0 <= from <= t <= scan.finish.len(),
        t < scan.finish.len() ==> scan.halts_at(need, t),
        forall|u: int| from <= u < t ==> !scan.halts_at(need, u),
    ensures
        scan.halt_from(need, from) == t,
    decreases t - from,
{
    if from < t {
        lemma_first_halt(scan, need, from + 1, t);
    }
}

/// With the first `k` threads finished, the others never seen stuck, and
/// every thread able to run with what is available, the scan finishes the
/// remaining threads one by one.
proof fn lemma_runnable_threads_finish(
    scan: Scan,
    available: Seq<int>,
    alloc: Seq<Seq<int>>,
    need: Seq<Seq<int>>,
    k: int,
    budget: nat,
)
    requires
        0 <= k < scan.finish.len(),
        scan.seen.len() == scan.finish.len(),
        alloc.len() == scan.finish.len(),
        need.len() == scan.finish.len(),
        scan.work.len() == available.len(),
        forall|t: int| 0 <= t < k ==> scan.finish[t],
        forall|t: int| k <= t < scan.finish.len() ==> !scan.finish[t] && !scan.seen[t],
        forall|r: int| 0 <= r < available.len() ==> scan.work[r] >= available[r],
        forall|t: int| 0 <= t < need.len() ==> fits(#[trigger] need[t], available),
        forall|t: int, r: int|
            0 <= t < alloc.len() && 0 <= r < available.len() ==> #[trigger] alloc[t][r] >= 0,
        budget >= scan.finish.len() - k - 1,
    ensures
        settles(scan, alloc, need, budget),
    decreases scan.finish.len() - k,
{
    assert(fits(need[k], scan.work)) by {
        assert(fits(need[k], available));
        assert forall|r: int| 0 <= r < scan.work.len() implies #[trigger] need[k][r]
            <= scan.work[r] by {
            assert(need[k][r] <= available[r]);
        }
    }
    assert(scan.halts_at(need, k));
    lemma_first_halt(scan, need, 0, k);
    let after = scan.next(alloc, need);
    assert(!scan.refused(need));
    if k + 1 == scan.finish.len() {
        assert(after.done());
    } else {
        assert(!after.finish[k + 1]);
        assert forall|r: int| 0 <= r < available.len() implies after.work[r] >= available[r] by {
            assert(alloc[k][r] >= 0);
        }
        lemma_runnable_threads_finish(after, available, alloc, need, k + 1, (budget - 1) as nat);
    }
}

/// The cap never bites where nobody has to wait: a state in which every
/// thread can run with what is available, and no thread holds a negative
/// number of units, is judged safe, however many threads there are.
pub proof fn lemma_no_waiting_is_safe(
    available: Seq<int>,
    alloc: Seq<Seq<int>>,
    need: Seq<Seq<int>>,
)
    requires
        need.len() == alloc.len(),
        forall|t: int| 0 <= t < need.len() ==> fits(#[trigger] need[t], available),
        forall|t: int, r: int|
            0 <= t < alloc.len() && 0 <= r < available.len() ==> #[trigger] alloc[t][r] >= 0,
    ensures
        safe_state(available, alloc, need),
{
    let scan = Scan::start(available, alloc.len());
    if alloc.len() == 0 {
        assert(scan.next(alloc, need).done());
    } else {
        lemma_runnable_threads_finish(scan, available, alloc, need, 0, 4 * alloc.len() + 4);
    }
}

/// Whether a thread asking for `need_row` can run with `work` at hand.
fn row_fits(need_row: &Vec<i64>, work: &Vec<i128>) -> (ok: bool)
    requires
        need_row.len() == work.len(),
    ensures
        ok == fits(ints(need_row@), wide(work@)),
{
    let mut r: usize = 0;
    while r < work.len()
        invariant
            0 <= r <= work.len(),
            need_row.len() == work.len(),
            forall|k: int| 0 <= k < r ==> need_row[k] <= work[k],
        decreases work.len() - r,
    {
        if (need_row[r] as i128) > work[r] {
            assert(ints(need_row@)[r as int] > wide(work@)[r as int]);
            return false;
        }
        r += 1;
    }
    assert forall|k: int| 0 <= k < wide(work@).len() implies #[trigger] ints(need_row@)[k] <= wide(
        work@,
    )[k] by {
        assert(need_row[k] <= work[k]);
    }
    true
}

/// Adds what a finished thread held to the work vector.
fn release_row(work: &mut Vec<i128>, alloc_row: &Vec<i64>)
    requires
        alloc_row.len() == old(work).len(),
        forall|r: int|
            #![trigger old(work)[r]]
            0 <= r < old(work).len() ==> i128::MIN <= old(work)[r] + alloc_row[r] <= i128::MAX,
    ensures
        final(work).len() == old(work).len(),
        wide(final(work)@) == released(wide(old(work)@), ints(alloc_row@)),
        forall|r: int|
            #![trigger final(work)[r]]
            0 <= r < old(work).len() ==> final(work)[r] == old(work)[r] + alloc_row[r],
{
    let ghost before = work@;
    let mut r: usize = 0;
    while r < work.len()
        invariant
            0 <= r <= work.len(),
            work.len() == before.len(),
            alloc_row.len() == before.len(),
            forall|k: int|
                #![trigger before[k]]
                0 <= k < before.len() ==> i128::MIN <= before[k] + alloc_row[k] <= i128::MAX,
            forall|k: int| #![trigger work[k]] 0 <= k < r ==> work[k] == before[k] + alloc_row[k],
            forall|k: int| #![trigger work[k]] r <= k < work.len() ==> work[k] == before[k],
        decreases work.len() - r,
    {
        assert(work[r as int] == before[r as int]);
        let sum: i128 = work[r] + alloc_row[r] as i128;
        work.set(r, sum);
        r += 1;
    }
    assert(wide(work@) =~= released(wide(before), ints(alloc_row@)));
}

/// Whether every thread has finished.
fn all_done(finish: &Vec<bool>) -> (done: bool)
    ensures
        done == (forall|t: int| 0 <= t < finish.len() ==> finish[t]),
{
    let mut t: usize = 0;
    while t < finish.len()
        invariant
            0 <= t <= finish.len(),
            forall|u: int| 0 <= u < t ==> finish[u],
        decreases finish.len() - t,
    {
        if !finish[t] {
            return false;
        }
        t += 1;
    }
    true
}

/// A vector of `n` cleared marks.
fn cleared(n: usize) -> (marks: Vec<bool>)
    ensures
        marks@ == Seq::new(n as nat, |t: int| false),
{
    let mut marks: Vec<bool> = Vec::new();
    let mut t: usize = 0;
    while t < n
        invariant
            0 <= t <= n,
            marks.len() == t,
            forall|u: int| 0 <= u < t ==> !marks[u],
        decreases n - t,
    {
        marks.push(false);
        t += 1;
    }
    assert(marks@ =~= Seq::new(n as nat, |t: int| false));
    marks
}

/// One round's scan: the thread at which it stops, with every unfinished
/// thread that it passed over marked as seen.
fn find_halt(
    finish: &Vec<bool>,
    seen: &mut Vec<bool>,
    need: &Vec<Vec<i64>>,
    work: &Vec<i128>,
    late: bool,
    Ghost(scan): Ghost<Scan>,
) -> (t: usize)
    requires
        need.len() == finish.len(),
        old(seen).len() == finish.len(),
        has_width(need@, work.len() as nat),
        scan.work == wide(work@),
        scan.finish == finish@,
        scan.seen == old(seen)@,
        late == (scan.round >= ROUND_CAP),
    ensures
        t == scan.halt_from(grid(need@), 0),
        t <= finish.len(),
        t < finish.len() ==> scan.halts_at(grid(need@), t as int),
        final(seen)@ == scan.marked(t as int),
{
    let mut t: usize = 0;
    assert(seen@ =~= scan.marked(0));
    while t < finish.len()
        invariant
            0 <= t <= finish.len(),
            need.len() == finish.len(),
            seen.len() == finish.len(),
            has_width(need@, work.len() as nat),
            scan.work == wide(work@),
            scan.finish == finish@,
            late == (scan.round >= ROUND_CAP),
            scan.halt_from(grid(need@), 0) == scan.halt_from(grid(need@), t as int),
            seen@ == scan.marked(t as int),
        decreases finish.len() - t,
    {
        assert(grid(need@)[t as int] == ints(need[t as int]@));
        assert(seen[t as int] == scan.seen[t as int]);
        if !finish[t] {
            if late && seen[t] {
                return t;
            }
            if row_fits(&need[t], work) {
                return t;
            }
            seen.set(t, true);
        }
        assert(!scan.halts_at(grid(need@), t as int));
        assert(seen@ =~= scan.marked(t + 1));
        t += 1;
    }
    t
}

/// Judges whether the state given by the three tables is safe: whether the
/// capped simulation lets every thread run to completion.
///
/// `available` holds one counter per resource; `alloc` and `need` hold one row
/// per thread, each with one counter per resource.
pub fn is_safe(available: &Vec<i64>, alloc: &Vec<Vec<i64>>, need: &Vec<Vec<i64>>) -> (safe: bool)
    requires
        need.len() == alloc.len(),
        has_width(alloc@, available.len() as nat),
        has_width(need@, available.len() as nat),
    ensures
        safe == safe_state(ints(available@), grid(alloc@), grid(need@)),
{
    let threads: usize = alloc.len();
    let mut work: Vec<i128> = Vec::new();
    let mut r: usize = 0;
    while r < available.len()
        invariant
            0 <= r <= available.len(),
            work.len() == r,
            forall|k: int| 0 <= k < r ==> work[k] == available[k],
        decreases available.len() - r,
    {
        work.push(available[r] as i128);
        r += 1;
    }
    let mut finish: Vec<bool> = cleared(threads);
    let mut seen: Vec<bool> = cleared(threads);
    let mut round: usize = 0;
    let mut budget: u128 = 4 * (threads as u128) + 4;
    let ghost mut scan = Scan::start(ints(available@), threads as nat);
    assert(wide(work@) =~= scan.work);
    assert(grid(alloc@).len() == threads);
    loop
        invariant
            threads == alloc.len(),
            need.len() == alloc.len(),
            has_width(alloc@, available.len() as nat),
            has_width(need@, available.len() as nat),
            work.len() == available.len(),
            finish.len() == threads,
            seen.len() == threads,
            wide(work@) == scan.work,
            finish@ == scan.finish,
            seen@ == scan.seen,
            round <= ROUND_CAP,
            round < ROUND_CAP ==> scan.round == round,
            round == ROUND_CAP ==> scan.round >= ROUND_CAP,
            settles(scan, grid(alloc@), grid(need@), budget as nat) == safe_state(
                ints(available@),
                grid(alloc@),
                grid(need@),
            ),
            forall|k: int|
                #![trigger work[k]]
                0 <= k < work.len() ==> -0x8000_0000_0000_0000 * (1 + count_done(finish@)) <= work[k]
                    <= 0x7fff_ffff_ffff_ffff * (1 + count_done(finish@)),
        decreases budget,
    {
        let t: usize = find_halt(&finish, &mut seen, need, &work, round >= ROUND_CAP, Ghost(scan));
        if t < threads {
            assert(seen[t as int] == scan.seen[t as int]);
            if round >= ROUND_CAP && seen[t] {
                return false;
            }
            proof {
                lemma_count_done_step(finish@, t as int);
                assert(grid(alloc@)[t as int] == ints(alloc[t as int]@));
            }
            release_row(&mut work, &alloc[t]);
            finish.set(t, true);
        }
        proof {
            scan = scan.next(grid(alloc@), grid(need@));
        }
        if all_done(&finish) {
            return true;
        }
        if budget == 0 {
            return false;
        }
        budget -= 1;
        if round < ROUND_CAP {
            round += 1;
        }
    }
}

} // verus!
