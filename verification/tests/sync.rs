use process_core::syscall::sync::{
    sys_condvar_create, sys_condvar_signal, sys_condvar_wait, sys_enable_deadlock_detect,
    sys_mutex_create, sys_mutex_lock, sys_mutex_unlock, sys_semaphore_create, sys_semaphore_down,
    relock_mutex, sys_semaphore_up, MutexKind, Next, Outcome, SyncTable, DEADLOCK, FAILURE,
};

fn table_with_threads(n: usize) -> SyncTable {
    let mut table = SyncTable::new();
    for _ in 0..n {
        table.add_thread();
    }
    table
}

#[test]
fn the_sentinels_are_distinct() {
    assert_eq!(DEADLOCK, -0xdead);
    assert_eq!(FAILURE, -1);
}

#[test]
fn a_fresh_table_is_empty() {
    let table = SyncTable::new();
    assert_eq!(table.thread_count(), 0);
    assert_eq!(table.mutex_kind(0), None);
    assert_eq!(table.semaphore_count(0), None);
    assert!(!table.holds_condvar(0));
    assert!(!table.detects_deadlock());
}

#[test]
fn threads_are_numbered_from_zero() {
    let mut table = SyncTable::new();
    assert_eq!(table.add_thread(), 0);
    assert_eq!(table.add_thread(), 1);
    assert_eq!(table.add_thread(), 2);
    assert_eq!(table.thread_count(), 3);
}

#[test]
fn slots_are_handed_out_in_order() {
    let mut table = SyncTable::new();
    assert_eq!(sys_mutex_create(&mut table, false), 0);
    assert_eq!(sys_mutex_create(&mut table, true), 1);
    assert_eq!(sys_mutex_create(&mut table, true), 2);
    assert_eq!(sys_semaphore_create(&mut table, 4), 0);
    assert_eq!(sys_semaphore_create(&mut table, 0), 1);
    assert_eq!(sys_condvar_create(&mut table), 0);
    assert_eq!(sys_condvar_create(&mut table), 1);
    assert_eq!(table.mutex_kind(0), Some(MutexKind::Spin));
    assert_eq!(table.mutex_kind(1), Some(MutexKind::Blocking));
    assert_eq!(table.mutex_kind(2), Some(MutexKind::Blocking));
    assert_eq!(table.mutex_kind(3), None);
    assert_eq!(table.semaphore_count(0), Some(4));
    assert_eq!(table.semaphore_count(1), Some(0));
    assert_eq!(table.available(0), Some(4));
    assert_eq!(table.available(1), Some(0));
    assert_eq!(table.available(2), None);
    assert!(table.holds_condvar(1));
    assert!(!table.holds_condvar(2));
}

#[test]
fn a_freed_mutex_slot_is_reused() {
    let mut table = SyncTable::new();
    assert_eq!(sys_mutex_create(&mut table, false), 0);
    assert_eq!(sys_mutex_create(&mut table, false), 1);
    assert_eq!(sys_mutex_create(&mut table, false), 2);
    assert!(table.free_mutex(1));
    assert_eq!(table.mutex_kind(1), None);
    assert_eq!(sys_mutex_create(&mut table, true), 1);
    assert_eq!(table.mutex_kind(1), Some(MutexKind::Blocking));
    assert_eq!(sys_mutex_create(&mut table, true), 3);
}

#[test]
fn a_freed_semaphore_slot_is_reused() {
    let mut table = table_with_threads(2);
    assert_eq!(sys_semaphore_create(&mut table, 1), 0);
    assert_eq!(sys_semaphore_create(&mut table, 2), 1);
    assert!(table.free_semaphore(0));
    assert_eq!(table.available(0), None);
    assert_eq!(sys_semaphore_create(&mut table, 7), 0);
    assert_eq!(table.available(0), Some(7));
    assert_eq!(table.available(1), Some(2));
    assert_eq!(sys_semaphore_create(&mut table, 3), 2);
}

#[test]
fn a_freed_condvar_slot_is_reused() {
    let mut table = SyncTable::new();
    assert_eq!(sys_condvar_create(&mut table), 0);
    assert_eq!(sys_condvar_create(&mut table), 1);
    assert!(table.free_condvar(0));
    assert!(!table.holds_condvar(0));
    assert_eq!(sys_condvar_create(&mut table), 0);
    assert_eq!(sys_condvar_create(&mut table), 2);
}

#[test]
fn the_lowest_of_several_freed_slots_goes_first() {
    let mut table = SyncTable::new();
    for _ in 0..5 {
        sys_mutex_create(&mut table, false);
    }
    assert!(table.free_mutex(3));
    assert!(table.free_mutex(1));
    assert_eq!(sys_mutex_create(&mut table, false), 1);
    assert_eq!(sys_mutex_create(&mut table, false), 3);
    assert_eq!(sys_mutex_create(&mut table, false), 5);
}

#[test]
fn freeing_an_empty_slot_does_nothing() {
    let mut table = SyncTable::new();
    assert!(!table.free_mutex(0));
    assert!(!table.free_semaphore(0));
    assert!(!table.free_condvar(0));
    sys_mutex_create(&mut table, false);
    assert!(table.free_mutex(0));
    assert!(!table.free_mutex(0));
    assert_eq!(sys_mutex_create(&mut table, false), 0);
}

#[test]
fn locking_books_the_caller_as_owner() {
    let mut table = table_with_threads(2);
    sys_mutex_create(&mut table, true);
    assert_eq!(table.mutex_owner(0), None);
    assert_eq!(sys_mutex_lock(&mut table, 1, 0).code, 0);
    assert_eq!(table.mutex_owner(0), Some(1));
    assert_eq!(sys_mutex_unlock(&mut table, 0).code, 0);
    assert_eq!(table.mutex_owner(0), None);
}

#[test]
fn without_detection_a_contended_lock_is_admitted() {
    let mut table = table_with_threads(2);
    sys_mutex_create(&mut table, true);
    assert_eq!(sys_mutex_lock(&mut table, 0, 0).code, 0);
    assert_eq!(sys_mutex_lock(&mut table, 1, 0).code, 0);
    assert_eq!(table.mutex_owner(0), Some(1));
}

#[test]
fn with_detection_a_contended_lock_is_refused() {
    let mut table = table_with_threads(2);
    sys_mutex_create(&mut table, true);
    sys_mutex_create(&mut table, false);
    assert_eq!(sys_enable_deadlock_detect(&mut table, 1), 0);
    assert_eq!(sys_mutex_lock(&mut table, 0, 0).code, 0);
    assert_eq!(sys_mutex_lock(&mut table, 1, 0).code, DEADLOCK);
    assert_eq!(sys_mutex_lock(&mut table, 0, 0).code, DEADLOCK);
    assert_eq!(table.mutex_owner(0), Some(0));
    assert_eq!(sys_mutex_lock(&mut table, 1, 1).code, 0);
    assert_eq!(sys_mutex_unlock(&mut table, 0).code, 0);
    assert_eq!(sys_mutex_lock(&mut table, 1, 0).code, 0);
    assert_eq!(table.mutex_owner(0), Some(1));
}

#[test]
fn a_reused_mutex_slot_has_no_owner() {
    let mut table = table_with_threads(1);
    sys_mutex_create(&mut table, true);
    sys_mutex_lock(&mut table, 0, 0);
    table.free_mutex(0);
    assert_eq!(table.mutex_owner(0), None);
    sys_mutex_create(&mut table, true);
    assert_eq!(table.mutex_owner(0), None);
    sys_enable_deadlock_detect(&mut table, 1);
    assert_eq!(sys_mutex_lock(&mut table, 0, 0).code, 0);
}

#[test]
fn a_slot_without_a_mutex_fails() {
    let mut table = table_with_threads(1);
    assert_eq!(sys_mutex_lock(&mut table, 0, 0).code, FAILURE);
    assert_eq!(sys_mutex_unlock(&mut table, 0).code, FAILURE);
    sys_mutex_create(&mut table, false);
    assert_eq!(sys_mutex_lock(&mut table, 0, 1).code, FAILURE);
    assert_eq!(sys_mutex_unlock(&mut table, usize::MAX).code, FAILURE);
    table.free_mutex(0);
    sys_enable_deadlock_detect(&mut table, 1);
    assert_eq!(sys_mutex_lock(&mut table, 0, 0).code, FAILURE);
    assert_eq!(sys_mutex_unlock(&mut table, 0).code, FAILURE);
}

#[test]
fn detection_is_switched_by_zero_and_one_only() {
    let mut table = SyncTable::new();
    assert_eq!(sys_enable_deadlock_detect(&mut table, 1), 0);
    assert!(table.detects_deadlock());
    assert_eq!(sys_enable_deadlock_detect(&mut table, 2), FAILURE);
    assert!(table.detects_deadlock());
    assert_eq!(sys_enable_deadlock_detect(&mut table, usize::MAX), FAILURE);
    assert_eq!(sys_enable_deadlock_detect(&mut table, 0), 0);
    assert!(!table.detects_deadlock());
    assert_eq!(sys_enable_deadlock_detect(&mut table, 7), FAILURE);
    assert!(!table.detects_deadlock());
}

#[test]
fn two_threads_take_the_two_units_of_a_semaphore() {
    let mut table = table_with_threads(2);
    assert_eq!(sys_enable_deadlock_detect(&mut table, 1), 0);
    assert_eq!(sys_semaphore_create(&mut table, 2), 0);
    assert_eq!(sys_semaphore_down(&mut table, 0, 0).code, 0);
    assert_eq!(table.available(0), Some(1));
    assert_eq!(sys_semaphore_down(&mut table, 1, 0).code, 0);
    assert_eq!(table.available(0), Some(0));
    assert_eq!(table.allocated(0, 0), Some(1));
    assert_eq!(table.allocated(1, 0), Some(1));
    assert_eq!(table.needed(0, 0), Some(0));
    assert_eq!(table.needed(1, 0), Some(0));
}

#[test]
fn a_thread_that_holds_every_unit_is_refused_more() {
    let mut table = table_with_threads(2);
    sys_enable_deadlock_detect(&mut table, 1);
    sys_semaphore_create(&mut table, 1);
    assert_eq!(sys_semaphore_down(&mut table, 0, 0).code, 0);
    assert_eq!(sys_semaphore_down(&mut table, 0, 0).code, DEADLOCK);
    assert_eq!(table.available(0), Some(0));
    assert_eq!(table.allocated(0, 0), Some(1));
    assert_eq!(table.needed(0, 0), Some(0));
    assert_eq!(table.allocated(1, 0), Some(0));
    assert_eq!(table.needed(1, 0), Some(0));
}

#[test]
fn a_refused_request_leaves_every_counter_alone() {
    let mut table = table_with_threads(3);
    sys_enable_deadlock_detect(&mut table, 1);
    sys_semaphore_create(&mut table, 0);
    sys_semaphore_create(&mut table, 2);
    assert_eq!(sys_semaphore_down(&mut table, 1, 1).code, 0);
    assert_eq!(sys_semaphore_down(&mut table, 2, 0).code, DEADLOCK);
    for tid in 0..3usize {
        assert_eq!(table.needed(tid, 0), Some(0));
        assert_eq!(table.needed(tid, 1), Some(0));
        assert_eq!(table.allocated(tid, 0), Some(0));
    }
    assert_eq!(table.allocated(1, 1), Some(1));
    assert_eq!(table.available(0), Some(0));
    assert_eq!(table.available(1), Some(1));
}

#[test]
fn a_second_thread_is_admitted_while_the_holder_can_hand_back() {
    let mut table = table_with_threads(2);
    sys_enable_deadlock_detect(&mut table, 1);
    sys_semaphore_create(&mut table, 1);
    assert_eq!(sys_semaphore_down(&mut table, 0, 0).code, 0);
    assert_eq!(sys_semaphore_down(&mut table, 1, 0).code, 0);
    assert_eq!(table.available(0), Some(-1));
    assert_eq!(table.allocated(0, 0), Some(1));
    assert_eq!(table.allocated(1, 0), Some(1));
    // with a waiter booked, nobody is admitted any more
    assert_eq!(sys_semaphore_down(&mut table, 0, 0).code, DEADLOCK);
    assert_eq!(table.available(0), Some(-1));
    assert_eq!(sys_semaphore_up(&mut table, 0, 0).code, 0);
    assert_eq!(table.available(0), Some(0));
    assert_eq!(table.allocated(0, 0), Some(0));
}

#[test]
fn without_detection_every_request_is_admitted() {
    let mut table = table_with_threads(1);
    sys_semaphore_create(&mut table, 0);
    assert_eq!(sys_semaphore_down(&mut table, 0, 0).code, 0);
    assert_eq!(sys_semaphore_down(&mut table, 0, 0).code, 0);
    assert_eq!(table.available(0), Some(-2));
    assert_eq!(table.allocated(0, 0), Some(2));
    assert_eq!(table.needed(0, 0), Some(0));
}

#[test]
fn handing_back_books_the_unit_as_available() {
    let mut table = table_with_threads(2);
    sys_semaphore_create(&mut table, 3);
    sys_semaphore_down(&mut table, 1, 0);
    sys_semaphore_down(&mut table, 1, 0);
    assert_eq!(sys_semaphore_up(&mut table, 1, 0).code, 0);
    assert_eq!(table.available(0), Some(2));
    assert_eq!(table.allocated(1, 0), Some(1));
    assert_eq!(table.allocated(0, 0), Some(0));
}

#[test]
fn a_thread_may_hand_back_what_it_never_took() {
    let mut table = table_with_threads(2);
    sys_semaphore_create(&mut table, 0);
    assert_eq!(sys_semaphore_up(&mut table, 0, 0).code, 0);
    assert_eq!(table.available(0), Some(1));
    assert_eq!(table.allocated(0, 0), Some(-1));
    assert_eq!(sys_semaphore_down(&mut table, 1, 0).code, 0);
    assert_eq!(table.available(0), Some(0));
    assert_eq!(table.allocated(1, 0), Some(1));
}

#[test]
fn units_are_neither_lost_nor_made_up() {
    let mut table = table_with_threads(3);
    sys_semaphore_create(&mut table, 5);
    let steps: [(bool, usize); 9] = [
        (true, 0),
        (true, 1),
        (false, 2),
        (true, 2),
        (true, 2),
        (false, 0),
        (true, 1),
        (true, 1),
        (true, 1),
    ];
    for (down, tid) in steps {
        let code: isize = if down {
            sys_semaphore_down(&mut table, tid, 0).code
        } else {
            sys_semaphore_up(&mut table, tid, 0).code
        };
        assert_eq!(code, 0);
        let held: i64 = (0..3usize).map(|t| table.allocated(t, 0).unwrap()).sum();
        assert_eq!(table.available(0).unwrap() + held, 5);
    }
    assert_eq!(table.available(0), Some(0));
}

#[test]
fn a_new_semaphore_gives_every_thread_a_counter() {
    let mut table = table_with_threads(2);
    assert_eq!(table.allocated(0, 0), None);
    sys_semaphore_create(&mut table, 1);
    assert_eq!(table.allocated(0, 0), Some(0));
    assert_eq!(table.allocated(1, 0), Some(0));
    assert_eq!(table.allocated(2, 0), None);
    assert_eq!(table.add_thread(), 2);
    assert_eq!(table.allocated(2, 0), Some(0));
    assert_eq!(table.needed(2, 0), Some(0));
    sys_semaphore_create(&mut table, 1);
    assert_eq!(table.allocated(2, 1), Some(0));
    assert_eq!(sys_semaphore_down(&mut table, 2, 1).code, 0);
    assert_eq!(table.allocated(2, 1), Some(1));
    assert_eq!(table.allocated(2, 0), Some(0));
}

#[test]
fn a_reused_semaphore_slot_starts_with_nothing_held() {
    let mut table = table_with_threads(2);
    sys_semaphore_create(&mut table, 2);
    sys_semaphore_down(&mut table, 0, 0);
    sys_semaphore_down(&mut table, 1, 0);
    table.free_semaphore(0);
    assert_eq!(sys_semaphore_create(&mut table, 9), 0);
    assert_eq!(table.available(0), Some(9));
    assert_eq!(table.allocated(0, 0), Some(0));
    assert_eq!(table.allocated(1, 0), Some(0));
}

#[test]
fn a_slot_without_a_semaphore_fails() {
    let mut table = table_with_threads(1);
    assert_eq!(sys_semaphore_down(&mut table, 0, 0).code, FAILURE);
    assert_eq!(sys_semaphore_up(&mut table, 0, 0).code, FAILURE);
    sys_semaphore_create(&mut table, 1);
    assert_eq!(sys_semaphore_down(&mut table, 0, 1).code, FAILURE);
    assert_eq!(sys_semaphore_up(&mut table, 0, 1).code, FAILURE);
    table.free_semaphore(0);
    assert_eq!(sys_semaphore_down(&mut table, 0, 0).code, FAILURE);
    assert_eq!(sys_semaphore_up(&mut table, 0, 0).code, FAILURE);
}

#[test]
fn an_unknown_thread_fails() {
    let mut table = table_with_threads(1);
    sys_semaphore_create(&mut table, 1);
    assert_eq!(sys_semaphore_down(&mut table, 1, 0).code, FAILURE);
    assert_eq!(sys_semaphore_up(&mut table, 1, 0).code, FAILURE);
    assert_eq!(table.available(0), Some(1));
    assert_eq!(table.allocated(0, 0), Some(0));
}

#[test]
fn a_count_beyond_the_counters_fails() {
    let mut table = SyncTable::new();
    assert_eq!(sys_semaphore_create(&mut table, usize::MAX), FAILURE);
    assert_eq!(table.semaphore_count(0), None);
    assert_eq!(sys_semaphore_create(&mut table, i64::MAX as usize), 0);
    assert_eq!(table.available(0), Some(i64::MAX));
}

#[test]
fn a_counter_at_the_end_of_its_range_fails() {
    let mut table = table_with_threads(1);
    sys_semaphore_create(&mut table, i64::MAX as usize);
    assert_eq!(sys_semaphore_up(&mut table, 0, 0).code, FAILURE);
    assert_eq!(table.available(0), Some(i64::MAX));
    assert_eq!(table.allocated(0, 0), Some(0));
    assert_eq!(sys_semaphore_down(&mut table, 0, 0).code, 0);
    assert_eq!(sys_semaphore_up(&mut table, 0, 0).code, 0);
}

#[test]
fn signal_and_wait_need_their_slots() {
    let mut table = SyncTable::new();
    assert_eq!(sys_condvar_signal(&mut table, 0).code, FAILURE);
    assert_eq!(sys_condvar_wait(&mut table, 0, 0, 0).code, FAILURE);
    sys_condvar_create(&mut table);
    assert_eq!(sys_condvar_signal(&mut table, 0).code, 0);
    assert_eq!(sys_condvar_signal(&mut table, 1).code, FAILURE);
    assert_eq!(sys_condvar_wait(&mut table, 0, 0, 0).code, FAILURE);
    sys_mutex_create(&mut table, true);
    assert_eq!(sys_condvar_wait(&mut table, 0, 0, 0).code, 0);
    assert_eq!(sys_condvar_wait(&mut table, 0, 1, 0).code, FAILURE);
    assert_eq!(sys_condvar_wait(&mut table, 0, 0, 1).code, FAILURE);
    table.free_condvar(0);
    assert_eq!(sys_condvar_signal(&mut table, 0).code, FAILURE);
    assert_eq!(sys_condvar_wait(&mut table, 0, 0, 0).code, FAILURE);
}

#[test]
fn wait_leaves_the_owner_entry_alone() {
    let mut table = table_with_threads(1);
    sys_condvar_create(&mut table);
    sys_mutex_create(&mut table, true);
    sys_mutex_lock(&mut table, 0, 0);
    assert_eq!(sys_condvar_wait(&mut table, 0, 0, 0).code, 0);
    assert_eq!(table.mutex_owner(0), Some(0));
}

fn done(next: Next, wake: Option<usize>) -> Outcome {
    Outcome { code: 0, next, wake }
}

const FAILED: Outcome = Outcome { code: FAILURE, next: Next::Proceed, wake: None };
const REFUSED: Outcome = Outcome { code: DEADLOCK, next: Next::Proceed, wake: None };

#[test]
fn a_free_mutex_is_taken_at_once() {
    let mut table = table_with_threads(2);
    sys_mutex_create(&mut table, true);
    sys_mutex_create(&mut table, false);
    assert!(!table.is_locked(0));
    assert_eq!(sys_mutex_lock(&mut table, 0, 0), done(Next::Proceed, None));
    assert_eq!(sys_mutex_lock(&mut table, 1, 1), done(Next::Proceed, None));
    assert!(table.is_locked(0));
    assert!(table.is_locked(1));
    assert_eq!(table.mutex_waiters(0), Vec::<usize>::new());
}

#[test]
fn a_taken_blocking_mutex_suspends_the_caller() {
    let mut table = table_with_threads(3);
    sys_mutex_create(&mut table, true);
    sys_mutex_lock(&mut table, 0, 0);
    assert_eq!(sys_mutex_lock(&mut table, 1, 0), done(Next::Block, None));
    assert_eq!(sys_mutex_lock(&mut table, 2, 0), done(Next::Block, None));
    assert_eq!(table.mutex_waiters(0), vec![1, 2]);
    assert!(table.is_locked(0));
}

#[test]
fn unlocking_hands_a_blocking_mutex_to_the_longest_waiting() {
    let mut table = table_with_threads(3);
    sys_mutex_create(&mut table, true);
    sys_mutex_lock(&mut table, 0, 0);
    sys_mutex_lock(&mut table, 2, 0);
    sys_mutex_lock(&mut table, 1, 0);
    assert_eq!(sys_mutex_unlock(&mut table, 0), done(Next::Proceed, Some(2)));
    assert!(table.is_locked(0));
    assert_eq!(table.mutex_waiters(0), vec![1]);
    assert_eq!(sys_mutex_unlock(&mut table, 0), done(Next::Proceed, Some(1)));
    assert!(table.is_locked(0));
    assert_eq!(sys_mutex_unlock(&mut table, 0), done(Next::Proceed, None));
    assert!(!table.is_locked(0));
    assert_eq!(sys_mutex_unlock(&mut table, 0), done(Next::Proceed, None));
    assert!(!table.is_locked(0));
}

#[test]
fn a_taken_spinning_mutex_is_polled_again() {
    let mut table = table_with_threads(2);
    sys_mutex_create(&mut table, false);
    sys_mutex_lock(&mut table, 0, 0);
    assert_eq!(sys_mutex_lock(&mut table, 1, 0), done(Next::Retry, None));
    assert_eq!(relock_mutex(&mut table, 1, 0), done(Next::Retry, None));
    assert_eq!(table.mutex_waiters(0), Vec::<usize>::new());
    assert_eq!(sys_mutex_unlock(&mut table, 0), done(Next::Proceed, None));
    assert!(!table.is_locked(0));
    assert_eq!(relock_mutex(&mut table, 1, 0), done(Next::Proceed, None));
    assert!(table.is_locked(0));
}

#[test]
fn a_refused_lock_does_not_touch_the_mutex() {
    let mut table = table_with_threads(2);
    sys_enable_deadlock_detect(&mut table, 1);
    sys_mutex_create(&mut table, true);
    sys_mutex_lock(&mut table, 0, 0);
    assert_eq!(sys_mutex_lock(&mut table, 1, 0), REFUSED);
    assert_eq!(table.mutex_waiters(0), Vec::<usize>::new());
    assert_eq!(sys_mutex_unlock(&mut table, 0), done(Next::Proceed, None));
    assert!(!table.is_locked(0));
}

#[test]
fn relocking_needs_a_mutex() {
    let mut table = table_with_threads(1);
    assert_eq!(relock_mutex(&mut table, 0, 0), FAILED);
    sys_mutex_create(&mut table, true);
    assert_eq!(relock_mutex(&mut table, 0, 1), FAILED);
    assert_eq!(relock_mutex(&mut table, 0, 0), done(Next::Proceed, None));
    assert_eq!(table.mutex_owner(0), None);
}

#[test]
fn a_reused_mutex_slot_is_unlocked_with_nobody_waiting() {
    let mut table = table_with_threads(2);
    sys_mutex_create(&mut table, true);
    sys_mutex_lock(&mut table, 0, 0);
    sys_mutex_lock(&mut table, 1, 0);
    table.free_mutex(0);
    assert!(!table.is_locked(0));
    assert_eq!(table.mutex_waiters(0), Vec::<usize>::new());
    sys_mutex_create(&mut table, false);
    assert!(!table.is_locked(0));
    assert_eq!(table.mutex_waiters(0), Vec::<usize>::new());
    assert_eq!(sys_mutex_lock(&mut table, 1, 0), done(Next::Proceed, None));
}

#[test]
fn a_decrement_suspends_when_no_unit_is_there() {
    let mut table = table_with_threads(3);
    sys_semaphore_create(&mut table, 1);
    assert_eq!(sys_semaphore_down(&mut table, 0, 0), done(Next::Proceed, None));
    assert_eq!(sys_semaphore_down(&mut table, 1, 0), done(Next::Block, None));
    assert_eq!(sys_semaphore_down(&mut table, 2, 0), done(Next::Block, None));
    assert_eq!(table.semaphore_waiters(0), vec![1, 2]);
    assert_eq!(table.available(0), Some(-2));
}

#[test]
fn an_increment_wakes_the_longest_waiting() {
    let mut table = table_with_threads(3);
    sys_semaphore_create(&mut table, 0);
    sys_semaphore_down(&mut table, 2, 0);
    sys_semaphore_down(&mut table, 1, 0);
    assert_eq!(sys_semaphore_up(&mut table, 0, 0), done(Next::Proceed, Some(2)));
    assert_eq!(table.semaphore_waiters(0), vec![1]);
    assert_eq!(sys_semaphore_up(&mut table, 0, 0), done(Next::Proceed, Some(1)));
    assert_eq!(table.semaphore_waiters(0), Vec::<usize>::new());
    assert_eq!(table.available(0), Some(0));
    assert_eq!(sys_semaphore_up(&mut table, 0, 0), done(Next::Proceed, None));
    assert_eq!(table.available(0), Some(1));
    assert_eq!(sys_semaphore_down(&mut table, 1, 0), done(Next::Proceed, None));
}

#[test]
fn as_many_wait_as_the_counter_is_below_zero() {
    let mut table = table_with_threads(4);
    sys_semaphore_create(&mut table, 2);
    let calls: [(bool, usize); 10] = [
        (true, 0),
        (true, 1),
        (true, 2),
        (true, 3),
        (false, 0),
        (true, 0),
        (false, 1),
        (false, 2),
        (false, 3),
        (false, 0),
    ];
    for (down, tid) in calls {
        if down {
            sys_semaphore_down(&mut table, tid, 0);
        } else {
            sys_semaphore_up(&mut table, tid, 0);
        }
        let units: i64 = table.available(0).unwrap();
        let owed: usize = if units < 0 { (-units) as usize } else { 0 };
        assert_eq!(table.semaphore_waiters(0).len(), owed);
    }
    assert_eq!(table.available(0), Some(2));
}

#[test]
fn a_refused_decrement_queues_nobody() {
    let mut table = table_with_threads(1);
    sys_enable_deadlock_detect(&mut table, 1);
    sys_semaphore_create(&mut table, 0);
    assert_eq!(sys_semaphore_down(&mut table, 0, 0), REFUSED);
    assert_eq!(table.semaphore_waiters(0), Vec::<usize>::new());
    assert_eq!(sys_semaphore_down(&mut table, 0, 9), FAILED);
    assert_eq!(sys_semaphore_up(&mut table, 0, 9), FAILED);
}

#[test]
fn a_wait_releases_the_mutex_and_suspends_the_caller() {
    let mut table = table_with_threads(2);
    sys_condvar_create(&mut table);
    sys_mutex_create(&mut table, true);
    sys_mutex_lock(&mut table, 0, 0);
    assert_eq!(sys_condvar_wait(&mut table, 0, 0, 0), done(Next::Block, None));
    assert!(!table.is_locked(0));
    assert_eq!(table.condvar_waiters(0), vec![0]);
    assert_eq!(sys_mutex_lock(&mut table, 1, 0), done(Next::Proceed, None));
}

#[test]
fn a_wait_hands_the_mutex_to_whoever_waits_for_it() {
    let mut table = table_with_threads(2);
    sys_condvar_create(&mut table);
    sys_mutex_create(&mut table, true);
    sys_mutex_lock(&mut table, 0, 0);
    sys_mutex_lock(&mut table, 1, 0);
    assert_eq!(sys_condvar_wait(&mut table, 0, 0, 0), done(Next::Block, Some(1)));
    assert!(table.is_locked(0));
    assert_eq!(table.mutex_waiters(0), Vec::<usize>::new());
    assert_eq!(table.condvar_waiters(0), vec![0]);
}

#[test]
fn a_signal_wakes_one_waiter_in_order_of_arrival() {
    let mut table = table_with_threads(3);
    sys_condvar_create(&mut table);
    sys_mutex_create(&mut table, true);
    for tid in [1usize, 2, 0] {
        assert_eq!(relock_mutex(&mut table, tid, 0).next, Next::Proceed);
        sys_condvar_wait(&mut table, tid, 0, 0);
    }
    assert_eq!(table.condvar_waiters(0), vec![1, 2, 0]);
    assert_eq!(sys_condvar_signal(&mut table, 0), done(Next::Proceed, Some(1)));
    assert_eq!(table.condvar_waiters(0), vec![2, 0]);
    assert_eq!(sys_condvar_signal(&mut table, 0), done(Next::Proceed, Some(2)));
    assert_eq!(sys_condvar_signal(&mut table, 0), done(Next::Proceed, Some(0)));
    assert_eq!(table.condvar_waiters(0), Vec::<usize>::new());
}

#[test]
fn a_signal_with_nobody_waiting_is_lost() {
    let mut table = table_with_threads(2);
    sys_condvar_create(&mut table);
    sys_mutex_create(&mut table, true);
    assert_eq!(sys_condvar_signal(&mut table, 0), done(Next::Proceed, None));
    assert_eq!(sys_condvar_signal(&mut table, 0), done(Next::Proceed, None));
    sys_mutex_lock(&mut table, 1, 0);
    assert_eq!(sys_condvar_wait(&mut table, 1, 0, 0), done(Next::Block, None));
    assert_eq!(table.condvar_waiters(0), vec![1]);
}

#[test]
fn a_woken_waiter_takes_the_mutex_back() {
    let mut table = table_with_threads(2);
    sys_condvar_create(&mut table);
    sys_mutex_create(&mut table, true);
    sys_mutex_lock(&mut table, 0, 0);
    sys_condvar_wait(&mut table, 0, 0, 0);
    sys_mutex_lock(&mut table, 1, 0);
    assert_eq!(sys_condvar_signal(&mut table, 0).wake, Some(0));
    // the signaller still holds the mutex: the woken thread queues for it
    assert_eq!(relock_mutex(&mut table, 0, 0), done(Next::Block, None));
    assert_eq!(sys_mutex_unlock(&mut table, 0), done(Next::Proceed, Some(0)));
    assert!(table.is_locked(0));
}

#[test]
fn failed_signal_and_wait_change_nothing() {
    let mut table = table_with_threads(1);
    sys_mutex_create(&mut table, true);
    sys_mutex_lock(&mut table, 0, 0);
    assert_eq!(sys_condvar_wait(&mut table, 0, 0, 0), FAILED);
    assert!(table.is_locked(0));
    sys_condvar_create(&mut table);
    assert_eq!(sys_condvar_wait(&mut table, 0, 0, 1), FAILED);
    assert_eq!(table.condvar_waiters(0), Vec::<usize>::new());
    assert_eq!(sys_condvar_signal(&mut table, 1), FAILED);
}
