use process_core::deadlock::is_safe;

fn rows(n: usize, row: Vec<i64>) -> Vec<Vec<i64>> {
    (0..n).map(|_| row.clone()).collect()
}

#[test]
fn a_state_without_threads_is_safe() {
    assert!(is_safe(&vec![], &vec![], &vec![]));
    assert!(is_safe(&vec![0, 0], &vec![], &vec![]));
}

#[test]
fn a_state_without_resources_is_safe() {
    assert!(is_safe(&vec![], &rows(3, vec![]), &rows(3, vec![])));
}

#[test]
fn threads_that_ask_for_nothing_all_finish() {
    assert!(is_safe(&vec![0], &rows(1, vec![0]), &rows(1, vec![0])));
    assert!(is_safe(&vec![0, 5], &rows(10, vec![1, 0]), &rows(10, vec![0, 0])));
    assert!(is_safe(&vec![0], &rows(200, vec![0]), &rows(200, vec![0])));
}

#[test]
fn a_request_is_safe_when_the_holder_can_finish() {
    let available: Vec<i64> = vec![0];
    let alloc: Vec<Vec<i64>> = vec![vec![1], vec![0]];
    let need: Vec<Vec<i64>> = vec![vec![0], vec![1]];
    assert!(is_safe(&available, &alloc, &need));
}

#[test]
fn a_request_is_safe_when_units_are_at_hand() {
    let available: Vec<i64> = vec![2];
    let alloc: Vec<Vec<i64>> = vec![vec![0], vec![0]];
    let need: Vec<Vec<i64>> = vec![vec![1], vec![1]];
    assert!(is_safe(&available, &alloc, &need));
}

#[test]
fn a_thread_that_waits_for_itself_is_refused() {
    assert!(!is_safe(&vec![0], &vec![vec![1]], &vec![vec![1]]));
    assert!(!is_safe(&vec![0], &vec![vec![1], vec![0]], &vec![vec![1], vec![0]]));
}

#[test]
fn a_request_for_more_than_exists_is_refused() {
    assert!(!is_safe(&vec![1], &vec![vec![1], vec![0]], &vec![vec![0], vec![3]]));
    assert!(!is_safe(&vec![0], &vec![vec![0]], &vec![vec![1]]));
}

#[test]
fn two_threads_that_wait_for_each_other_are_refused() {
    let available: Vec<i64> = vec![0, 0];
    let alloc: Vec<Vec<i64>> = vec![vec![1, 0], vec![0, 1]];
    let need: Vec<Vec<i64>> = vec![vec![0, 1], vec![1, 0]];
    assert!(!is_safe(&available, &alloc, &need));
}

#[test]
fn every_resource_of_a_request_counts() {
    let available: Vec<i64> = vec![5, 0];
    let alloc: Vec<Vec<i64>> = vec![vec![0, 0]];
    assert!(is_safe(&available, &alloc, &vec![vec![5, 0]]));
    assert!(!is_safe(&available, &alloc, &vec![vec![1, 1]]));
}

#[test]
fn released_units_let_later_threads_run() {
    let available: Vec<i64> = vec![1];
    let alloc: Vec<Vec<i64>> = vec![vec![1], vec![1], vec![0]];
    let need: Vec<Vec<i64>> = vec![vec![2], vec![1], vec![3]];
    // the second thread runs first, then the first, then the third
    assert!(is_safe(&available, &alloc, &need));
}

#[test]
fn a_thread_stuck_for_two_rounds_may_still_run_in_the_third() {
    let available: Vec<i64> = vec![0];
    let alloc: Vec<Vec<i64>> = vec![vec![0], vec![1], vec![1]];
    let need: Vec<Vec<i64>> = vec![vec![2], vec![0], vec![0]];
    assert!(is_safe(&available, &alloc, &need));
}

#[test]
fn the_round_cap_gives_up_on_a_thread_stuck_for_three_rounds() {
    // Three threads hand back one unit each; the first could run after that,
    // but by then the cap is reached and it has been seen stuck.
    let available: Vec<i64> = vec![0];
    let alloc: Vec<Vec<i64>> = vec![vec![0], vec![1], vec![1], vec![1]];
    let need: Vec<Vec<i64>> = vec![vec![3], vec![0], vec![0], vec![0]];
    assert!(!is_safe(&available, &alloc, &need));
}

#[test]
fn the_round_cap_spares_a_thread_never_seen_stuck() {
    // The same holdings with the needy thread last: every round finishes the
    // thread it looks at first, and the last one is reached with three units.
    let available: Vec<i64> = vec![0];
    let alloc: Vec<Vec<i64>> = vec![vec![1], vec![1], vec![1], vec![0]];
    let need: Vec<Vec<i64>> = vec![vec![0], vec![0], vec![0], vec![3]];
    assert!(is_safe(&available, &alloc, &need));
}

#[test]
fn units_owed_to_waiters_keep_everyone_from_running() {
    let available: Vec<i64> = vec![-1];
    let alloc: Vec<Vec<i64>> = vec![vec![1], vec![1]];
    let need: Vec<Vec<i64>> = vec![vec![0], vec![0]];
    assert!(!is_safe(&available, &alloc, &need));
}

#[test]
fn a_thread_that_gave_more_than_it_took_lowers_the_work_at_hand() {
    let available: Vec<i64> = vec![1];
    let alloc: Vec<Vec<i64>> = vec![vec![-1], vec![0]];
    let need: Vec<Vec<i64>> = vec![vec![0], vec![1]];
    assert!(!is_safe(&available, &alloc, &need));
    let need_first: Vec<Vec<i64>> = vec![vec![2], vec![1]];
    // here the second thread runs before the first is ever able to
    assert!(!is_safe(&available, &alloc, &need_first));
}

#[test]
fn counters_at_the_ends_of_their_range_are_added_without_wrapping() {
    let available: Vec<i64> = vec![i64::MAX];
    let alloc: Vec<Vec<i64>> = rows(4, vec![i64::MAX]);
    let need: Vec<Vec<i64>> = rows(4, vec![i64::MAX]);
    assert!(is_safe(&available, &alloc, &need));
    let low: Vec<i64> = vec![i64::MIN];
    let owed: Vec<Vec<i64>> = rows(4, vec![i64::MIN]);
    assert!(is_safe(&low, &rows(1, vec![i64::MIN]), &rows(1, vec![i64::MIN])));
    // the first thread runs and leaves twice the debt: too little for the second
    assert!(!is_safe(&low, &owed, &rows(4, vec![i64::MIN])));
    assert!(!is_safe(&low, &owed, &rows(4, vec![0])));
}
