use lib::banker::{ensure_matrix, is_safe};

#[test]
fn empty_state_is_safe() {
    assert!(is_safe(&vec![], &vec![], &vec![], &vec![]));
}

#[test]
fn textbook_state_is_safe() {
    // Five threads, three resources: the classic safe state.
    let available = vec![3, 3, 2];
    let allocation = vec![
        vec![0, 1, 0],
        vec![2, 0, 0],
        vec![3, 0, 2],
        vec![2, 1, 1],
        vec![0, 0, 2],
    ];
    let need = vec![
        vec![7, 4, 3],
        vec![1, 2, 2],
        vec![6, 0, 0],
        vec![0, 1, 1],
        vec![4, 3, 1],
    ];
    let active = vec![true; 5];
    assert!(is_safe(&available, &allocation, &need, &active));
}

#[test]
fn textbook_state_after_bad_grant_is_unsafe() {
    let available = vec![0, 1, 0];
    let allocation = vec![
        vec![0, 3, 0],
        vec![3, 0, 2],
        vec![3, 0, 2],
        vec![2, 1, 1],
        vec![0, 0, 2],
    ];
    let need = vec![
        vec![7, 2, 3],
        vec![0, 2, 0],
        vec![6, 0, 0],
        vec![0, 1, 1],
        vec![4, 3, 1],
    ];
    let active = vec![true; 5];
    assert!(!is_safe(&available, &allocation, &need, &active));
}

#[test]
fn circular_wait_is_unsafe() {
    // Thread 0 holds resource 0 and waits for 1; thread 1 holds 1 and waits for 0.
    let available = vec![0, 0];
    let allocation = vec![vec![1, 0], vec![0, 1]];
    let need = vec![vec![0, 1], vec![1, 0]];
    assert!(!is_safe(&available, &allocation, &need, &vec![true, true]));
}

#[test]
fn exited_thread_is_not_waited_for() {
    let available = vec![0, 0];
    let allocation = vec![vec![1, 0], vec![0, 1]];
    let need = vec![vec![0, 1], vec![1, 0]];
    // With thread 1 gone, thread 0 can run alone: it only waits for what thread 1 held,
    // which no longer counts as held by anyone that must finish.
    assert!(!is_safe(&available, &allocation, &need, &vec![true, false]));
    assert!(is_safe(&vec![0, 1], &allocation, &need, &vec![true, false]));
}

#[test]
fn chain_of_releases_is_safe() {
    // Thread 2 can finish at once, which frees what thread 1 needs, and so on.
    let available = vec![1];
    let allocation = vec![vec![1], vec![1], vec![1]];
    let need = vec![vec![3], vec![2], vec![1]];
    assert!(is_safe(&available, &allocation, &need, &vec![true, true, true]));
    assert!(!is_safe(&vec![0], &allocation, &need, &vec![true, true, true]));
}

#[test]
fn short_need_row_compares_shared_columns_only() {
    let available = vec![1, 0];
    let allocation = vec![vec![0, 0]];
    let need = vec![vec![1]];
    assert!(is_safe(&available, &allocation, &need, &vec![true]));
}

#[test]
fn ensure_matrix_grows_and_pads() {
    let mut m: Vec<Vec<usize>> = vec![vec![1, 2]];
    ensure_matrix(&mut m, 3, 3);
    assert_eq!(m, vec![vec![1, 2, 0], vec![0, 0, 0], vec![0, 0, 0]]);
}

#[test]
fn ensure_matrix_keeps_extra_rows_and_cuts_columns() {
    let mut m: Vec<Vec<usize>> = vec![vec![1, 2, 3], vec![4, 5, 6]];
    ensure_matrix(&mut m, 1, 2);
    assert_eq!(m, vec![vec![1, 2], vec![4, 5]]);
}
