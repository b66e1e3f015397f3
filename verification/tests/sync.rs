use lib::sync::{ProcessSync, DEADLOCK_REJECTED};

type Proc = ProcessSync<u32, u32, u32>;

#[test]
fn mutex_create_hands_out_consecutive_ids() {
    let mut p: Proc = ProcessSync::new();
    assert_eq!(p.sys_mutex_create(10, 2), 0);
    assert_eq!(p.sys_mutex_create(11, 2), 1);
    assert_eq!(p.sys_mutex_create(12, 3), 2);
    assert_eq!(p.mutex_count(), 3);
    assert_eq!(*p.mutex(1), 11);
    let t = p.mutex_table();
    assert_eq!(t.available(), &vec![1, 1, 1]);
    assert_eq!(t.allocation(), &vec![vec![0, 0, 0]; 3]);
    assert_eq!(t.need(), &vec![vec![0, 0, 0]; 3]);
}

#[test]
fn semaphore_create_records_count() {
    let mut p: Proc = ProcessSync::new();
    assert_eq!(p.sys_semaphore_create(7, 3, 1), 0);
    assert_eq!(p.sys_semaphore_create(8, 0, 2), 1);
    assert_eq!(*p.semaphore(0), 7);
    assert_eq!(p.semaphore_table().available(), &vec![3, 0]);
    assert_eq!(p.semaphore_table().need(), &vec![vec![0, 0]; 2]);
}

#[test]
fn condvar_create_and_lookup() {
    let mut p: Proc = ProcessSync::new();
    assert_eq!(p.sys_condvar_create(5), 0);
    assert_eq!(p.sys_condvar_create(6), 1);
    assert!(p.has_condvar(1));
    assert!(!p.has_condvar(2));
    assert_eq!(*p.condvar(1), 6);
    assert_eq!(p.condvar_count(), 2);
}

#[test]
fn enable_deadlock_detect_values() {
    let mut p: Proc = ProcessSync::new();
    assert!(!p.deadlock_detect_enabled());
    assert_eq!(p.sys_enable_deadlock_detect(1), 0);
    assert!(p.deadlock_detect_enabled());
    assert_eq!(p.sys_enable_deadlock_detect(2), -1);
    assert!(p.deadlock_detect_enabled());
    assert_eq!(p.sys_enable_deadlock_detect(0), 0);
    assert!(!p.deadlock_detect_enabled());
}

#[test]
fn lock_without_detection_only_sizes_bookkeeping() {
    let mut p: Proc = ProcessSync::new();
    p.sys_mutex_create(1, 1);
    let active = vec![true, true, true];
    assert_eq!(p.sys_mutex_lock(2, 0, &active), 0);
    assert_eq!(p.mutex_table().need(), &vec![vec![0]; 3]);
    p.mutex_lock_granted(2, 0);
    assert_eq!(p.mutex_table().allocation(), &vec![vec![0]; 3]);
    assert_eq!(p.sys_mutex_unlock(2, 0), 0);
    assert_eq!(p.mutex_table().available(), &vec![1]);
}

#[test]
fn crossed_mutex_locks_are_rejected() {
    let mut p: Proc = ProcessSync::new();
    let active = vec![true, true];
    p.sys_enable_deadlock_detect(1);
    assert_eq!(p.sys_mutex_create(100, 2), 0);
    assert_eq!(p.sys_mutex_create(101, 2), 1);
    // thread 0 takes mutex 0
    assert_eq!(p.sys_mutex_lock(0, 0, &active), 0);
    p.mutex_lock_granted(0, 0);
    // thread 1 takes mutex 1
    assert_eq!(p.sys_mutex_lock(1, 1, &active), 0);
    p.mutex_lock_granted(1, 1);
    assert_eq!(p.mutex_table().available(), &vec![0, 0]);
    assert_eq!(p.mutex_table().allocation(), &vec![vec![1, 0], vec![0, 1]]);
    // thread 0 asks for mutex 1: thread 1 can still finish, so it may wait
    assert_eq!(p.sys_mutex_lock(0, 1, &active), 0);
    assert_eq!(p.mutex_table().need(), &vec![vec![0, 1], vec![0, 0]]);
    // thread 1 asks for mutex 0: that closes the circle
    assert_eq!(p.sys_mutex_lock(1, 0, &active), DEADLOCK_REJECTED);
    assert_eq!(DEADLOCK_REJECTED, -0xDEAD);
    assert_eq!(p.mutex_table().need(), &vec![vec![0, 1], vec![0, 0]]);
}

#[test]
fn mutex_lock_unlock_round_trip() {
    let mut p: Proc = ProcessSync::new();
    let active = vec![true];
    p.sys_enable_deadlock_detect(1);
    p.sys_mutex_create(9, 1);
    assert_eq!(p.sys_mutex_lock(0, 0, &active), 0);
    assert_eq!(p.mutex_table().need(), &vec![vec![1]]);
    p.mutex_lock_granted(0, 0);
    assert_eq!(p.mutex_table().need(), &vec![vec![0]]);
    assert_eq!(p.mutex_table().allocation(), &vec![vec![1]]);
    assert_eq!(p.mutex_table().available(), &vec![0]);
    assert_eq!(p.sys_mutex_unlock(0, 0), 0);
    assert_eq!(p.mutex_table().allocation(), &vec![vec![0]]);
    assert_eq!(p.mutex_table().available(), &vec![1]);
}

#[test]
fn semaphore_down_up_round_trip() {
    let mut p: Proc = ProcessSync::new();
    let active = vec![true, true];
    p.sys_enable_deadlock_detect(1);
    assert_eq!(p.sys_semaphore_create(3, 2, 2), 0);
    assert_eq!(p.sys_semaphore_down(1, 0, &active), 0);
    assert_eq!(p.semaphore_table().need(), &vec![vec![0], vec![1]]);
    p.semaphore_down_granted(1, 0);
    assert_eq!(p.semaphore_table().need(), &vec![vec![0], vec![0]]);
    assert_eq!(p.semaphore_table().allocation(), &vec![vec![0], vec![1]]);
    assert_eq!(p.semaphore_table().available(), &vec![1]);
    assert_eq!(p.sys_semaphore_up(1, 0), 0);
    assert_eq!(p.semaphore_table().allocation(), &vec![vec![0], vec![0]]);
    assert_eq!(p.semaphore_table().available(), &vec![2]);
}

#[test]
fn semaphore_down_on_empty_semaphores_held_crosswise_is_rejected() {
    let mut p: Proc = ProcessSync::new();
    let active = vec![true, true];
    p.sys_enable_deadlock_detect(1);
    p.sys_semaphore_create(0, 1, 2);
    p.sys_semaphore_create(1, 1, 2);
    assert_eq!(p.sys_semaphore_down(0, 0, &active), 0);
    p.semaphore_down_granted(0, 0);
    assert_eq!(p.sys_semaphore_down(1, 1, &active), 0);
    p.semaphore_down_granted(1, 1);
    assert_eq!(p.sys_semaphore_down(0, 1, &active), 0);
    assert_eq!(p.sys_semaphore_down(1, 0, &active), DEADLOCK_REJECTED);
    // the refused request is withdrawn
    assert_eq!(p.semaphore_table().need(), &vec![vec![0, 1], vec![0, 0]]);
}

#[test]
fn new_thread_rows_appear_on_lock() {
    let mut p: Proc = ProcessSync::new();
    p.sys_mutex_create(0, 1);
    p.sys_enable_deadlock_detect(1);
    assert_eq!(p.mutex_table().allocation().len(), 1);
    let active = vec![true, false, true, true];
    assert_eq!(p.sys_mutex_lock(3, 0, &active), 0);
    assert_eq!(p.mutex_table().allocation().len(), 4);
    assert_eq!(p.mutex_table().need()[3], vec![1]);
}

#[test]
fn slot_lookup_checks() {
    let mut p: Proc = ProcessSync::new();
    assert!(!p.has_mutex(0));
    assert!(!p.has_semaphore(0));
    p.sys_mutex_create(4, 1);
    p.sys_semaphore_create(5, 1, 1);
    assert!(p.has_mutex(0));
    assert!(p.has_semaphore(0));
    assert_eq!(p.semaphore_count(), 1);
}
