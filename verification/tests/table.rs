use lib::table::ResourceTable;

#[test]
fn open_resource_sizes_table() {
    let mut t = ResourceTable::new();
    t.open_resource(1, 5, 2, 3);
    assert_eq!(t.available(), &vec![0, 5, 0]);
    assert_eq!(t.allocation(), &vec![vec![0, 0, 0]; 2]);
    assert_eq!(t.need(), &vec![vec![0, 0, 0]; 2]);
}

#[test]
fn totals_that_overflow_are_detected() {
    let mut t = ResourceTable::new();
    t.open_resource(0, usize::MAX, 1, 1);
    t.set_allocation(0, 0, 1);
    assert!(!t.totals_fit_after_growth(&vec![true], 1));
    // a thread that does not exist is not counted
    assert!(t.totals_fit_after_growth(&vec![false], 1));
    // rows added by growth hold nothing
    t.set_allocation(0, 0, 0);
    assert!(t.totals_fit_after_growth(&vec![true, true, true], 1));
}

#[test]
fn safety_check_on_table() {
    let mut t = ResourceTable::new();
    t.open_resource(0, 1, 2, 1);
    t.set_need(0, 0, 1);
    assert!(t.check_safe(&vec![true, true]));
    t.set_available(0, 0);
    assert!(!t.check_safe(&vec![true, true]));
    assert!(t.check_safe(&vec![false, true]));
    assert_eq!(t.need_at(0, 0), 1);
    assert_eq!(t.allocation_at(1, 0), 0);
    assert_eq!(t.available_at(0), 0);
}
