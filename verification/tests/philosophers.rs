use classic_sync::philosopher::Philosopher;
use classic_sync::table::Table;

#[test]
fn new_table_has_all_forks() {
    let t = Table::new(5);
    assert_eq!(t.forks(), &vec![true; 5]);
    assert_eq!(Table::new(0).forks().len(), 0);
}

#[test]
fn left_and_right_forks() {
    assert_eq!(Table::left(0), 4);
    assert_eq!(Table::right(0), 1);
    assert_eq!(Table::left(4), 3);
    assert_eq!(Table::right(4), 0);
    assert_eq!(Table::left(7), 1);
    assert_eq!(Table::right(7), 3);
}

#[test]
fn acquire_takes_both_forks() {
    let mut t = Table::new(5);
    assert!(t.acquire_forks(0));
    assert_eq!(t.forks(), &vec![true, false, true, true, false]);
}

#[test]
fn philosophers_sharing_a_fork_exclude_each_other() {
    let mut t = Table::new(5);
    assert!(t.acquire_forks(0));
    // philosopher 2 needs fork 1, held by philosopher 0
    assert!(!t.acquire_forks(2));
    assert_eq!(t.forks(), &vec![true, false, true, true, false]);
    // philosopher 1 needs forks 0 and 2, both free
    assert!(t.acquire_forks(1));
    t.release_fork(0);
    assert!(t.acquire_forks(2));
}

#[test]
fn release_undoes_acquire() {
    let mut t = Table::new(6);
    assert!(t.acquire_forks(3));
    t.release_fork(3);
    assert_eq!(t.forks(), &vec![true; 6]);
}

#[test]
fn philosopher_keeps_seat() {
    assert_eq!(Philosopher::new(3).id(), 3);
}

#[test]
fn holders_keep_disjoint_forks_over_a_run() {
    let mut t = Table::new(5);
    assert!(t.acquire_forks(0)); // forks 4 and 1
    assert!(t.acquire_forks(1)); // forks 0 and 2
    assert!(!t.acquire_forks(3)); // needs fork 2
    assert!(!t.acquire_forks(4)); // needs fork 0
    assert_eq!(t.forks(), &vec![false, false, false, true, false]);
    t.release_fork(0);
    assert_eq!(t.forks(), &vec![false, true, false, true, true]);
    assert!(t.acquire_forks(2)); // forks 1 and 3, both free again
    assert_eq!(t.forks(), &vec![false, false, false, false, true]);
}
