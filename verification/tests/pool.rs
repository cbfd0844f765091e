use rust_crawler::pool::{default_worker_count, worker_count};

#[test]
fn one_worker_per_cpu() {
    assert_eq!(worker_count(1), 1);
    assert_eq!(worker_count(8), 8);
    assert_eq!(worker_count(usize::MAX), usize::MAX);
}

#[test]
fn no_cpu_still_gives_a_worker() {
    assert_eq!(worker_count(0), 1);
}

#[test]
fn this_machine_gets_a_worker() {
    assert!(default_worker_count() >= 1);
}
