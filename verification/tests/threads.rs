use wikiup::threads::{
    claim_worker, get_max_threads, parallelism_or_default, release_worker, set_max_threads,
    WorkerPool, DEFAULT_PARALLELISM,
};

#[test]
fn new_pool_allows_one_worker() {
    let pool = WorkerPool::new();
    assert_eq!(get_max_threads(&pool), 1);
    assert_eq!(pool.running_threads(), 0);
}

#[test]
fn cap_is_what_was_set() {
    let mut pool = WorkerPool::new();
    set_max_threads(&mut pool, 20);
    assert_eq!(get_max_threads(&pool), 20);
    set_max_threads(&mut pool, 0);
    assert_eq!(get_max_threads(&pool), 0);
    assert_eq!(pool.running_threads(), 0);
}

#[test]
fn workers_are_granted_up_to_the_cap() {
    let mut pool = WorkerPool::new();
    set_max_threads(&mut pool, 2);
    assert!(claim_worker(&mut pool));
    assert!(claim_worker(&mut pool));
    assert_eq!(pool.running_threads(), 2);
    assert!(!claim_worker(&mut pool));
    assert!(!claim_worker(&mut pool));
    assert_eq!(pool.running_threads(), 2);
    release_worker(&mut pool);
    assert_eq!(pool.running_threads(), 1);
    assert!(claim_worker(&mut pool));
    assert!(!claim_worker(&mut pool));
}

#[test]
fn no_worker_without_a_cap() {
    let mut pool = WorkerPool::new();
    set_max_threads(&mut pool, 0);
    assert!(!claim_worker(&mut pool));
    assert_eq!(pool.running_threads(), 0);
}

#[test]
fn lowering_the_cap_keeps_the_running_workers() {
    let mut pool = WorkerPool::new();
    set_max_threads(&mut pool, 3);
    assert!(claim_worker(&mut pool));
    assert!(claim_worker(&mut pool));
    set_max_threads(&mut pool, 1);
    assert_eq!(pool.running_threads(), 2);
    assert!(!claim_worker(&mut pool));
    release_worker(&mut pool);
    assert!(!claim_worker(&mut pool));
    release_worker(&mut pool);
    assert!(claim_worker(&mut pool));
}

#[test]
fn release_without_a_worker_changes_nothing() {
    let mut pool = WorkerPool::new();
    release_worker(&mut pool);
    assert_eq!(pool.running_threads(), 0);
    assert_eq!(get_max_threads(&pool), 1);
}

#[test]
fn cap_at_the_largest_number() {
    let mut pool = WorkerPool::new();
    set_max_threads(&mut pool, usize::MAX);
    assert!(claim_worker(&mut pool));
    assert_eq!(pool.running_threads(), 1);
}

#[test]
fn parallelism_is_what_the_machine_answers() {
    assert_eq!(parallelism_or_default(Some(1)), 1);
    assert_eq!(parallelism_or_default(Some(16)), 16);
    assert_eq!(parallelism_or_default(Some(usize::MAX)), usize::MAX);
}

#[test]
fn parallelism_without_an_answer_is_four() {
    assert_eq!(DEFAULT_PARALLELISM, 4);
    assert_eq!(parallelism_or_default(None), 4);
    assert_eq!(parallelism_or_default(Some(0)), 4);
}
