//! The cap on concurrent workers: how many may run at once, how many do, and
//! whether the next piece of work gets a worker of its own.
//!
//! The pool only counts. Whoever owns it starts the worker that it grants,
//! runs the work in place where it grants none, and reports the end of each
//! worker that it was granted.

use vstd::prelude::*;

verus! {

/// What a pool counts.
pub struct PoolState {
    /// How many workers may run at once.
    pub max_threads: nat,
    /// How many workers run.
    pub running_threads: nat,
}

impl PoolState {
    /// No more workers run than may.
    pub open spec fn within_cap(self) -> bool {
        self.running_threads <= self.max_threads
    }
}

/// A bounded pool of workers.
pub struct WorkerPool {
    max_threads: usize,
    running_threads: usize,
}

impl View for WorkerPool {
    type V = PoolState;

    closed spec fn view(&self) -> PoolState {
        PoolState {
            max_threads: self.max_threads as nat,
            running_threads: self.running_threads as nat,
        }
    }
}

impl WorkerPool {
    /// A pool in which one worker may run and none does.
    pub fn new() -> (pool: WorkerPool)
        ensures
            pool@ == (PoolState { max_threads: 1, running_threads: 0 }),
    {
        WorkerPool { max_threads: 1, running_threads: 0 }
    }

    /// How many workers run.
    pub fn running_threads(&self) -> (running: usize)
        ensures
            running == self@.running_threads,
    {
        self.running_threads
    }
}

/// How many workers may run at once.
pub fn get_max_threads(pool: &WorkerPool) -> (max_threads: usize)
    ensures
        max_threads == pool@.max_threads,
{
    pool.max_threads
}

/// Sets how many workers may run at once. Workers that run go on running.
pub fn set_max_threads(pool: &mut WorkerPool, max_threads: usize)
    ensures
        final(pool)@ == (PoolState { max_threads: max_threads as nat, ..old(pool)@ }),
{
    pool.max_threads = max_threads;
}

/// Asks for a worker for one piece of work. Below the cap the worker is
/// granted and counted; at the cap none is granted and nothing changes: the
/// work is to run in place, without waiting.
pub fn claim_worker(pool: &mut WorkerPool) -> (granted: bool)
    ensures
        granted == (old(pool)@.running_threads < old(pool)@.max_threads),
        final(pool)@.max_threads == old(pool)@.max_threads,
        final(pool)@.running_threads == old(pool)@.running_threads + if granted {
            1nat
        } else {
            0nat
        },
        old(pool)@.within_cap() ==> final(pool)@.within_cap(),
{
    if pool.running_threads < pool.max_threads {
        pool.running_threads = pool.running_threads + 1;
        true
    } else {
        false
    }
}

/// Reports that a granted worker has ended.
pub fn release_worker(pool: &mut WorkerPool)
    ensures
        final(pool)@.max_threads == old(pool)@.max_threads,
        final(pool)@.running_threads == if old(pool)@.running_threads > 0 {
            (old(pool)@.running_threads - 1) as nat
        } else {
            0nat
        },
        old(pool)@.within_cap() ==> final(pool)@.within_cap(),
{
    if pool.running_threads > 0 {
        pool.running_threads = pool.running_threads - 1;
    }
}

/// The number of workers to use where the machine does not say how many it
/// can run at once.
pub const DEFAULT_PARALLELISM: usize = 4;

/// The number of workers that the machine can run at once, from what it
/// answered when asked: the answer where there is one, and
/// [`DEFAULT_PARALLELISM`] where there is none. No worker at all is no
/// answer.
pub fn parallelism_or_default(available: Option<usize>) -> (workers: usize)
    ensures
        workers == match available {
            Some(count) => if count > 0 {
                count
            } else {
                DEFAULT_PARALLELISM
            },
            None => DEFAULT_PARALLELISM,
        },
        workers > 0,
{
    match available {
        Some(count) => if count > 0 {
            count
        } else {
            DEFAULT_PARALLELISM
        },
        None => DEFAULT_PARALLELISM,
    }
}

} // verus!
