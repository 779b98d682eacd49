//! Planning a batch: which strategy aggregates the results, how many workers
//! there are, and which chunk each of them gets.
//!
//! Starting the workers is the caller's business. The plan tells it what to
//! hand to each worker; the worker routine and the merge are in
//! [`crate::aggregate`].

use crate::aggregate::matching;
use crate::partition::{domain, is_partition_of, partition, range_seq, shuffled, views, ConfigError};
use rayon::iter::{IntoParallelRefIterator, ParallelIterator};
use vstd::prelude::*;

verus! {

/// How the workers' results reach the aggregate.
#[derive(Clone, Copy, Debug, PartialEq, Eq, Structural)]
pub enum Strategy {
    /// Every worker updates one shared counter without any guard. Updates
    /// can be lost, so the final count may fall short of the true one.
    Unsynchronized,
    /// Every worker adds to one shared atomic counter, once per matching item.
    Atomic,
    /// Every worker appends to one shared collection under an exclusive lock.
    Mutex,
    /// Every worker fills a collection of its own; they are merged after the
    /// workers have been joined.
    WorkerLocal,
    /// A work-stealing pool filters the domain; the caller manages no worker.
    DataParallel,
}

impl Strategy {
    /// The strategy gathers exactly the matching items.
    pub open spec fn is_sound(self) -> bool {
        self != Strategy::Unsynchronized
    }

    /// Tells whether the strategy gathers exactly the matching items.
    pub fn sound(&self) -> (sound: bool)
        ensures
            sound == self.is_sound(),
    {
        match self {
            Strategy::Unsynchronized => false,
            _ => true,
        }
    }
}

impl Default for Strategy {
    /// Worker-local accumulation: sound, and free of contention.
    fn default() -> (strategy: Strategy)
        ensures
            strategy == Strategy::WorkerLocal,
            strategy.is_sound(),
    {
        Strategy::WorkerLocal
    }
}

/// What to hand to the workers: one chunk each.
pub struct BatchPlan {
    pub strategy: Strategy,
    pub chunks: Vec<Vec<usize>>,
}

impl BatchPlan {
    /// The plan is the partition of the domain `[0, domain_size)` for
    /// `worker_count` workers under `strategy`.
    pub open spec fn is_plan_for(
        self,
        domain_size: usize,
        strategy: Strategy,
        worker_count: usize,
        shuffle: bool,
    ) -> bool {
        &&& self.strategy == strategy
        &&& is_partition_of(
            views(self.chunks@),
            range_seq(domain_size as int),
            worker_count as int,
            shuffle,
        )
    }
}

/// Plans a batch over `[0, domain_size)` under any strategy, the
/// unsynchronized one included. Calling this function is the opt-in to that
/// strategy. A request for no workers is rejected.
pub fn plan_batch_unchecked(
    domain_size: usize,
    strategy: Strategy,
    worker_count: usize,
    shuffle: bool,
) -> (outcome: Result<BatchPlan, ConfigError>)
    ensures
        worker_count == 0 ==> outcome is Err && outcome->Err_0 == ConfigError::ZeroWorkers,
        worker_count > 0 ==> outcome is Ok && outcome->Ok_0.is_plan_for(
            domain_size,
            strategy,
            worker_count,
            shuffle,
        ),
{
    if worker_count == 0 {
        return Err(ConfigError::ZeroWorkers);
    }
    let items = domain(domain_size);
    match partition(&items, worker_count, shuffle) {
        Ok(chunks) => Ok(BatchPlan { strategy, chunks }),
        Err(error) => Err(error),
    }
}

/// Plans a batch over `[0, domain_size)` under a sound strategy. Rejects a
/// request for no workers, and then the unsynchronized strategy.
pub fn plan_batch(domain_size: usize, strategy: Strategy, worker_count: usize, shuffle: bool) -> (outcome:
    Result<BatchPlan, ConfigError>)
    ensures
        worker_count == 0 ==> outcome is Err && outcome->Err_0 == ConfigError::ZeroWorkers,
        worker_count > 0 && !strategy.is_sound() ==> outcome is Err && outcome->Err_0
            == ConfigError::UnsoundStrategy,
        worker_count > 0 && strategy.is_sound() ==> outcome is Ok && outcome->Ok_0.is_plan_for(
            domain_size,
            strategy,
            worker_count,
            shuffle,
        ),
{
    if worker_count == 0 {
        return Err(ConfigError::ZeroWorkers);
    }
    if !strategy.sound() {
        return Err(ConfigError::UnsoundStrategy);
    }
    plan_batch_unchecked(domain_size, strategy, worker_count, shuffle)
}

/// Calls `num_cpus::get`, the number of logical cores available to this
/// process. Its documentation promises at least one; the number itself
/// depends on the machine.
#[verifier::external_body]
fn logical_cores() -> (cores: usize)
    ensures
        cores >= 1,
{
    num_cpus::get()
}

/// The worker count to use when the caller has no preference: one worker per
/// logical core, and never fewer than one.
pub fn default_worker_count() -> (worker_count: usize)
    ensures
        worker_count >= 1,
{
    logical_cores()
}

/// Runs rayon's `par_iter().filter(..).map(..).collect()` over the domain
/// with the predicate as the filter. Rayon promises a fresh collection of
/// all the items that the filter let through; in which order the pool
/// delivers them is left open here.
#[verifier::external_body]
fn par_filter_collect(items: &Vec<usize>) -> (found: Vec<usize>)
    ensures
        found@.to_multiset() == matching(items@).to_multiset(),
{
    items.par_iter().filter(|item| crate::predicate::is_prime(**item)).map(|item| *item).collect()
}

/// The data-parallel engine: the items of `items` on which the predicate
/// holds, found by a work-stealing pool. The result holds the same items as
/// the single-threaded pass, each as often; their order is not promised.
pub fn parallel_filter(items: &Vec<usize>) -> (found: Vec<usize>)
    ensures
        found@.to_multiset() == matching(items@).to_multiset(),
        found@.len() == matching(items@).len(),
        found@.to_set() == matching(items@).to_set(),
{
    let found = par_filter_collect(items);
    proof {
        crate::equivalence::lemma_same_items(found@, matching(items@));
    }
    found
}

/// A whole batch under the data-parallel strategy: builds the domain
/// `[0, domain_size)`, permutes it if asked to, and filters it on the pool.
pub fn run_data_parallel(domain_size: usize, shuffle: bool) -> (found: Vec<usize>)
    ensures
        found@.to_multiset() == matching(range_seq(domain_size as int)).to_multiset(),
        found@.len() == matching(range_seq(domain_size as int)).len(),
        found@.to_set() == matching(range_seq(domain_size as int)).to_set(),
{
    let items = domain(domain_size);
    if shuffle {
        let arranged = shuffled(&items);
        let found = parallel_filter(&arranged);
        proof {
            crate::equivalence::lemma_matching_permutation(arranged@, items@);
            crate::equivalence::lemma_same_items(found@, matching(items@));
        }
        found
    } else {
        parallel_filter(&items)
    }
}

/// The single-threaded baseline: one pass over `[0, domain_size)`.
pub fn run_sequential(domain_size: usize) -> (found: Vec<usize>)
    ensures
        found@ == matching(range_seq(domain_size as int)),
{
    let items = domain(domain_size);
    crate::aggregate::filter_chunk(&items)
}

} // verus!
