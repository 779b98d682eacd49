//! Aggregation of the workers' results.
//!
//! Each worker evaluates the predicate on the items of its own chunk and
//! reports the items on which it holds. The reports reach the aggregate one
//! at a time: under a lock in the order in which the workers finish, or after
//! a join in the order in which they were started. Whatever that order, the
//! aggregate ends up with the items a single-threaded pass would find.

use crate::partition::views;
use crate::predicate::{is_prime, is_prime_spec, Verdict};
use vstd::prelude::*;

verus! {

/// The predicate, as a function on items.
pub open spec fn predicate() -> spec_fn(usize) -> bool {
    |item: usize| is_prime_spec(item as int)
}

/// The items of `items` on which the predicate holds, in their order.
pub open spec fn matching(items: Seq<usize>) -> Seq<usize> {
    items.filter(predicate())
}

/// What each worker reports for its chunk.
pub open spec fn reports_of(chunks: Seq<Seq<usize>>) -> Seq<Seq<usize>> {
    Seq::new(chunks.len(), |i: int| matching(chunks[i]))
}

/// The worker routine: the items of `chunk` on which the predicate holds, in
/// the order in which the chunk holds them.
pub fn filter_chunk(chunk: &Vec<usize>) -> (local: Vec<usize>)
    ensures
        local@ == matching(chunk@),
{
    let mut local: Vec<usize> = Vec::new();
    let mut i: usize = 0;
    assert(chunk@.take(0) =~= Seq::<usize>::empty());
    assert(matching(Seq::<usize>::empty()) =~= Seq::<usize>::empty()) by {
        reveal(Seq::filter);
    }
    while i < chunk.len()
        invariant
            i <= chunk@.len(),
            local@ == matching(chunk@.take(i as int)),
        decreases chunk@.len() - i,
    {
        let item = chunk[i];
        proof {
            assert(chunk@.take(i + 1) =~= chunk@.take(i as int).push(item));
            chunk@.take(i as int).lemma_filter_push(item, predicate());
        }
        if is_prime(item) {
            local.push(item);
        }
        i = i + 1;
    }
    assert(chunk@.take(chunk@.len() as int) =~= chunk@);
    local
}

/// Counts the items of `chunk` on which the predicate holds: the number of
/// increments a worker makes on a shared counter.
pub fn count_chunk(chunk: &Vec<usize>) -> (count: usize)
    ensures
        count == matching(chunk@).len(),
{
    let mut count: usize = 0;
    let mut i: usize = 0;
    assert(chunk@.take(0) =~= Seq::<usize>::empty());
    assert(matching(Seq::<usize>::empty()) =~= Seq::<usize>::empty()) by {
        reveal(Seq::filter);
    }
    while i < chunk.len()
        invariant
            i <= chunk@.len(),
            count == matching(chunk@.take(i as int)).len(),
            count <= i,
        decreases chunk@.len() - i,
    {
        let item = chunk[i];
        proof {
            assert(chunk@.take(i + 1) =~= chunk@.take(i as int).push(item));
            chunk@.take(i as int).lemma_filter_push(item, predicate());
        }
        if is_prime(item) {
            count = count + 1;
        }
        i = i + 1;
    }
    assert(chunk@.take(chunk@.len() as int) =~= chunk@);
    count
}

/// The growing collection of items on which the predicate held. It starts
/// empty and only ever grows at its end.
pub struct Aggregate {
    items: Vec<usize>,
}

impl View for Aggregate {
    type V = Seq<usize>;

    closed spec fn view(&self) -> Seq<usize> {
        self.items@
    }
}

impl Aggregate {
    /// An empty aggregate.
    pub fn new() -> (aggregate: Aggregate)
        ensures
            aggregate@ == Seq::<usize>::empty(),
    {
        Aggregate { items: Vec::new() }
    }

    /// Number of items gathered so far.
    pub fn len(&self) -> (n: usize)
        ensures
            n == self@.len(),
    {
        self.items.len()
    }

    /// Records the outcome for one item, which is kept if the predicate held on it.
    pub fn record(&mut self, verdict: Verdict)
        ensures
            final(self)@ == if verdict.holds {
                old(self)@.push(verdict.item)
            } else {
                old(self)@
            },
    {
        if verdict.holds {
            self.items.push(verdict.item);
        }
    }

    /// Appends one worker's report, keeping its order.
    pub fn absorb(&mut self, report: &Vec<usize>)
        ensures
            final(self)@ == old(self)@ + report@,
    {
        let mut i: usize = 0;
        assert(self@ =~= old(self)@ + report@.take(0));
        while i < report.len()
            invariant
                i <= report@.len(),
                self@ == old(self)@ + report@.take(i as int),
            decreases report@.len() - i,
        {
            self.items.push(report[i]);
            i = i + 1;
            assert(self@ =~= old(self)@ + report@.take(i as int));
        }
        assert(report@.take(report@.len() as int) =~= report@);
    }

    /// Freezes the aggregate and hands out its items.
    pub fn into_items(self) -> (items: Vec<usize>)
        ensures
            items@ == self@,
    {
        self.items
    }
}

/// Concatenates the workers' reports in the order given.
pub fn merge(reports: &Vec<Vec<usize>>) -> (merged: Vec<usize>)
    ensures
        merged@ == views(reports@).flatten(),
{
    let mut aggregate = Aggregate::new();
    let mut i: usize = 0;
    assert(views(reports@).take(0) =~= Seq::<Seq<usize>>::empty());
    while i < reports.len()
        invariant
            i <= reports@.len(),
            aggregate@ == views(reports@).take(i as int).flatten(),
        decreases reports@.len() - i,
    {
        proof {
            let before = views(reports@).take(i as int);
            assert(views(reports@).take(i + 1) =~= before.push(reports@[i as int]@));
            before.lemma_flatten_push(reports@[i as int]@);
        }
        aggregate.absorb(&reports[i]);
        i = i + 1;
    }
    assert(views(reports@).take(reports@.len() as int) =~= views(reports@));
    aggregate.into_items()
}

} // verus!
