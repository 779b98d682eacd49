//! A unit of cooperative work: the primality test as a task that gives
//! control back to its scheduler after a bounded number of trial divisions.
//!
//! A scheduler resumes the task until it completes. Between two resumptions
//! the task tries at most [`YIELD_INTERVAL`] divisors, so one expensive item
//! cannot starve the units that share its executor.

use crate::predicate::{divides, is_prime_spec, no_divisor_in, Verdict};
use vstd::prelude::*;

verus! {

/// A task yields after it has tried a divisor that is a multiple of this.
pub const YIELD_INTERVAL: usize = 1000;

/// `m` is a multiple of the yield interval.
pub open spec fn on_interval(m: int) -> bool {
    m % (YIELD_INTERVAL as int) == 0
}

/// The first multiple of the yield interval that is not below `from`.
pub open spec fn yield_point(from: int) -> int {
    ((from + YIELD_INTERVAL - 1) / (YIELD_INTERVAL as int)) * YIELD_INTERVAL
}

/// The divisor at which the trial division of `n >= 2` stops: its least
/// divisor above 1, which is `n` itself when `n` is prime.
pub open spec fn stopping_divisor(n: int) -> int {
    choose|d: int| 2 <= d <= n && divides(d, n) && no_divisor_in(n, 2, d)
}

/// Number of times the task for `n` yields before it completes: once for
/// every multiple of the yield interval below the divisor at which it stops.
pub open spec fn yields_before_completion(n: int) -> int {
    if n <= 1 {
        0
    } else {
        (stopping_divisor(n) - 1) / (YIELD_INTERVAL as int)
    }
}

/// What a resumed task reports when it hands control back.
#[derive(Clone, Copy, Debug, PartialEq, Eq, Structural)]
pub enum TaskStep {
    /// The task is not done; it asks to be resumed later.
    Yielded,
    /// The task is done, with this verdict.
    Completed(Verdict),
}

/// The trial division of one item, suspended between two divisors.
#[derive(Clone, Copy, Debug)]
pub struct PrimeTask {
    n: usize,
    next: usize,
}

impl PrimeTask {
    /// The item under test.
    pub closed spec fn item(self) -> int {
        self.n as int
    }

    /// The next divisor the task will try.
    pub closed spec fn next_divisor(self) -> int {
        self.next as int
    }

    /// Every divisor below the next one has been tried and has failed.
    pub closed spec fn wf(self) -> bool {
        &&& 2 <= self.next
        &&& self.n >= 2 ==> self.next <= self.n
        &&& no_divisor_in(self.n as int, 2, self.next as int)
    }

    /// The task will yield when resumed, rather than complete: the next yield
    /// point lies below the item, and no divisor up to it divides the item.
    pub open spec fn will_yield(self) -> bool {
        &&& self.item() >= 2
        &&& yield_point(self.next_divisor()) < self.item()
        &&& no_divisor_in(self.item(), self.next_divisor(), yield_point(self.next_divisor()) + 1)
    }

    /// A task for `n` that has not run yet.
    pub fn new(n: usize) -> (task: PrimeTask)
        ensures
            task.wf(),
            task.item() == n,
            task.next_divisor() == 2,
    {
        PrimeTask { n, next: 2 }
    }

    /// The item under test.
    pub fn subject(&self) -> (n: usize)
        ensures
            n == self.item(),
    {
        self.n
    }

    /// Runs the task until it yields or completes. It yields right after
    /// trying the next multiple of the yield interval, unless the item turns
    /// out composite or runs out of divisors before that.
    pub fn resume(&mut self) -> (step: TaskStep)
        requires
            old(self).wf(),
        ensures
            final(self).wf(),
            final(self).item() == old(self).item(),
            old(self).next_divisor() <= final(self).next_divisor(),
            final(self).next_divisor() - old(self).next_divisor() <= YIELD_INTERVAL,
            step is Yielded <==> old(self).will_yield(),
            step is Yielded ==> final(self).next_divisor() == yield_point(
                old(self).next_divisor(),
            ) + 1,
            step matches TaskStep::Completed(verdict) ==> verdict.item == old(self).item()
                && verdict.is_correct(),
    {
        let n = self.n;
        if n <= 1 {
            return TaskStep::Completed(Verdict { item: n, holds: false });
        }
        let ghost start = self.next as int;
        proof {
            lemma_yield_point(start);
        }
        while self.next < n
            invariant
                self.n == n,
                old(self).n == n,
                old(self).next == start,
                n >= 2,
                2 <= start <= self.next <= n,
                self.next <= yield_point(start),
                no_divisor_in(n as int, 2, self.next as int),
                start <= yield_point(start) < start + YIELD_INTERVAL,
                on_interval(yield_point(start)),
                forall|m: int| start <= m < yield_point(start) ==> !#[trigger] on_interval(m),
            decreases n - self.next,
        {
            let div = self.next;
            if n % div == 0 {
                assert(divides(div as int, n as int));
                return TaskStep::Completed(Verdict { item: n, holds: false });
            }
            self.next = div + 1;
            if div % YIELD_INTERVAL == 0 {
                assert(on_interval(div as int));
                assert(div == yield_point(start));
                return TaskStep::Yielded;
            }
        }
        TaskStep::Completed(Verdict { item: n, holds: true })
    }
}

/// The yield point of `from` is the one multiple of the interval in
/// `[from, from + YIELD_INTERVAL)`.
pub proof fn lemma_yield_point(from: int)
    requires
        0 <= from,
    ensures
        from <= yield_point(from) < from + YIELD_INTERVAL,
        on_interval(yield_point(from)),
        forall|m: int| from <= m < yield_point(from) ==> !#[trigger] on_interval(m),
{
    let k = (from + 999) / 1000;
    assert(yield_point(from) == k * 1000);
    assert forall|m: int| from <= m < yield_point(from) implies !#[trigger] on_interval(m) by {
        if on_interval(m) {
            let j = m / 1000;
            assert(m == j * 1000);
            assert(j < k);
            assert(j * 1000 <= (k - 1) * 1000);
            assert(false);
        }
    }
}

/// Some divisor of `n` at or above `lo` is its least divisor above 1, given
/// that none below `lo` divides it.
proof fn lemma_least_divisor_exists(n: int, lo: int)
    requires
        2 <= lo <= n,
        no_divisor_in(n, 2, lo),
    ensures
        exists|d: int| 2 <= d <= n && divides(d, n) && no_divisor_in(n, 2, d),
    decreases n - lo,
{
    if divides(lo, n) {
        assert(2 <= lo <= n && divides(lo, n) && no_divisor_in(n, 2, lo));
    } else {
        assert(lo < n) by {
            assert(divides(n, n)) by {
                vstd::arithmetic::div_mod::lemma_mod_self_0(n);
            }
        }
        lemma_least_divisor_exists(n, lo + 1);
    }
}

/// The stopping divisor of `n >= 2` is its least divisor above 1; it is `n`
/// itself exactly when `n` is prime.
pub proof fn lemma_stopping_divisor(n: int)
    requires
        n >= 2,
    ensures
        2 <= stopping_divisor(n) <= n,
        divides(stopping_divisor(n), n),
        no_divisor_in(n, 2, stopping_divisor(n)),
        is_prime_spec(n) <==> stopping_divisor(n) == n,
{
    lemma_least_divisor_exists(n, 2);
}

/// What running a task to its end gives: the verdict, and how often the task
/// gave control back before it completed.
#[derive(Clone, Copy, Debug, PartialEq, Eq, Structural)]
pub struct TaskSummary {
    pub verdict: Verdict,
    pub yields: usize,
}

/// Resumes a fresh task for `n` until it completes, and counts its yields.
/// This is what a scheduler does for one unit, with the other units' turns
/// left out.
pub fn run_to_completion(n: usize) -> (summary: TaskSummary)
    ensures
        summary.verdict.item == n,
        summary.verdict.is_correct(),
        summary.yields == yields_before_completion(n as int),
{
    let mut task = PrimeTask::new(n);
    let mut yields: usize = 0;
    loop
        invariant
            task.wf(),
            task.n == n,
            task.next == 2 || on_interval(task.next - 1),
            yields == (task.next - 1) / (YIELD_INTERVAL as int),
            n <= 1 ==> yields == 0,
        decreases usize::MAX - task.next,
    {
        let ghost before = task;
        proof {
            lemma_yield_point(before.next as int);
            if n >= 2 {
                lemma_stopping_divisor(n as int);
            }
        }
        match task.resume() {
            TaskStep::Completed(verdict) => {
                proof {
                    if n >= 2 {
                        let d = stopping_divisor(n as int);
                        let point = yield_point(before.next as int);
                        assert(before.next <= d);
                        assert(d <= point) by {
                            if point < n {
                                let e = choose|e: int|
                                    before.next <= e < point + 1 && divides(e, n as int);
                                assert(!(e < d));
                            }
                        }
                        let k = (before.next - 1) / 1000;
                        if before.next == 2 {
                            assert(point == 1000);
                        } else {
                            assert(before.next - 1 == 1000 * k);
                            assert(point == 1000 * (k + 1));
                        }
                        assert((d - 1) / 1000 == k);
                    }
                }
                return TaskSummary { verdict, yields };
            },
            TaskStep::Yielded => {
                yields = yields + 1;
            },
        }
    }
}

/// One fresh task per item, in the order of the items.
pub fn spawn_all(items: &Vec<usize>) -> (tasks: Vec<PrimeTask>)
    ensures
        tasks@.len() == items@.len(),
        forall|i: int|
            0 <= i < items@.len() ==> {
                &&& (#[trigger] tasks@[i]).wf()
                &&& tasks@[i].item() == items@[i]
                &&& tasks@[i].next_divisor() == 2
            },
{
    let mut tasks: Vec<PrimeTask> = Vec::new();
    let mut i: usize = 0;
    while i < items.len()
        invariant
            i <= items@.len(),
            tasks@.len() == i,
            forall|k: int|
                0 <= k < i ==> {
                    &&& (#[trigger] tasks@[k]).wf()
                    &&& tasks@[k].item() == items@[k]
                    &&& tasks@[k].next_divisor() == 2
                },
        decreases items@.len() - i,
    {
        tasks.push(PrimeTask::new(items[i]));
        i = i + 1;
    }
    tasks
}

} // verus!
