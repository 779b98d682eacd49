//! The predicate evaluator: a deliberately naive primality test by trial
//! division. It is pure and total, so any number of workers may apply it to
//! their own items at the same time.

use vstd::prelude::*;

verus! {

/// `d` divides `n` without remainder.
pub open spec fn divides(d: int, n: int) -> bool {
    d != 0 && n % d == 0
}

/// `n` has no divisor `d` with `lo <= d < hi`.
pub open spec fn no_divisor_in(n: int, lo: int, hi: int) -> bool {
    forall|d: int| lo <= d < hi ==> !#[trigger] divides(d, n)
}

/// `n` is a prime number: at least 2, and divisible by nothing strictly
/// between 1 and itself.
pub open spec fn is_prime_spec(n: int) -> bool {
    n >= 2 && no_divisor_in(n, 2, n)
}

/// The outcome of evaluating the predicate on one item.
#[derive(Clone, Copy, Debug, PartialEq, Eq, Structural)]
pub struct Verdict {
    pub item: usize,
    pub holds: bool,
}

impl Verdict {
    /// The verdict is the one the predicate gives for its item.
    pub open spec fn is_correct(self) -> bool {
        self.holds == is_prime_spec(self.item as int)
    }
}

/// Tests `n` for primality by trying every candidate divisor below it.
pub fn is_prime(n: usize) -> (verdict: bool)
    ensures
        verdict == is_prime_spec(n as int),
{
    if n <= 1 {
        return false;
    }
    let mut div: usize = 2;
    while div < n
        invariant
            2 <= div <= n,
            no_divisor_in(n as int, 2, div as int),
        decreases n - div,
    {
        if n % div == 0 {
            assert(divides(div as int, n as int));
            return false;
        }
        div = div + 1;
    }
    true
}

/// Evaluates the predicate on `item` and pairs the item with the outcome.
pub fn evaluate(item: usize) -> (verdict: Verdict)
    ensures
        verdict.item == item,
        verdict.is_correct(),
{
    Verdict { item, holds: is_prime(item) }
}

} // verus!
