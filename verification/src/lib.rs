//! Coordination patterns for a CPU-bound batch evaluation.
//!
//! A batch evaluates a total predicate on every item of a domain `[0, N)`
//! and gathers the items on which it holds. The interest lies in how the
//! work is cut up, how the workers' results come together, and how data
//! passes between a preemptive and a cooperative scheduling domain.
//!
//! - [`predicate`]: the predicate, a primality test by trial division.
//! - [`partition`]: one contiguous chunk of the domain per worker.
//! - [`aggregate`]: the worker routine and the gathering of its reports.
//! - [`batch`]: strategies, the plan of a batch, the data-parallel engine.
//! - [`equivalence`]: every sound strategy agrees with a single pass.
//! - [`race`]: what the unsynchronized strategy loses, and why never more.
//! - [`coop`]: the predicate as a task that yields to its scheduler.
//! - [`bridge`]: a typed channel between the two scheduling domains.
//! - [`protocol`]: what crosses a well-behaved bridge arrives once, in order.

pub mod aggregate;
pub mod batch;
pub mod bridge;
pub mod coop;
pub mod equivalence;
pub mod partition;
pub mod predicate;
pub mod protocol;
pub mod race;
