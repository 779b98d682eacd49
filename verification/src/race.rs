//! The failure mode of the unsynchronized strategy.
//!
//! An unguarded increment of a shared counter is two steps: the worker loads
//! the counter, then stores what it loaded plus one. Other workers may run
//! between the two, and their increments are then overwritten. A schedule is
//! the order in which the workers' loads and stores take effect.
//!
//! Whatever the schedule, the counter never exceeds the number of increments
//! made; when every load is followed at once by its store, it equals it.

use vstd::prelude::*;

verus! {

/// One step of one worker on the shared counter.
#[derive(Clone, Copy, Debug, PartialEq, Eq, Structural)]
pub enum RaceEvent {
    /// The worker reads the counter into its register.
    Load(usize),
    /// The worker writes its register plus one to the counter, which
    /// completes one increment.
    Store(usize),
}

/// The shared counter and each worker's register.
pub struct RaceState {
    pub value: int,
    pub registers: Seq<int>,
}

/// The state before any worker has run.
pub open spec fn initial(workers: nat) -> RaceState {
    RaceState { value: 0, registers: Seq::new(workers, |w: int| 0int) }
}

/// The state after `event`. An event of a worker that does not exist changes
/// nothing.
pub open spec fn step(state: RaceState, event: RaceEvent) -> RaceState {
    match event {
        RaceEvent::Load(w) => if w < state.registers.len() {
            RaceState { value: state.value, registers: state.registers.update(w as int, state.value) }
        } else {
            state
        },
        RaceEvent::Store(w) => if w < state.registers.len() {
            RaceState { value: state.registers[w as int] + 1, registers: state.registers }
        } else {
            state
        },
    }
}

/// The state after the whole schedule.
pub open spec fn run(events: Seq<RaceEvent>, workers: nat) -> RaceState
    decreases events.len(),
{
    if events.len() == 0 {
        initial(workers)
    } else {
        step(run(events.drop_last(), workers), events.last())
    }
}

/// `event` completes an increment.
pub open spec fn completes_increment(event: RaceEvent, workers: nat) -> bool {
    event matches RaceEvent::Store(w) && w < workers
}

/// Number of increments the schedule completes: the true count.
pub open spec fn increments(events: Seq<RaceEvent>, workers: nat) -> int
    decreases events.len(),
{
    if events.len() == 0 {
        0
    } else {
        increments(events.drop_last(), workers) + if completes_increment(events.last(), workers) {
            1int
        } else {
            0int
        }
    }
}

/// Every increment is one load followed at once by the same worker's store:
/// what an atomic fetch-and-add or a lock around the increment enforces.
pub open spec fn is_serialized(events: Seq<RaceEvent>, workers: nat) -> bool {
    &&& events.len() % 2 == 0
    &&& forall|k: int|
        0 <= k < events.len() / 2 ==> {
            &&& #[trigger] events[2 * k] matches RaceEvent::Load(w)
            &&& w < workers
            &&& events[2 * k + 1] == RaceEvent::Store(w)
        }
}

/// The counter and every register hold at most the number of increments
/// completed so far.
proof fn lemma_run_bounded(events: Seq<RaceEvent>, workers: nat)
    ensures
        run(events, workers).registers.len() == workers,
        0 <= run(events, workers).value <= increments(events, workers),
        forall|w: int|
            0 <= w < workers ==> 0 <= #[trigger] run(events, workers).registers[w] <= increments(
                events,
                workers,
            ),
    decreases events.len(),
{
    if events.len() > 0 {
        lemma_run_bounded(events.drop_last(), workers);
    }
}

/// Lost updates only ever lose: under any schedule the unsynchronized
/// counter ends at or below the number of increments made.
pub proof fn lemma_unsynchronized_undercounts(events: Seq<RaceEvent>, workers: nat)
    ensures
        0 <= run(events, workers).value <= increments(events, workers),
{
    lemma_run_bounded(events, workers);
}

/// Under a serialized schedule no update is lost: the counter ends at
/// exactly the number of increments made.
pub proof fn lemma_serialized_is_exact(events: Seq<RaceEvent>, workers: nat)
    requires
        is_serialized(events, workers),
    ensures
        run(events, workers).value == increments(events, workers),
        increments(events, workers) == events.len() / 2,
    decreases events.len(),
{
    if events.len() > 0 {
        let shorter = events.drop_last().drop_last();
        let last = events.len() / 2 - 1;
        assert(events[2 * last] matches RaceEvent::Load(w) && w < workers && events[2 * last + 1]
            == RaceEvent::Store(w));
        assert(is_serialized(shorter, workers)) by {
            assert forall|k: int| 0 <= k < shorter.len() / 2 implies {
                &&& #[trigger] shorter[2 * k] matches RaceEvent::Load(w)
                &&& w < workers
                &&& shorter[2 * k + 1] == RaceEvent::Store(w)
            } by {
                assert(shorter[2 * k] == events[2 * k]);
                assert(shorter[2 * k + 1] == events[2 * k + 1]);
            }
        }
        lemma_serialized_is_exact(shorter, workers);
        lemma_run_bounded(shorter, workers);
        let middle = events.drop_last();
        assert(middle.last() == events[2 * last]);
        assert(events.last() == events[2 * last + 1]);
        assert(run(middle, workers) == step(run(shorter, workers), middle.last()));
        assert(run(events, workers) == step(run(middle, workers), events.last()));
        assert(increments(middle, workers) == increments(shorter, workers));
        assert(increments(events, workers) == increments(middle, workers) + 1);
    }
}

/// Replays a schedule on a fresh counter shared by `workers` workers and
/// gives the counter's final value.
pub fn replay(events: &Vec<RaceEvent>, workers: usize) -> (value: usize)
    ensures
        value == run(events@, workers as nat).value,
        value <= increments(events@, workers as nat),
{
    let mut registers: Vec<usize> = Vec::new();
    let mut w: usize = 0;
    while w < workers
        invariant
            w <= workers,
            registers@.len() == w,
            forall|k: int| 0 <= k < w ==> registers@[k] == 0,
        decreases workers - w,
    {
        registers.push(0);
        w = w + 1;
    }
    let mut value: usize = 0;
    let mut i: usize = 0;
    assert(events@.take(0) =~= Seq::<RaceEvent>::empty());
    assert(run(events@.take(0), workers as nat).registers =~= registers@.map_values(
        |r: usize| r as int,
    ));
    while i < events.len()
        invariant
            i <= events@.len(),
            registers@.len() == workers,
            value == run(events@.take(i as int), workers as nat).value,
            run(events@.take(i as int), workers as nat).registers == registers@.map_values(
                |r: usize| r as int,
            ),
        decreases events@.len() - i,
    {
        proof {
            let before = events@.take(i as int);
            lemma_run_bounded(before, workers as nat);
            assert(increments(before, workers as nat) <= i) by {
                lemma_increments_at_most_len(before, workers as nat);
            }
            assert(events@.take(i + 1).drop_last() =~= before);
            assert(events@.take(i + 1).last() == events@[i as int]);
        }
        match events[i] {
            RaceEvent::Load(worker) => {
                if worker < workers {
                    registers.set(worker, value);
                }
            },
            RaceEvent::Store(worker) => {
                if worker < workers {
                    assert(registers@[worker as int] == registers@.map_values(
                        |r: usize| r as int,
                    )[worker as int]);
                    value = registers[worker] + 1;
                }
            },
        }
        i = i + 1;
        assert(run(events@.take(i as int), workers as nat).registers =~= registers@.map_values(
            |r: usize| r as int,
        ));
    }
    assert(events@.take(events@.len() as int) =~= events@);
    proof {
        lemma_run_bounded(events@, workers as nat);
    }
    value
}

/// A schedule completes at most one increment per event.
proof fn lemma_increments_at_most_len(events: Seq<RaceEvent>, workers: nat)
    ensures
        0 <= increments(events, workers) <= events.len(),
    decreases events.len(),
{
    if events.len() > 0 {
        lemma_increments_at_most_len(events.drop_last(), workers);
    }
}

} // verus!
