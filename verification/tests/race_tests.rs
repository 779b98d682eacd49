use concurrent_batch::race::{replay, RaceEvent};

#[test]
fn serialized_increments_are_all_counted() {
    let mut events: Vec<RaceEvent> = Vec::new();
    for round in 0..50usize {
        let worker: usize = round % 4;
        events.push(RaceEvent::Load(worker));
        events.push(RaceEvent::Store(worker));
    }
    assert_eq!(replay(&events, 4), 50);
}

#[test]
fn interleaved_increments_lose_an_update() {
    let events = vec![
        RaceEvent::Load(0),
        RaceEvent::Load(1),
        RaceEvent::Store(0),
        RaceEvent::Store(1),
    ];
    assert_eq!(replay(&events, 2), 1);
}

#[test]
fn a_stale_store_can_undo_many_increments() {
    let mut events: Vec<RaceEvent> = vec![RaceEvent::Load(0)];
    for _ in 0..5 {
        events.push(RaceEvent::Load(1));
        events.push(RaceEvent::Store(1));
    }
    assert_eq!(replay(&events, 2), 5);
    events.push(RaceEvent::Store(0));
    assert_eq!(replay(&events, 2), 1);
}

#[test]
fn racy_count_never_exceeds_the_true_count() {
    // Every worker loads first, then every worker stores: per round only one
    // of the increments survives.
    let workers: usize = 100;
    let rounds: usize = 100;
    let mut events: Vec<RaceEvent> = Vec::new();
    for _ in 0..rounds {
        for w in 0..workers {
            events.push(RaceEvent::Load(w));
        }
        for w in 0..workers {
            events.push(RaceEvent::Store(w));
        }
    }
    let stores: usize = events.iter().filter(|e| matches!(e, RaceEvent::Store(_))).count();
    assert_eq!(stores, 10_000);
    let value: usize = replay(&events, workers);
    assert!(value <= stores);
    assert!(value < stores);
    assert_eq!(value, rounds);
}

#[test]
fn events_of_unknown_workers_change_nothing() {
    let events = vec![
        RaceEvent::Load(0),
        RaceEvent::Store(0),
        RaceEvent::Load(9),
        RaceEvent::Store(9),
    ];
    assert_eq!(replay(&events, 1), 1);
    assert_eq!(replay(&events, 0), 0);
    assert_eq!(replay(&Vec::new(), 3), 0);
}

#[test]
fn store_without_a_load_writes_one() {
    assert_eq!(replay(&vec![RaceEvent::Store(0)], 1), 1);
    assert_eq!(replay(&vec![RaceEvent::Store(0), RaceEvent::Store(0)], 1), 1);
}
