use backtester_core::event_queue::EventQueue;

use backtester_core::event::EventKind;
use backtester_core::fixtures;

#[test]
fn test_global_event_queue_orders_by_ts_sim_then_tiebreak() {
    let mut q = EventQueue::new();

    // Mix timestamps and seq values; ordering must be by (ts_sim asc, seq asc).
    q.push(fixtures::event_tick(
        2_000,
        0,
        fixtures::tick_trade(2_000, 2_000, 0),
    ));
    q.push(fixtures::event_tick(
        1_000,
        2,
        fixtures::tick_trade(1_000, 1_000, 2),
    ));
    q.push(fixtures::event_tick(
        1_000,
        1,
        fixtures::tick_trade(1_000, 1_000, 1),
    ));
    q.push(fixtures::event_tick(
        3_000,
        0,
        fixtures::tick_trade(3_000, 3_000, 0),
    ));

    let popped: Vec<(i64, u64)> = (0..4)
        .map(|_| {
            let e = q.pop().expect("event");
            (e.ts_sim(), e.seq())
        })
        .collect();

    assert_eq!(popped, vec![(1_000, 1), (1_000, 2), (2_000, 0), (3_000, 0)]);
}

#[test]
fn test_event_queue_tiebreak_stable() {
    let ts_sim = 1_000;

    // Intentionally push out-of-order seq values; pop must be ordered by seq.
    let e2 = fixtures::event_tick(ts_sim, 2, fixtures::tick_trade(ts_sim, ts_sim, 2));
    let e0 = fixtures::event_tick(ts_sim, 0, fixtures::tick_trade(ts_sim, ts_sim, 0));
    let e1 = fixtures::event_tick(ts_sim, 1, fixtures::tick_trade(ts_sim, ts_sim, 1));

    let mut q = EventQueue::new();
    q.push(e2);
    q.push(e0);
    q.push(e1);

    let popped: Vec<u64> = (0..3).map(|_| q.pop().expect("event").seq()).collect();
    assert_eq!(popped, vec![0, 1, 2]);

    // Smoke: verify kinds are preserved.
    let mut q2 = EventQueue::new();
    q2.push(fixtures::event_tick(10, 0, fixtures::tick_trade(10, 10, 0)));
    match q2.pop().expect("event").kind {
        EventKind::Tick(_) => {}
        other => panic!("expected Tick event, got: {other:?}"),
    }
}

#[test]
fn test_event_ordering_same_ts_sim_uses_stable_tiebreak() {
    let ts_sim = 42;

    let mut q = EventQueue::new();
    q.push(fixtures::event_tick(
        ts_sim,
        2,
        fixtures::tick_trade(ts_sim, ts_sim, 2),
    ));
    q.push(fixtures::event_tick(
        ts_sim,
        0,
        fixtures::tick_trade(ts_sim, ts_sim, 0),
    ));
    q.push(fixtures::event_tick(
        ts_sim,
        1,
        fixtures::tick_trade(ts_sim, ts_sim, 1),
    ));

    let popped: Vec<u64> = (0..3).map(|_| q.pop().expect("event").seq()).collect();
    assert_eq!(popped, vec![0, 1, 2]);
}

#[test]
fn peek_shows_what_pop_returns() {
    let mut q = EventQueue::new();
    assert!(q.peek().is_none());
    for i in 0..20u64 {
        let ts = (i * 7 % 5) as i64;
        q.push(fixtures::event_tick(ts, i % 3, fixtures::tick_trade(ts, ts, i)));
    }
    while !q.is_empty() {
        let shown = *q.peek().expect("event");
        let left = q.len();
        assert_eq!(q.len(), left);
        let gone = q.pop().expect("event");
        assert_eq!(shown.id, gone.id);
        assert_eq!(format!("{:?}", shown.kind), format!("{:?}", gone.kind));
    }
    assert!(q.pop().is_none());
}
