use pipeline_core::executor::Outcome;
use pipeline_core::plan::{build, execute, PlanError, PlanNode};
use pipeline_core::processor::{Edge, OpKind, Pred};

fn source(rows: Vec<u64>) -> PlanNode {
    PlanNode { op: OpKind::Source { rows }, deps: vec![] }
}

fn filter(dep: usize, pred: Pred, fail_on: Option<u64>) -> PlanNode {
    PlanNode { op: OpKind::Filter { pred, fail_on }, deps: vec![dep] }
}

fn sink(dep: usize) -> PlanNode {
    PlanNode { op: OpKind::Sink, deps: vec![dep] }
}

#[test]
fn linear_pipeline_keeps_even_rows_in_order() {
    let rows: Vec<u64> = (0..100).collect();
    let plan = vec![source(rows), filter(0, Pred::KeepEven, None), sink(1)];
    let (_g, out) = execute(plan, 1, 100_000).unwrap();
    match out {
        Outcome::Completed { streams } => {
            let expected: Vec<u64> = (0..100).filter(|x| x % 2 == 0).collect();
            assert_eq!(streams[2], expected);
            assert_eq!(streams[2].len(), 50);
            assert!(streams[0].is_empty());
            assert!(streams[1].is_empty());
        }
        other => panic!("expected completion, got {:?}", other),
    }
}

#[test]
fn fan_out_merge_neither_duplicates_nor_drops() {
    let n: u64 = 40;
    let rows: Vec<u64> = (0..n).collect();
    let plan = vec![
        source(rows),
        PlanNode { op: OpKind::Split, deps: vec![0] },
        filter(1, Pred::KeepEven, None),
        filter(1, Pred::KeepOdd, None),
        PlanNode { op: OpKind::Merge, deps: vec![2, 3] },
        sink(4),
    ];
    let (_g, out) = execute(plan, 2, 100_000).unwrap();
    match out {
        Outcome::Completed { streams } => {
            let mut got = streams[5].clone();
            got.sort();
            let expected: Vec<u64> = (0..n).collect();
            assert_eq!(got, expected);
        }
        other => panic!("expected completion, got {:?}", other),
    }
}

#[test]
fn error_mid_stream_cancels_everything_and_reports_the_failure() {
    let rows: Vec<u64> = (0..10).collect();
    let plan = vec![source(rows), filter(0, Pred::KeepAll, Some(5)), sink(1)];
    let (g, out) = execute(plan, 1, 100_000).unwrap();
    match out {
        Outcome::Failed { proc } => {
            assert_eq!(proc, 1);
        }
        other => panic!("expected failure, got {:?}", other),
    }
    assert_eq!(g.failed, Some(1));
    // Every processor reached a terminal state; no further rows flow.
    for st in &g.status {
        assert!(!matches!(st, pipeline_core::processor::Status::Active));
    }
    // The sink saw only rows from before the failing one.
    for (s, item) in &g.collected {
        assert_eq!(*s, 2);
        assert!(*item < 5);
    }
}

#[test]
fn cancellation_fires_while_async_stage_is_mid_flight() {
    let plan = vec![
        source(vec![7]),
        PlanNode { op: OpKind::AsyncMap, deps: vec![0] },
        sink(1),
    ];
    let (g, out) = execute(plan, 1, 2).unwrap();
    assert!(matches!(out, Outcome::Cancelled));
    assert!(g.cancelled);
    assert_eq!(g.failed, None);
    // The asynchronous operation was in flight when the trigger fired.
    assert!(matches!(
        g.aslot[1],
        pipeline_core::processor::AsyncSlot::Held(7)
    ));
}

#[test]
fn async_stage_completes_when_given_time() {
    let plan = vec![
        source(vec![3, 4, 5]),
        PlanNode { op: OpKind::AsyncMap, deps: vec![0] },
        sink(1),
    ];
    let (_g, out) = execute(plan, 2, 100_000).unwrap();
    match out {
        Outcome::Completed { streams } => {
            assert_eq!(streams[2], vec![3, 4, 5]);
        }
        other => panic!("expected completion, got {:?}", other),
    }
}

#[test]
fn cancellation_is_idempotent_and_harmless_after_completion() {
    let plan = vec![source(vec![1, 2]), sink(0)];
    let (mut g, out) = execute(plan, 1, 100_000).unwrap();
    assert!(matches!(out, Outcome::Completed { .. }));
    let status_before = g.status.clone();
    // Cancelling after natural completion changes no status.
    g.cancel();
    assert_eq!(g.status, status_before);
    assert!(g.cancelled);
    // Cancelling twice has no additional effect.
    let snapshot = g.status.clone();
    let collected = g.collected.clone();
    g.cancel();
    assert_eq!(g.status, snapshot);
    assert_eq!(g.collected, collected);
    assert!(g.cancelled);
}

#[test]
fn merge_forwards_every_row_from_both_sources() {
    let plan = vec![
        source(vec![1, 3, 5]),
        source(vec![2, 4, 6]),
        PlanNode { op: OpKind::Merge, deps: vec![0, 1] },
        sink(2),
    ];
    let (_g, out) = execute(plan, 3, 100_000).unwrap();
    match out {
        Outcome::Completed { streams } => {
            let mut got = streams[3].clone();
            got.sort();
            assert_eq!(got, vec![1, 2, 3, 4, 5, 6]);
        }
        other => panic!("expected completion, got {:?}", other),
    }
}

#[test]
fn edge_is_a_capacity_one_backpressure_channel() {
    let mut e = Edge::new(0, 1);
    assert!(e.try_push(10));
    // Full: a producer cannot push until the consumer pulls.
    assert!(!e.try_push(11));
    assert_eq!(e.try_pull(), Some(10));
    assert_eq!(e.try_pull(), None);
    assert!(e.try_push(12));
    assert_eq!(e.try_pull(), Some(12));
    e.mark_finished();
    assert!(e.is_finished());
    // Finishing is idempotent and monotone.
    e.mark_finished();
    assert!(e.is_finished());
    // No production after end of stream.
    assert!(!e.try_push(13));
}

#[test]
fn malformed_plans_are_rejected() {
    // A dependency on a later node is no topological order.
    let bad = vec![
        PlanNode { op: OpKind::Sink, deps: vec![1] },
        source(vec![1]),
    ];
    assert!(matches!(build(bad), Err(PlanError::Malformed)));
    // A source with a dependency has the wrong arity.
    let bad2 = vec![
        source(vec![1]),
        PlanNode { op: OpKind::Source { rows: vec![2] }, deps: vec![0] },
    ];
    assert!(matches!(build(bad2), Err(PlanError::Malformed)));
    // A well-shaped linear plan is accepted.
    let good = vec![source(vec![1]), sink(0)];
    assert!(build(good).is_ok());
}

#[test]
fn filter_consumes_rows_it_drops() {
    // Odd rows are dropped by the filter, never reaching the sink, while
    // even rows pass: the filter really transforms the stream.
    let plan = vec![source(vec![1, 3, 5, 2]), filter(0, Pred::KeepEven, None), sink(1)];
    let (_g, out) = execute(plan, 1, 100_000).unwrap();
    match out {
        Outcome::Completed { streams } => {
            assert_eq!(streams[2], vec![2]);
        }
        other => panic!("expected completion, got {:?}", other),
    }
}
