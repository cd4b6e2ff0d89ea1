use amm_toolkit::error::AMMError;
use amm_toolkit::paginator::{plan_windows, Paginator, SlotState, Window};

/// Fetches a window as the chain would: one item per index.
fn fetch(w: &Window) -> Vec<u64> {
    (w.from..w.to).collect()
}

fn run_without_failures(n: u64, step: u64) -> Vec<u64> {
    let mut pager: Paginator<u64> = Paginator::new(0, n, step, 4);
    while !pager.is_finished() {
        let outcomes = pager.pending_windows().iter().map(|w| Ok(fetch(w))).collect();
        pager.record(outcomes);
    }
    pager.merge().unwrap()
}

#[test]
fn plan_clips_last_window() {
    let ws = plan_windows(0, 25, 10);
    assert_eq!(
        ws,
        vec![
            Window { from: 0, to: 10 },
            Window { from: 10, to: 20 },
            Window { from: 20, to: 25 }
        ]
    );
    assert!(plan_windows(5, 5, 10).is_empty());
    assert!(plan_windows(7, 3, 10).is_empty());
    assert_eq!(plan_windows(u64::MAX - 3, u64::MAX, 10), vec![Window { from: u64::MAX - 3, to: u64::MAX }]);
}

#[test]
fn paginate_counts_every_index_once() {
    let w = 10;
    for n in [0, 1, w - 1, w, w + 1, 10 * w] {
        let items = run_without_failures(n, w);
        assert_eq!(items.len() as u64, n);
        assert_eq!(items, (0..n).collect::<Vec<u64>>());
        let total: u64 = plan_windows(0, n, w).iter().map(|x| x.len()).sum();
        assert_eq!(total, n);
    }
}

#[test]
fn too_large_window_is_bisected() {
    let mut pager: Paginator<u64> = Paginator::new(0, 10, 10, 4);
    assert_eq!(pager.pending_windows(), vec![Window { from: 0, to: 10 }]);
    pager.record(vec![Err(AMMError::GasOrSizeError)]);
    assert_eq!(
        pager.pending_windows(),
        vec![Window { from: 0, to: 5 }, Window { from: 5, to: 10 }]
    );
    let outcomes = pager.pending_windows().iter().map(|w| Ok(fetch(w))).collect();
    pager.record(outcomes);
    assert!(pager.is_finished());
    let items = pager.merge().unwrap();
    assert_eq!(items.len(), 10);
    assert_eq!(items, (0..10).collect::<Vec<u64>>());
}

#[test]
fn siblings_of_a_bisected_window_are_unaffected() {
    let mut pager: Paginator<u64> = Paginator::new(0, 30, 10, 4);
    let windows = pager.pending_windows();
    let outcomes = windows
        .iter()
        .map(|w| if w.from == 10 { Err(AMMError::GasOrSizeError) } else { Ok(fetch(w)) })
        .collect();
    pager.record(outcomes);
    assert_eq!(pager.slots.len(), 4);
    assert!(matches!(&pager.slots[0].state, SlotState::Done(v) if *v == fetch(&Window { from: 0, to: 10 })));
    assert!(matches!(pager.slots[1].state, SlotState::Pending));
    assert!(matches!(pager.slots[2].state, SlotState::Pending));
    assert!(matches!(&pager.slots[3].state, SlotState::Done(v) if *v == fetch(&Window { from: 20, to: 30 })));
    assert_eq!(pager.slots[1].window, Window { from: 10, to: 15 });
    assert_eq!(pager.slots[2].window, Window { from: 15, to: 20 });
    assert_eq!(pager.slots[1].depth, 1);
    let outcomes = pager.pending_windows().iter().map(|w| Ok(fetch(w))).collect();
    pager.record(outcomes);
    assert_eq!(pager.merge().unwrap(), (0..30).collect::<Vec<u64>>());
}

#[test]
fn single_index_too_large_is_final() {
    let mut pager: Paginator<u64> = Paginator::new(0, 1, 10, 4);
    pager.record(vec![Err(AMMError::GasOrSizeError)]);
    assert!(pager.is_finished());
    assert_eq!(pager.merge(), Err(AMMError::GasOrSizeError));
}

#[test]
fn depth_bound_stops_bisection() {
    let mut pager: Paginator<u64> = Paginator::new(0, 8, 8, 1);
    pager.record(vec![Err(AMMError::GasOrSizeError)]);
    assert_eq!(pager.pending_windows().len(), 2);
    pager.record(vec![Err(AMMError::GasOrSizeError), Ok(fetch(&Window { from: 4, to: 8 }))]);
    assert!(pager.is_finished());
    assert_eq!(pager.merge(), Err(AMMError::GasOrSizeError));
}

#[test]
fn other_failures_are_not_retried() {
    let mut pager: Paginator<u64> = Paginator::new(0, 20, 10, 4);
    pager.record(vec![
        Ok(fetch(&Window { from: 0, to: 10 })),
        Err(AMMError::MiddlewareError("timeout".to_string())),
    ]);
    assert!(pager.is_finished());
    assert_eq!(pager.merge(), Err(AMMError::MiddlewareError("timeout".to_string())));
}

#[test]
fn window_bounds() {
    let w = Window { from: 101, to: 151 };
    assert_eq!(w.len(), 50);
    assert_eq!(w.last(), 150);
}

#[test]
fn tolerant_merge_skips_failed_windows() {
    let mut pager: Paginator<u64> = Paginator::new(0, 30, 10, 0);
    pager.record(vec![
        Ok(fetch(&Window { from: 0, to: 10 })),
        Err(AMMError::GasOrSizeError),
        Ok(fetch(&Window { from: 20, to: 30 })),
    ]);
    let (items, failed) = pager.merge_tolerant();
    let mut expected = fetch(&Window { from: 0, to: 10 });
    expected.extend(fetch(&Window { from: 20, to: 30 }));
    assert_eq!(items, expected);
    assert_eq!(failed, vec![(Window { from: 10, to: 20 }, AMMError::GasOrSizeError)]);
}
