use evacuation::graph::bim_graph_new;
use evacuation::step::{FlowStep, QueuedZone, StepAction};

#[test]
fn step_walks_from_outside_inwards() {
    // room 0 -- t0 -- room 1 -- t1 (exit) -- Outside (zone 2)
    let zones = vec![11u128, 12, 0];
    let outputs = vec![vec![11u128, 12], vec![12u128]];
    let g = bim_graph_new(&outputs, &zones).ok().unwrap();
    let mut step = FlowStep::new(&g, vec![1, 2, 1], vec![false; 3], vec![false; 2]);
    let keys = vec![u64::MAX, u64::MAX, 0];
    assert_eq!(step.next(&keys), StepAction::Transfer { receiving: 2, giving: 1, transit: 1 });
    assert_eq!(step.next(&keys), StepAction::Transfer { receiving: 1, giving: 0, transit: 0 });
    assert_eq!(step.next(&keys), StepAction::Finished);
    assert_eq!(step.zone_visited, vec![true, true, false]);
    assert_eq!(step.transit_visited, vec![true, true]);
    assert_eq!(step.next(&keys), StepAction::Finished);
}

#[test]
fn step_skips_blocked_transits() {
    let zones = vec![11u128, 12, 0];
    let outputs = vec![vec![11u128, 12], vec![12u128]];
    let g = bim_graph_new(&outputs, &zones).ok().unwrap();
    let mut step = FlowStep::new(&g, vec![1, 2, 1], vec![false; 3], vec![true, false]);
    let keys = vec![5, 5, 0];
    assert_eq!(step.next(&keys), StepAction::Transfer { receiving: 2, giving: 1, transit: 1 });
    assert_eq!(step.next(&keys), StepAction::Finished);
    assert_eq!(step.zone_visited, vec![false, true, false]);
}

#[test]
fn step_does_not_queue_blocked_or_dead_end_zones() {
    let zones = vec![11u128, 12, 0];
    let outputs = vec![vec![11u128, 12], vec![12u128]];
    let g = bim_graph_new(&outputs, &zones).ok().unwrap();
    let mut step = FlowStep::new(&g, vec![1, 2, 1], vec![false, true, false], vec![false; 2]);
    let keys = vec![5, 5, 0];
    assert_eq!(step.next(&keys), StepAction::Transfer { receiving: 2, giving: 1, transit: 1 });
    assert_eq!(step.next(&keys), StepAction::Finished);
    assert!(step.queue.is_empty());
}

#[test]
fn worklist_pops_smallest_key_earliest_first() {
    let zones = vec![1u128, 2, 3, 0];
    let outputs = vec![vec![1u128], vec![2u128], vec![3u128]];
    let g = bim_graph_new(&outputs, &zones).ok().unwrap();
    let mut step = FlowStep::new(&g, vec![1, 1, 1, 3], vec![false; 4], vec![false; 3]);
    step.queue = vec![
        QueuedZone { zone: 0, key: 9 },
        QueuedZone { zone: 1, key: 4 },
        QueuedZone { zone: 2, key: 4 },
    ];
    assert!(step.pop_next_zone());
    assert_eq!(step.receiving, 1);
    assert!(step.pop_next_zone());
    assert_eq!(step.receiving, 2);
    assert!(step.pop_next_zone());
    assert_eq!(step.receiving, 0);
    assert!(!step.pop_next_zone());
}

#[test]
fn pending_zone_is_queued_once() {
    let zones = vec![11u128, 12, 0];
    let outputs = vec![vec![11u128, 12], vec![12u128]];
    let g = bim_graph_new(&outputs, &zones).ok().unwrap();
    let mut step = FlowStep::new(&g, vec![1, 2, 1], vec![false; 3], vec![false; 2]);
    step.pending = Some(1);
    step.settle_pending(7);
    assert_eq!(step.queue, vec![QueuedZone { zone: 1, key: 7 }]);
    step.pending = Some(1);
    step.settle_pending(3);
    assert_eq!(step.queue, vec![QueuedZone { zone: 1, key: 7 }]);
    assert!(step.is_queued(1));
    assert!(!step.is_queued(0));
}
