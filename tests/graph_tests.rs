use evacuation::graph::{bim_graph_new, graph_create, graph_create_edges, find_zone, BimEdge, BimNode, GraphError};

fn node(dest: usize, eid: usize) -> BimNode {
    BimNode { dest, eid }
}

#[test]
fn graph_create_puts_latest_edge_first() {
    let edges = vec![
        BimEdge { src: 0, dest: 1, id: 0 },
        BimEdge { src: 1, dest: 2, id: 1 },
    ];
    let g = graph_create(&edges, 3);
    assert_eq!(g.head.len(), 3);
    assert_eq!(g.head[0], vec![node(1, 0)]);
    assert_eq!(g.head[1], vec![node(2, 1), node(0, 0)]);
    assert_eq!(g.head[2], vec![node(1, 1)]);
}

#[test]
fn graph_create_without_edges_has_empty_lists() {
    let g = graph_create(&vec![], 2);
    assert_eq!(g.head.len(), 2);
    assert!(g.head[0].is_empty());
    assert!(g.head[1].is_empty());
}

#[test]
fn graph_create_self_loop_appears_twice() {
    let g = graph_create(&vec![BimEdge { src: 0, dest: 0, id: 4 }], 1);
    assert_eq!(g.head[0], vec![node(0, 4), node(0, 4)]);
}

#[test]
fn find_zone_gives_first_match() {
    let uuids = vec![7u128, 9, 7];
    assert_eq!(find_zone(&uuids, 7), Some(0));
    assert_eq!(find_zone(&uuids, 9), Some(1));
    assert_eq!(find_zone(&uuids, 8), None);
}

#[test]
fn edges_of_interior_and_exit_transits() {
    // zones: two rooms and Outside (last, nil UUID)
    let zones = vec![11u128, 12, 0];
    let outputs = vec![vec![11u128, 12], vec![12u128]];
    let edges = graph_create_edges(&outputs, &zones).unwrap();
    assert_eq!(edges, vec![BimEdge { src: 0, dest: 1, id: 0 }, BimEdge { src: 1, dest: 2, id: 1 }]);
}

#[test]
fn edges_refuse_bad_output_counts() {
    let zones = vec![11u128, 0];
    assert_eq!(
        graph_create_edges(&vec![vec![]], &zones),
        Err(GraphError::OutputCount { transit: 0, count: 0 })
    );
    assert_eq!(
        graph_create_edges(&vec![vec![11u128], vec![11, 11, 11]], &zones),
        Err(GraphError::OutputCount { transit: 1, count: 3 })
    );
}

#[test]
fn edges_refuse_unknown_zone() {
    let zones = vec![11u128, 0];
    assert_eq!(
        graph_create_edges(&vec![vec![11u128, 99]], &zones),
        Err(GraphError::MissingZone { transit: 0 })
    );
}

#[test]
fn graph_is_symmetric_for_a_building() {
    let zones = vec![11u128, 12, 0];
    let outputs = vec![vec![11u128, 12], vec![12u128]];
    let g = bim_graph_new(&outputs, &zones).ok().unwrap();
    assert_eq!(g.head[0], vec![node(1, 0)]);
    assert_eq!(g.head[1], vec![node(2, 1), node(0, 0)]);
    assert_eq!(g.head[2], vec![node(1, 1)]);
}
