use vstd::prelude::*;

verus! {

/// An entry of an adjacency list: the neighbouring zone and the transit
/// that leads to it.
#[derive(Debug, Clone, Copy, PartialEq, Eq, Structural)]
pub struct BimNode {
    pub dest: usize,
    pub eid: usize,
}

/// An undirected edge between two zones, labelled by a transit.
#[derive(Debug, Clone, Copy, PartialEq, Eq, Structural)]
pub struct BimEdge {
    pub src: usize,
    pub dest: usize,
    pub id: usize,
}

/// Adjacency lists indexed by zone. Each list is ordered as it is walked:
/// the most recently added edge first.
pub struct BimGraph {
    pub head: Vec<Vec<BimNode>>,
}

/// The adjacency list of zone `v` after adding `edges` in order: every edge
/// puts its far end in front of the lists of both its ends, first at `src`,
/// then at `dest`.
pub open spec fn adjacency(edges: Seq<BimEdge>, v: int) -> Seq<BimNode>
    decreases edges.len(),
{
    if edges.len() == 0 {
        seq![]
    } else {
        let e = edges.last();
        let prev = adjacency(edges.drop_last(), v);
        let at_src = if e.src == v {
            seq![BimNode { dest: e.dest, eid: e.id }] + prev
        } else {
            prev
        };
        if e.dest == v {
            seq![BimNode { dest: e.src, eid: e.id }] + at_src
        } else {
            at_src
        }
    }
}

impl BimGraph {
    /// Every adjacency entry names a zone of the graph and a transit below
    /// `transit_count`.
    pub open spec fn well_formed(&self, transit_count: nat) -> bool {
        forall|v: int, k: int|
            0 <= v < self.head@.len() && 0 <= k < self.head@[v]@.len() ==> {
                &&& (#[trigger] self.head@[v]@[k]).dest < self.head@.len()
                &&& self.head@[v]@[k].eid < transit_count
            }
    }
}

/// Builds the adjacency lists of `node_count` zones from `edges`.
pub fn graph_create(edges: &[BimEdge], node_count: usize) -> (g: BimGraph)
    requires
        forall|i: int|
            0 <= i < edges@.len() ==> #[trigger] edges@[i].src < node_count && edges@[i].dest
                < node_count,
    ensures
        g.head@.len() == node_count,
        forall|v: int| 0 <= v < node_count ==> #[trigger] g.head@[v]@ == adjacency(edges@, v),
{
    let mut head: Vec<Vec<BimNode>> = Vec::new();
    let mut n: usize = 0;
    while n < node_count
        invariant
            n <= node_count,
            head@.len() == n,
            forall|v: int| 0 <= v < n ==> #[trigger] head@[v]@ == Seq::<BimNode>::empty(),
        decreases node_count - n,
    {
        head.push(Vec::new());
        n = n + 1;
    }
    proof {
        assert forall|v: int| 0 <= v < node_count implies #[trigger] head@[v]@ == adjacency(
            edges@.take(0),
            v,
        ) by {
            assert(edges@.take(0).len() == 0);
        }
    }
    let mut i: usize = 0;
    while i < edges.len()
        invariant
            i <= edges@.len(),
            head@.len() == node_count,
            forall|j: int|
                0 <= j < edges@.len() ==> #[trigger] edges@[j].src < node_count && edges@[j].dest
                    < node_count,
            forall|v: int| 0 <= v < node_count ==> #[trigger] head@[v]@ == adjacency(edges@.take(i as int), v),
        decreases edges@.len() - i,
    {
        let e = edges[i];
        let ghost before = head@;
        head[e.src].insert(0, BimNode { dest: e.dest, eid: e.id });
        let ghost middle = head@;
        head[e.dest].insert(0, BimNode { dest: e.src, eid: e.id });
        proof {
            let next = edges@.take(i + 1);
            assert(next.drop_last() =~= edges@.take(i as int));
            assert(next.last() == e);
            assert forall|v: int| 0 <= v < node_count implies #[trigger] head@[v]@ == adjacency(
                next,
                v,
            ) by {
                let prev = adjacency(edges@.take(i as int), v);
                assert(before[v]@ == prev);
                if v == e.src as int {
                    assert(middle[v]@ =~= seq![BimNode { dest: e.dest, eid: e.id }] + prev);
                } else {
                    assert(middle[v]@ == prev);
                }
            }
        }
        i = i + 1;
    }
    assert(edges@.take(edges@.len() as int) =~= edges@);
    BimGraph { head }
}

/// `k` is the first position of `u` in `uuids`.
pub open spec fn first_index(uuids: Seq<u128>, u: u128, k: int) -> bool {
    &&& 0 <= k < uuids.len()
    &&& uuids[k] == u
    &&& forall|j: int| 0 <= j < k ==> uuids[j] != u
}

/// Whether `u` occurs in `uuids`.
pub open spec fn occurs(uuids: Seq<u128>, u: u128) -> bool {
    exists|j: int| 0 <= j < uuids.len() && uuids[j] == u
}

/// The first position of a zone with the given UUID.
pub fn find_zone(zone_uuids: &Vec<u128>, u: u128) -> (r: Option<usize>)
    ensures
        r matches Some(k) ==> first_index(zone_uuids@, u, k as int),
        r is None <==> !occurs(zone_uuids@, u),
{
    let mut k: usize = 0;
    while k < zone_uuids.len()
        invariant
            k <= zone_uuids@.len(),
            forall|j: int| 0 <= j < k ==> zone_uuids@[j] != u,
        decreases zone_uuids@.len() - k,
    {
        if zone_uuids[k] == u {
            return Some(k);
        }
        k = k + 1;
    }
    None
}

/// Why the edges of a building could not be built.
#[derive(Debug, Clone, Copy, PartialEq, Eq, Structural)]
pub enum GraphError {
    /// The transit at this position has no output or more than two.
    OutputCount { transit: usize, count: usize },
    /// An output of the transit at this position names no zone.
    MissingZone { transit: usize },
}

/// A transit connects one zone to Outside, or two zones, and each of its
/// outputs names a zone.
pub open spec fn transit_resolvable(zone_uuids: Seq<u128>, outputs: Seq<u128>) -> bool {
    &&& 1 <= outputs.len() <= 2
    &&& forall|j: int| 0 <= j < outputs.len() ==> occurs(zone_uuids, #[trigger] outputs[j])
}

/// The edge of the transit at position `i` with the given outputs: from the
/// zone of its first output to the zone of its second, or to Outside (the
/// last zone) when it has one output.
pub open spec fn edge_of_transit(zone_uuids: Seq<u128>, outputs: Seq<u128>, i: int, e: BimEdge) -> bool {
    &&& e.id == i
    &&& first_index(zone_uuids, outputs[0], e.src as int)
    &&& outputs.len() == 2 ==> first_index(zone_uuids, outputs[1], e.dest as int)
    &&& outputs.len() == 1 ==> e.dest == zone_uuids.len() - 1
}

/// `edges` holds the edge of each transit, in the order of the transits.
pub open spec fn edges_of(zone_uuids: Seq<u128>, transit_outputs: Seq<Vec<u128>>, edges: Seq<BimEdge>) -> bool {
    &&& edges.len() == transit_outputs.len()
    &&& forall|i: int|
        0 <= i < edges.len() ==> edge_of_transit(zone_uuids, transit_outputs[i]@, i, #[trigger] edges[i])
}

/// Builds one edge per transit, resolving its outputs to zone positions.
/// The Outside zone is the last zone.
pub fn graph_create_edges(transit_outputs: &Vec<Vec<u128>>, zone_uuids: &Vec<u128>) -> (r: Result<
    Vec<BimEdge>,
    GraphError,
>)
    requires
        zone_uuids@.len() > 0,
    ensures
        r is Ok <==> forall|i: int|
            0 <= i < transit_outputs@.len() ==> transit_resolvable(
                zone_uuids@,
                #[trigger] transit_outputs@[i]@,
            ),
        r matches Ok(edges) ==> edges_of(zone_uuids@, transit_outputs@, edges@),
        r matches Err(GraphError::OutputCount { transit, count }) ==> transit
            < transit_outputs@.len() && count == transit_outputs@[transit as int]@.len() && !(1
            <= count <= 2),
        r matches Err(GraphError::MissingZone { transit }) ==> transit < transit_outputs@.len()
            && !transit_resolvable(zone_uuids@, transit_outputs@[transit as int]@),
{
    let outside = zone_uuids.len() - 1;
    let mut edges: Vec<BimEdge> = Vec::new();
    let mut i: usize = 0;
    while i < transit_outputs.len()
        invariant
            i <= transit_outputs@.len(),
            outside == zone_uuids@.len() - 1,
            edges@.len() == i,
            forall|k: int| 0 <= k < i ==> transit_resolvable(zone_uuids@, #[trigger] transit_outputs@[k]@),
            forall|k: int|
                0 <= k < i ==> edge_of_transit(
                    zone_uuids@,
                    transit_outputs@[k]@,
                    k,
                    #[trigger] edges@[k],
                ),
        decreases transit_outputs@.len() - i,
    {
        let outputs = &transit_outputs[i];
        let count = outputs.len();
        if count == 0 || count > 2 {
            return Err(GraphError::OutputCount { transit: i, count });
        }
        let src = match find_zone(zone_uuids, outputs[0]) {
            Some(k) => k,
            None => {
                return Err(GraphError::MissingZone { transit: i });
            },
        };
        let dest = if count == 2 {
            match find_zone(zone_uuids, outputs[1]) {
                Some(k) => k,
                None => {
                    return Err(GraphError::MissingZone { transit: i });
                },
            }
        } else {
            outside
        };
        proof {
            assert forall|j: int| 0 <= j < outputs@.len() implies occurs(
                zone_uuids@,
                #[trigger] outputs@[j],
            ) by {
                if j == 0 {
                    assert(zone_uuids@[src as int] == outputs@[0]);
                } else {
                    assert(zone_uuids@[dest as int] == outputs@[1]);
                }
            }
        }
        edges.push(BimEdge { src, dest, id: i });
        i = i + 1;
    }
    Ok(edges)
}

/// Each entry of an adjacency list comes from one of the edges.
pub proof fn lemma_adjacency_entry(edges: Seq<BimEdge>, v: int, k: int)
    requires
        0 <= k < adjacency(edges, v).len(),
    ensures
        exists|i: int|
            0 <= i < edges.len() && ((edges[i].src == v && adjacency(edges, v)[k] == BimNode {
                dest: edges[i].dest,
                eid: edges[i].id,
            }) || (edges[i].dest == v && adjacency(edges, v)[k] == BimNode {
                dest: edges[i].src,
                eid: edges[i].id,
            })),
    decreases edges.len(),
{
    let e = edges.last();
    let init = edges.drop_last();
    let prev = adjacency(init, v);
    let at_src = if e.src == v {
        seq![BimNode { dest: e.dest, eid: e.id }] + prev
    } else {
        prev
    };
    let last = edges.len() - 1;
    if e.dest == v && k == 0 {
        assert(edges[last] == e);
    } else {
        let k1 = if e.dest == v { k - 1 } else { k };
        if e.src == v && k1 == 0 {
            assert(edges[last] == e);
        } else {
            let k2 = if e.src == v { k1 - 1 } else { k1 };
            assert(adjacency(edges, v)[k] == prev[k2]);
            lemma_adjacency_entry(init, v, k2);
            let i = choose|i: int|
                0 <= i < init.len() && ((init[i].src == v && prev[k2] == BimNode {
                    dest: init[i].dest,
                    eid: init[i].id,
                }) || (init[i].dest == v && prev[k2] == BimNode {
                    dest: init[i].src,
                    eid: init[i].id,
                }));
            assert(edges[i] == init[i]);
        }
    }
}

/// Adding an edge keeps every entry of every adjacency list.
pub proof fn lemma_adjacency_grows(edges: Seq<BimEdge>, v: int, x: BimNode)
    requires
        edges.len() > 0,
        adjacency(edges.drop_last(), v).contains(x),
    ensures
        adjacency(edges, v).contains(x),
{
    let e = edges.last();
    let prev = adjacency(edges.drop_last(), v);
    let k = choose|k: int| 0 <= k < prev.len() && prev[k] == x;
    let at_src = if e.src == v {
        seq![BimNode { dest: e.dest, eid: e.id }] + prev
    } else {
        prev
    };
    let k1 = if e.src == v { k + 1 } else { k };
    assert(at_src[k1] == x);
    let k2 = if e.dest == v { k1 + 1 } else { k1 };
    assert(adjacency(edges, v)[k2] == x);
}

/// Every edge can be walked from both of its ends: the adjacency list of
/// its source names its destination, and the list of its destination names
/// its source, each with the edge's transit.
pub proof fn lemma_graph_symmetric(edges: Seq<BimEdge>, i: int)
    requires
        0 <= i < edges.len(),
    ensures
        adjacency(edges, edges[i].src as int).contains(
            BimNode { dest: edges[i].dest, eid: edges[i].id },
        ),
        adjacency(edges, edges[i].dest as int).contains(
            BimNode { dest: edges[i].src, eid: edges[i].id },
        ),
    decreases edges.len(),
{
    let e = edges[i];
    let fwd = BimNode { dest: e.dest, eid: e.id };
    let back = BimNode { dest: e.src, eid: e.id };
    if i == edges.len() - 1 {
        let prev_s = adjacency(edges.drop_last(), e.src as int);
        let at_src = seq![fwd] + prev_s;
        assert(at_src[0] == fwd);
        if e.dest == e.src {
            assert(adjacency(edges, e.src as int)[1] == fwd);
        } else {
            assert(adjacency(edges, e.src as int)[0] == fwd);
        }
        assert(adjacency(edges, e.dest as int)[0] == back);
    } else {
        let init = edges.drop_last();
        assert(init[i] == e);
        lemma_graph_symmetric(init, i);
        lemma_adjacency_grows(edges, e.src as int, fwd);
        lemma_adjacency_grows(edges, e.dest as int, back);
    }
}

/// Builds the adjacency graph of a building: one edge per transit, between
/// the zones its outputs name, or between its one zone and Outside (the last
/// zone).
pub fn bim_graph_new(transit_outputs: &Vec<Vec<u128>>, zone_uuids: &Vec<u128>) -> (r: Result<
    BimGraph,
    GraphError,
>)
    requires
        zone_uuids@.len() > 0,
    ensures
        r is Ok <==> forall|i: int|
            0 <= i < transit_outputs@.len() ==> transit_resolvable(
                zone_uuids@,
                #[trigger] transit_outputs@[i]@,
            ),
        r matches Ok(g) ==> {
            &&& g.head@.len() == zone_uuids@.len()
            &&& g.well_formed(transit_outputs@.len())
            &&& exists|edges: Seq<BimEdge>|
                #[trigger] edges_of(zone_uuids@, transit_outputs@, edges) && forall|v: int|
                    0 <= v < zone_uuids@.len() ==> #[trigger] g.head@[v]@ == adjacency(edges, v)
        },
{
    let edges = graph_create_edges(transit_outputs, zone_uuids)?;
    let n = zone_uuids.len();
    assert forall|i: int| 0 <= i < edges@.len() implies #[trigger] edges@[i].src < n
        && edges@[i].dest < n by {
        assert(edge_of_transit(zone_uuids@, transit_outputs@[i]@, i, edges@[i]));
    }
    let ghost es = edges@;
    let g = graph_create(&edges, n);
    proof {
        assert forall|v: int, k: int|
            0 <= v < g.head@.len() && 0 <= k < g.head@[v]@.len() implies {
            &&& (#[trigger] g.head@[v]@[k]).dest < g.head@.len()
            &&& g.head@[v]@[k].eid < transit_outputs@.len()
        } by {
            lemma_adjacency_entry(edges@, v, k);
        }
        assert(edges_of(zone_uuids@, transit_outputs@, es));
    }
    Ok(g)
}

} // verus!
