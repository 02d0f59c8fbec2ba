use vstd::prelude::*;
use crate::graph::{BimGraph, BimNode};

verus! {

/// A zone waiting in the worklist, with the ordering key of its potential
/// at the time it was queued (a smaller key is a smaller potential).
#[derive(Debug, Clone, Copy, PartialEq, Eq, Structural)]
pub struct QueuedZone {
    pub zone: usize,
    pub key: u64,
}

/// What the caller has to do next during one simulation step.
#[derive(Debug, Clone, Copy, PartialEq, Eq, Structural)]
pub enum StepAction {
    /// Move people from `giving` into `receiving` through `transit`, after
    /// updating the potential of `receiving`.
    Transfer { receiving: usize, giving: usize, transit: usize },
    /// The step is over.
    Finished,
}

/// The traversal of one simulation step. Starting from Outside (the last
/// zone) it relaxes the unvisited, unblocked transits of the current
/// receiving zone in adjacency order, queues the giving zones, and then
/// continues from the queued zone of smallest potential, the earliest queued
/// among equals. The caller performs the flow of each transfer.
pub struct FlowStep<'a> {
    pub graph: &'a BimGraph,
    /// Number of outputs of each zone: how many adjacency entries a zone
    /// may relax while it is receiving.
    pub outputs_len: Vec<usize>,
    pub zone_blocked: Vec<bool>,
    pub transit_blocked: Vec<bool>,
    pub zone_visited: Vec<bool>,
    pub transit_visited: Vec<bool>,
    pub queue: Vec<QueuedZone>,
    pub receiving: usize,
    /// Position of the next adjacency entry of the receiving zone.
    pub cursor: usize,
    /// Number of receiving zones whose entries have been walked.
    pub rounds: usize,
    /// Giving zone of the last transfer, not yet considered for the queue.
    pub pending: Option<usize>,
    pub finished: bool,
}

/// `i` is the position of the first entry with the smallest key.
pub open spec fn first_min(q: Seq<QueuedZone>, i: int) -> bool {
    &&& 0 <= i < q.len()
    &&& forall|j: int| 0 <= j < q.len() ==> q[i].key <= #[trigger] q[j].key
    &&& forall|j: int| 0 <= j < i ==> q[i].key < #[trigger] q[j].key
}

/// Whether zone `z` is in the queue.
pub open spec fn queued(q: Seq<QueuedZone>, z: usize) -> bool {
    exists|j: int| 0 <= j < q.len() && (#[trigger] q[j]).zone == z
}

/// The parts of a step that stay fixed while it runs.
pub struct StepConsts {
    /// Adjacency lists, by zone.
    pub head: Seq<Seq<BimNode>>,
    pub outputs_len: Seq<usize>,
    pub zone_blocked: Seq<bool>,
    pub transit_blocked: Seq<bool>,
}

/// The parts of a step that change while it runs.
pub struct StepModel {
    pub zone_visited: Seq<bool>,
    pub transit_visited: Seq<bool>,
    pub queue: Seq<QueuedZone>,
    pub receiving: usize,
    pub cursor: usize,
    pub rounds: nat,
    pub pending: Option<usize>,
    pub finished: bool,
}

/// How far the entries of zone `z` are walked: no further than its number
/// of outputs.
pub open spec fn limit_of(c: StepConsts, z: usize) -> int {
    let n = c.head[z as int].len() as int;
    let k = c.outputs_len[z as int] as int;
    if k < n {
        k
    } else {
        n
    }
}

/// Transit `t` is neither visited nor blocked.
pub open spec fn free_in(c: StepConsts, m: StepModel, t: usize) -> bool {
    !m.transit_visited[t as int] && !c.transit_blocked[t as int]
}

/// The first position, from `from` up to the limit, of an entry of the
/// receiving zone whose transit is free.
pub open spec fn first_free(c: StepConsts, m: StepModel, from: int) -> Option<int>
    decreases limit_of(c, m.receiving) - from,
{
    if from < 0 || from >= limit_of(c, m.receiving) {
        None
    } else if free_in(c, m, c.head[m.receiving as int][from].eid) {
        Some(from)
    } else {
        first_free(c, m, from + 1)
    }
}

/// Position of the first entry with the smallest key.
pub open spec fn min_pos(q: Seq<QueuedZone>) -> int
    decreases q.len(),
{
    if q.len() <= 1 {
        0
    } else {
        let m = min_pos(q.drop_last());
        if q.last().key < q[m].key {
            q.len() - 1
        } else {
            m
        }
    }
}

/// The giving zone of the last transfer is to be queued: it has more
/// than one output, is not blocked and is not queued yet.
pub open spec fn joins_queue(c: StepConsts, m: StepModel) -> bool {
    match m.pending {
        Some(g) => c.outputs_len[g as int] > 1 && !c.zone_blocked[g as int] && !queued(m.queue, g),
        None => false,
    }
}

/// The model once the pending giving zone has been considered for the
/// worklist, with its key from `keys`.
pub open spec fn settled(c: StepConsts, m: StepModel, keys: Seq<u64>) -> StepModel {
    if joins_queue(c, m) {
        let g = m.pending->Some_0;
        StepModel { queue: m.queue.push(QueuedZone { zone: g, key: keys[g as int] }), pending: None, ..m }
    } else {
        StepModel { pending: None, ..m }
    }
}

/// The traversal from `m` to its next transfer, or to its end. The entries
/// of the receiving zone are walked to the first free transit, which is
/// relaxed: it and its giving zone become visited, and the giving zone is
/// pending. When none is left, the zone's turn is over; the step ends when
/// every zone has had a turn or the worklist is empty, and otherwise the
/// queued zone of smallest key, the earliest among equals, receives next.
pub open spec fn advance(c: StepConsts, m: StepModel) -> (StepModel, StepAction)
    decreases (if m.finished { 0int } else { 1int }) + c.head.len() - m.rounds,
{
    if m.finished || m.rounds >= c.head.len() {
        (m, StepAction::Finished)
    } else {
        match first_free(c, m, m.cursor as int) {
            Some(p) => {
                let e = c.head[m.receiving as int][p];
                (
                    StepModel {
                        zone_visited: m.zone_visited.update(e.dest as int, true),
                        transit_visited: m.transit_visited.update(e.eid as int, true),
                        cursor: (p + 1) as usize,
                        pending: Some(e.dest),
                        ..m
                    },
                    StepAction::Transfer { receiving: m.receiving, giving: e.dest, transit: e.eid },
                )
            },
            None => {
                let m1 = StepModel {
                    cursor: limit_of(c, m.receiving) as usize,
                    rounds: m.rounds + 1,
                    ..m
                };
                if m1.rounds >= c.head.len() || m1.queue.len() == 0 {
                    (StepModel { finished: true, ..m1 }, StepAction::Finished)
                } else {
                    let i = min_pos(m1.queue);
                    advance(
                        c,
                        StepModel {
                            receiving: m1.queue[i].zone,
                            cursor: 0,
                            queue: m1.queue.remove(i),
                            ..m1
                        },
                    )
                }
            },
        }
    }
}

/// The smallest key sits at `min_pos`, and no earlier entry has it.
pub proof fn lemma_min_pos(q: Seq<QueuedZone>)
    requires
        q.len() > 0,
    ensures
        first_min(q, min_pos(q)),
    decreases q.len(),
{
    if q.len() > 1 {
        let init = q.drop_last();
        lemma_min_pos(init);
        let m = min_pos(init);
        assert(forall|j: int| 0 <= j < init.len() ==> init[j] == q[j]);
    }
}

/// `first_free` finds the first free entry, and only it.
pub proof fn lemma_first_free(c: StepConsts, m: StepModel, from: int)
    requires
        0 <= from,
    ensures
        first_free(c, m, from) is None ==> forall|p: int|
            from <= p < limit_of(c, m.receiving) ==> !free_in(
                c,
                m,
                #[trigger] c.head[m.receiving as int][p].eid,
            ),
        first_free(c, m, from) matches Some(p) ==> from <= p < limit_of(c, m.receiving) && free_in(
            c,
            m,
            c.head[m.receiving as int][p].eid,
        ) && forall|q: int|
            from <= q < p ==> !free_in(c, m, #[trigger] c.head[m.receiving as int][q].eid),
    decreases limit_of(c, m.receiving) - from,
{
    if from < limit_of(c, m.receiving) {
        lemma_first_free(c, m, from + 1);
    }
}

/// A step relaxes each transit at most once: a transfer goes through a
/// transit that was neither visited nor blocked and lies between the two
/// zones it names, and it is then visited; the end of a step visits nothing.
pub proof fn lemma_transfer_relaxes_free_transit(c: StepConsts, m: StepModel)
    ensures
        ({
            let (m2, action) = advance(c, m);
            match action {
                StepAction::Transfer { receiving, giving, transit } => {
                    &&& free_in(c, m, transit)
                    &&& m2.transit_visited == m.transit_visited.update(transit as int, true)
                    &&& c.head[receiving as int].contains(BimNode { dest: giving, eid: transit })
                },
                StepAction::Finished => m2.transit_visited == m.transit_visited,
            }
        }),
    decreases (if m.finished { 0int } else { 1int }) + c.head.len() - m.rounds,
{
    if m.finished || m.rounds >= c.head.len() {
    } else {
        lemma_first_free(c, m, m.cursor as int);
        match first_free(c, m, m.cursor as int) {
            Some(p) => {
                assert(c.head[m.receiving as int][p] == c.head[m.receiving as int][p]);
            },
            None => {
                let m1 = StepModel {
                    cursor: limit_of(c, m.receiving) as usize,
                    rounds: m.rounds + 1,
                    ..m
                };
                if m1.rounds >= c.head.len() || m1.queue.len() == 0 {
                } else {
                    let i = min_pos(m1.queue);
                    let m2 = StepModel {
                        receiving: m1.queue[i].zone,
                        cursor: 0,
                        queue: m1.queue.remove(i),
                        ..m1
                    };
                    lemma_transfer_relaxes_free_transit(c, m2);
                    assert(forall|t: usize| free_in(c, m2, t) == free_in(c, m, t));
                }
            },
        }
    }
}

impl<'a> FlowStep<'a> {
    pub open spec fn zone_count(&self) -> nat {
        self.graph.head@.len()
    }

    pub open spec fn transit_count(&self) -> nat {
        self.transit_blocked@.len()
    }

    pub open spec fn consts(&self) -> StepConsts {
        StepConsts {
            head: Seq::new(self.graph.head@.len(), |z: int| self.graph.head@[z]@),
            outputs_len: self.outputs_len@,
            zone_blocked: self.zone_blocked@,
            transit_blocked: self.transit_blocked@,
        }
    }

    pub open spec fn model(&self) -> StepModel {
        StepModel {
            zone_visited: self.zone_visited@,
            transit_visited: self.transit_visited@,
            queue: self.queue@,
            receiving: self.receiving,
            cursor: self.cursor,
            rounds: self.rounds as nat,
            pending: self.pending,
            finished: self.finished,
        }
    }

    pub open spec fn wf(&self) -> bool {
        let n = self.zone_count();
        &&& n >= 1
        &&& self.graph.well_formed(self.transit_count())
        &&& self.outputs_len@.len() == n
        &&& self.zone_blocked@.len() == n
        &&& self.zone_visited@.len() == n
        &&& self.transit_visited@.len() == self.transit_count()
        &&& self.receiving < n
        &&& self.cursor <= limit_of(self.consts(), self.receiving)
        &&& self.rounds <= n
        &&& !self.finished ==> self.rounds < n
        &&& self.pending matches Some(g) ==> g < n
        &&& forall|j: int| 0 <= j < self.queue@.len() ==> (#[trigger] self.queue@[j]).zone < n
        &&& forall|i: int, j: int|
            0 <= i < j < self.queue@.len() ==> (#[trigger] self.queue@[i]).zone
                != (#[trigger] self.queue@[j]).zone
    }

    /// Starts a step: nothing visited, Outside (the last zone) receiving.
    pub fn new(
        graph: &'a BimGraph,
        outputs_len: Vec<usize>,
        zone_blocked: Vec<bool>,
        transit_blocked: Vec<bool>,
    ) -> (s: Self)
        requires
            graph.head@.len() >= 1,
            graph.well_formed(transit_blocked@.len()),
            outputs_len@.len() == graph.head@.len(),
            zone_blocked@.len() == graph.head@.len(),
        ensures
            s.wf(),
            s.graph == graph,
            s.outputs_len == outputs_len,
            s.zone_blocked == zone_blocked,
            s.transit_blocked == transit_blocked,
            s.zone_visited@ == Seq::new(graph.head@.len(), |i: int| false),
            s.transit_visited@ == Seq::new(transit_blocked@.len(), |i: int| false),
            s.queue@.len() == 0,
            s.receiving == graph.head@.len() - 1,
            s.cursor == 0,
            s.rounds == 0,
            s.pending is None,
            !s.finished,
    {
        let n = graph.head.len();
        let mut zone_visited: Vec<bool> = Vec::new();
        let mut i: usize = 0;
        while i < n
            invariant
                i <= n,
                zone_visited@ == Seq::new(i as nat, |k: int| false),
            decreases n - i,
        {
            zone_visited.push(false);
            i = i + 1;
            assert(zone_visited@ =~= Seq::new(i as nat, |k: int| false));
        }
        let t = transit_blocked.len();
        let mut transit_visited: Vec<bool> = Vec::new();
        let mut j: usize = 0;
        while j < t
            invariant
                j <= t,
                transit_visited@ == Seq::new(j as nat, |k: int| false),
            decreases t - j,
        {
            transit_visited.push(false);
            j = j + 1;
            assert(transit_visited@ =~= Seq::new(j as nat, |k: int| false));
        }
        FlowStep {
            graph,
            outputs_len,
            zone_blocked,
            transit_blocked,
            zone_visited,
            transit_visited,
            queue: Vec::new(),
            receiving: n - 1,
            cursor: 0,
            rounds: 0,
            pending: None,
            finished: false,
        }
    }

    /// Whether zone `z` is waiting in the worklist.
    pub fn is_queued(&self, z: usize) -> (r: bool)
        ensures
            r == queued(self.queue@, z),
    {
        let mut j: usize = 0;
        while j < self.queue.len()
            invariant
                j <= self.queue@.len(),
                forall|k: int| 0 <= k < j ==> (#[trigger] self.queue@[k]).zone != z,
            decreases self.queue@.len() - j,
        {
            if self.queue[j].zone == z {
                return true;
            }
            j = j + 1;
        }
        false
    }

    /// Considers the giving zone of the last transfer for the worklist: it
    /// is queued, with `key`, when it has more than one output, is not
    /// blocked and is not queued yet.
    pub fn settle_pending(&mut self, key: u64)
        requires
            old(self).wf(),
            old(self).pending matches Some(g) ==> g < old(self).zone_count(),
        ensures
            final(self).wf(),
            final(self).graph == old(self).graph,
            final(self).consts() == old(self).consts(),
            final(self).model() == (if joins_queue(old(self).consts(), old(self).model()) {
                StepModel {
                    queue: old(self).queue@.push(
                        QueuedZone { zone: old(self).pending->Some_0, key },
                    ),
                    pending: None,
                    ..old(self).model()
                }
            } else {
                StepModel { pending: None, ..old(self).model() }
            }),
    {
        if let Some(g) = self.pending {
            if self.outputs_len[g] > 1 && !self.zone_blocked[g] && !self.is_queued(g) {
                self.queue.push(QueuedZone { zone: g, key });
                assert forall|i: int, j: int|
                    0 <= i < j < self.queue@.len() implies (#[trigger] self.queue@[i]).zone
                    != (#[trigger] self.queue@[j]).zone by {
                    if j == self.queue@.len() - 1 {
                        assert(self.queue@[i] == old(self).queue@[i]);
                    }
                }
            }
        }
        self.pending = None;
    }

    /// Takes the queued zone of smallest key, the earliest queued among
    /// equal keys, as the new receiving zone; returns false when the
    /// worklist is empty.
    pub fn pop_next_zone(&mut self) -> (r: bool)
        requires
            old(self).wf(),
        ensures
            final(self).wf(),
            r == (old(self).queue@.len() > 0),
            final(self).graph == old(self).graph,
            final(self).consts() == old(self).consts(),
            !r ==> final(self).model() == old(self).model(),
            r ==> first_min(old(self).queue@, min_pos(old(self).queue@)),
            r ==> final(self).model() == (StepModel {
                receiving: old(self).queue@[min_pos(old(self).queue@)].zone,
                cursor: 0,
                queue: old(self).queue@.remove(min_pos(old(self).queue@)),
                ..old(self).model()
            }),
    {
        if self.queue.len() == 0 {
            return false;
        }
        let mut best: usize = 0;
        let mut j: usize = 1;
        while j < self.queue.len()
            invariant
                1 <= j <= self.queue@.len(),
                best < j,
                best as int == min_pos(self.queue@.take(j as int)),
            decreases self.queue@.len() - j,
        {
            proof {
                let t = self.queue@.take(j + 1);
                assert(t.drop_last() =~= self.queue@.take(j as int));
                assert(t.last() == self.queue@[j as int]);
                assert(t[best as int] == self.queue@[best as int]);
            }
            if self.queue[j].key < self.queue[best].key {
                best = j;
            }
            j = j + 1;
        }
        let ghost q = self.queue@;
        assert(q.take(q.len() as int) =~= q);
        proof {
            lemma_min_pos(q);
        }
        let next = self.queue.remove(best);
        self.receiving = next.zone;
        self.cursor = 0;
        proof {
            assert forall|i: int, k: int|
                0 <= i < k < self.queue@.len() implies (#[trigger] self.queue@[i]).zone
                != (#[trigger] self.queue@[k]).zone by {
                let i0 = if i < best { i } else { i + 1 };
                let k0 = if k < best { k } else { k + 1 };
                assert(self.queue@[i] == q[i0]);
                assert(self.queue@[k] == q[k0]);
            }
            assert forall|k: int| 0 <= k < self.queue@.len() implies (#[trigger] self.queue@[k]).zone
                < self.zone_count() by {
                let k0 = if k < best { k } else { k + 1 };
                assert(self.queue@[k] == q[k0]);
            }
        }
        true
    }

    /// Walks the receiving zone's entries from the cursor to the first whose
    /// transit is free, and relaxes it.
    pub fn next_transfer(&mut self) -> (r: Option<(usize, usize)>)
        requires
            old(self).wf(),
            old(self).pending is None,
        ensures
            final(self).wf(),
            final(self).graph == old(self).graph,
            final(self).consts() == old(self).consts(),
            ({
                let c = old(self).consts();
                let m = old(self).model();
                match first_free(c, m, m.cursor as int) {
                    None => r is None && final(self).model() == StepModel {
                        cursor: limit_of(c, m.receiving) as usize,
                        ..m
                    },
                    Some(p) => {
                        let e = c.head[m.receiving as int][p];
                        &&& r == Some((e.dest, e.eid))
                        &&& final(self).model() == StepModel {
                            zone_visited: m.zone_visited.update(e.dest as int, true),
                            transit_visited: m.transit_visited.update(e.eid as int, true),
                            cursor: (p + 1) as usize,
                            pending: Some(e.dest),
                            ..m
                        }
                    },
                }
            }),
    {
        let ghost c = self.consts();
        let ghost m0 = self.model();
        let r = self.receiving;
        let entries = &self.graph.head[r];
        let k = self.outputs_len[r];
        let lim = if k < entries.len() { k } else { entries.len() };
        assert(c.head[r as int] == entries@);
        while self.cursor < lim
            invariant
                self.wf(),
                self.graph == old(self).graph,
                self.consts() == c,
                c == old(self).consts(),
                m0 == old(self).model(),
                self.model() == (StepModel { cursor: self.cursor, ..m0 }),
                r == m0.receiving,
                entries@ == c.head[r as int],
                lim == limit_of(c, r),
                lim <= entries@.len(),
                m0.cursor <= self.cursor <= lim,
                first_free(c, m0, m0.cursor as int) == first_free(c, m0, self.cursor as int),
            decreases lim - self.cursor,
        {
            let node = entries[self.cursor];
            assert(self.graph.head@[r as int]@[self.cursor as int] == node);
            let ghost at = self.cursor as int;
            self.cursor = self.cursor + 1;
            if !self.transit_visited[node.eid] && !self.transit_blocked[node.eid] {
                self.transit_visited.set(node.eid, true);
                self.zone_visited.set(node.dest, true);
                self.pending = Some(node.dest);
                assert(first_free(c, m0, at) == Some(at));
                return Some((node.dest, node.eid));
            }
            assert(first_free(c, m0, at) == first_free(c, m0, at + 1));
        }
        assert(first_free(c, m0, self.cursor as int) is None);
        None
    }

    /// Advances the step to its next transfer, as `advance` describes it.
    /// A transfer's giving zone is considered for the worklist at the next
    /// call, with `keys[giving]`, so the caller stores the key of the
    /// receiving zone's new potential into `keys` before calling again.
    pub fn next(&mut self, keys: &Vec<u64>) -> (r: StepAction)
        requires
            old(self).wf(),
            keys@.len() == old(self).zone_count(),
        ensures
            final(self).wf(),
            final(self).graph == old(self).graph,
            final(self).consts() == old(self).consts(),
            (final(self).model(), r) == advance(
                old(self).consts(),
                settled(old(self).consts(), old(self).model(), keys@),
            ),
    {
        if let Some(g) = self.pending {
            self.settle_pending(keys[g]);
        }
        let ghost c = self.consts();
        let ghost target = advance(c, self.model());
        assert(self.model() == settled(c, old(self).model(), keys@));
        let n = self.graph.head.len();
        loop
            invariant
                self.wf(),
                n == self.zone_count(),
                self.graph == old(self).graph,
                self.consts() == c,
                c == old(self).consts(),
                self.pending is None,
                advance(c, self.model()) == target,
                target == advance(c, settled(c, old(self).model(), keys@)),
            decreases (if self.finished { 0int } else { 1int }) + n - self.rounds,
        {
            if self.finished {
                return StepAction::Finished;
            }
            let ghost m = self.model();
            match self.next_transfer() {
                Some((giving, transit)) => {
                    return StepAction::Transfer { receiving: self.receiving, giving, transit };
                },
                None => {
                    self.rounds = self.rounds + 1;
                    if self.rounds >= n || !self.pop_next_zone() {
                        self.finished = true;
                    }
                },
            }
        }
    }
}

} // verus!
