//! A graph of vertices laid out in rounds, one vertex per round and
//! process, for protocols that order what they broadcast.

#![allow(non_snake_case)]

use std::collections::VecDeque;
use vstd::prelude::*;

use crate::topology::Rank;

verus! {

/// Where a vertex stands in the graph: its round and the process that
/// made it, counted from zero.
#[derive(Clone, Copy, Debug, PartialEq, Eq, Hash, Structural)]
pub struct VertexId {
    pub round: usize,
    pub source: Rank,
}

/// A vertex and the vertices that it points to.
pub struct Vertex {
    pub round: usize,
    pub source: Rank,
    pub strong_edges: Vec<VertexId>,
}

/// The vertices of one round, by the process that made them.
pub type Round = Vec<Option<Vertex>>;

/// Whether two places are the same place.
pub fn IsSameVertex(v: &VertexId, u: &VertexId) -> (same: bool)
    ensures
        same == (*v == *u),
{
    v.round == u.round && v.source == u.source
}

/// The number of entries of `row` that are not set.
pub open spec fn count_unset(row: Seq<bool>) -> nat
    decreases row.len(),
{
    if row.len() == 0 {
        0
    } else {
        count_unset(row.drop_last()) + if row.last() {
            0nat
        } else {
            1nat
        }
    }
}

/// The number of entries of `rows` that are not set.
pub open spec fn unseen(rows: Seq<Vec<bool>>) -> nat
    decreases rows.len(),
{
    if rows.len() == 0 {
        0
    } else {
        unseen(rows.drop_last()) + count_unset(rows.last()@)
    }
}

/// Setting an entry that was not set leaves one unset entry fewer.
pub proof fn lemma_set_one(row: Seq<bool>, at: int)
    requires
        0 <= at < row.len(),
        !row[at],
    ensures
        count_unset(row.update(at, true)) + 1 == count_unset(row),
    decreases row.len(),
{
    let changed = row.update(at, true);
    if at == row.len() - 1 {
        assert(changed.drop_last() =~= row.drop_last());
    } else {
        assert(changed.drop_last() =~= row.drop_last().update(at, true));
        lemma_set_one(row.drop_last(), at);
    }
}

/// Setting an entry of one row that was not set leaves one unset entry
/// fewer in all rows together.
pub proof fn lemma_mark_one(before: Seq<Vec<bool>>, after: Seq<Vec<bool>>, round: int, at: int)
    requires
        before.len() == after.len(),
        0 <= round < before.len(),
        0 <= at < before[round]@.len(),
        !before[round]@[at],
        after[round]@ == before[round]@.update(at, true),
        forall|r: int| 0 <= r < before.len() && r != round ==> after[r]@ == before[r]@,
    ensures
        unseen(after) + 1 == unseen(before),
    decreases before.len(),
{
    if round == before.len() - 1 {
        lemma_set_one(before[round]@, at);
        lemma_same_rows(before.drop_last(), after.drop_last());
    } else {
        assert forall|r: int|
            0 <= r < before.drop_last().len() && r != round implies after.drop_last()[r]@
            == before.drop_last()[r]@ by {
            assert(after.drop_last()[r] == after[r]);
            assert(before.drop_last()[r] == before[r]);
        }
        lemma_mark_one(before.drop_last(), after.drop_last(), round, at);
    }
}

/// Rows with the same entries have the same number of unset entries.
pub proof fn lemma_same_rows(before: Seq<Vec<bool>>, after: Seq<Vec<bool>>)
    requires
        before.len() == after.len(),
        forall|r: int| 0 <= r < before.len() ==> after[r]@ == before[r]@,
    ensures
        unseen(after) == unseen(before),
    decreases before.len(),
{
    if before.len() > 0 {
        assert forall|r: int| 0 <= r < before.drop_last().len() implies after.drop_last()[r]@
            == before.drop_last()[r]@ by {
            assert(after.drop_last()[r] == after[r]);
            assert(before.drop_last()[r] == before[r]);
        }
        lemma_same_rows(before.drop_last(), after.drop_last());
    }
}

/// A graph in rounds. Round zero holds one vertex for each process; every
/// later round holds at most one.
pub struct RoundBasedDAG {
    matrix: Vec<Round>,
    visited: Vec<Vec<bool>>,  // Optimized allocations & constant lookup for iterated bfs
}

impl RoundBasedDAG {
    /// The number of processes.
    pub closed spec fn width(&self) -> nat {
        self.matrix@[0]@.len()
    }

    /// The number of rounds.
    pub closed spec fn rounds(&self) -> nat {
        self.matrix@.len()
    }

    /// Whether `id` names a place of the graph.
    pub open spec fn within(&self, id: VertexId) -> bool {
        id.round < self.rounds() && id.source < self.width()
    }

    /// The vertex at `id`, if the place is taken.
    pub closed spec fn vertex(&self, id: VertexId) -> Option<Vertex> {
        if id.round < self.matrix@.len() && id.source < self.matrix@[id.round as int]@.len() {
            self.matrix@[id.round as int]@[id.source as int]
        } else {
            None
        }
    }

    /// Whether the vertex at `from` points to `to`.
    pub open spec fn edge(&self, from: VertexId, to: VertexId) -> bool {
        match self.vertex(from) {
            Some(v) => v.strong_edges@.contains(to),
            None => false,
        }
    }

    /// Whether each place of `path` points to the next.
    pub open spec fn is_path(&self, path: Seq<VertexId>) -> bool {
        &&& path.len() >= 1
        &&& forall|i: int| 0 <= i < path.len() - 1 ==> self.edge(#[trigger] path[i], path[i + 1])
    }

    /// Whether edges lead from `from` to `to`. Every place reaches itself.
    pub open spec fn reaches(&self, from: VertexId, to: VertexId) -> bool {
        exists|path: Seq<VertexId>|
            #[trigger] self.is_path(path) && path[0] == from && path.last() == to
    }

    /// Every round has a place for each process, every vertex stands at
    /// the place that it names, and every edge leads to a place of the
    /// graph.
    pub closed spec fn wf(&self) -> bool {
        &&& self.matrix@.len() >= 1
        &&& self.visited@.len() == self.matrix@.len()
        &&& forall|r: int|
            0 <= r < self.matrix@.len() ==> (#[trigger] self.matrix@[r])@.len()
                == self.matrix@[0]@.len()
        &&& forall|r: int|
            0 <= r < self.visited@.len() ==> (#[trigger] self.visited@[r])@.len()
                == self.matrix@[0]@.len()
        &&& forall|id: VertexId| #[trigger]
            self.within(id) ==> match self.vertex(id) {
                Some(v) => v.round == id.round && v.source == id.source && forall|k: int|
                    0 <= k < v.strong_edges@.len() ==> self.within(#[trigger] v.strong_edges@[k]),
                None => true,
            }
    }

    /// Whether the place `id` has been seen by the search that is under
    /// way.
    spec fn seen(&self, id: VertexId) -> bool {
        self.within(id) && self.visited@[id.round as int]@[id.source as int]
    }

    /// Whether two graphs have the same places and the same vertices.
    pub open spec fn same_graph(&self, other: &Self) -> bool {
        &&& self.width() == other.width()
        &&& self.rounds() == other.rounds()
        &&& forall|id: VertexId| self.vertex(id) == other.vertex(id)
    }

    /// A graph of one round with a vertex for each of `n` processes, none
    /// of which points anywhere.
    pub fn New(n: usize) -> (dag: Self)
        ensures
            dag.wf(),
            dag.rounds() == 1,
            dag.width() == n,
            forall|source: Rank|
                source < n ==> match #[trigger] dag.vertex(VertexId { round: 0, source }) {
                    Some(v) => v.round == 0 && v.source == source && v.strong_edges@.len() == 0,
                    None => false,
                },
    {
        let mut genesis_vertices: Round = Vec::new();
        let mut round_visited: Vec<bool> = Vec::new();
        let mut source: usize = 0;
        while source < n
            invariant
                source <= n,
                genesis_vertices@.len() == source,
                round_visited@.len() == source,
                forall|k: int|
                    0 <= k < source ==> match #[trigger] genesis_vertices@[k] {
                        Some(v) => v.round == 0 && v.source == k && v.strong_edges@.len() == 0,
                        None => false,
                    },
            decreases n - source,
        {
            genesis_vertices.push(Some(Vertex { round: 0, source, strong_edges: Vec::new() }));
            round_visited.push(false);
            source = source + 1;
        }
        let mut matrix: Vec<Round> = Vec::new();
        matrix.push(genesis_vertices);
        let mut visited: Vec<Vec<bool>> = Vec::new();
        visited.push(round_visited);
        let dag = RoundBasedDAG { matrix, visited };
        proof {
            assert forall|id: VertexId| #[trigger] dag.within(id) implies match dag.vertex(id) {
                Some(v) => v.round == id.round && v.source == id.source && forall|k: int|
                    0 <= k < v.strong_edges@.len() ==> dag.within(#[trigger] v.strong_edges@[k]),
                None => true,
            } by {
                assert(dag.matrix@[0]@[id.source as int] is Some);
            }
            assert forall|source: Rank| source < n implies match #[trigger] dag.vertex(
                VertexId { round: 0, source },
            ) {
                Some(v) => v.round == 0 && v.source == source && v.strong_edges@.len() == 0,
                None => false,
            } by {
                assert(dag.matrix@[0]@[source as int] is Some);
            }
        }
        dag
    }

    /// The vertices of round `index`.
    pub fn round(&self, index: usize) -> (round: &Round)
        requires
            self.wf(),
            index < self.rounds(),
        ensures
            round@.len() == self.width(),
            forall|source: Rank|
                source < self.width() ==> round@[source as int] == #[trigger] self.vertex(
                    VertexId { round: index, source },
                ),
    {
        &self.matrix[index]
    }

    /// The number of rounds.
    pub fn round_count(&self) -> (rounds: usize)
        ensures
            rounds == self.rounds(),
    {
        self.matrix.len()
    }

    /// Marking one place changes what has been seen at that place and
    /// nothing else.
    proof fn lemma_marked(&self, before: &Self, at: VertexId, value: bool)
        requires
            before.wf(),
            before.within(at),
            self.matrix == before.matrix,
            self.visited@.len() == before.visited@.len(),
            self.visited@[at.round as int]@ == before.visited@[at.round as int]@.update(
                at.source as int,
                value,
            ),
            forall|r: int|
                0 <= r < before.visited@.len() && r != at.round ==> self.visited@[r]
                    == before.visited@[r],
        ensures
            self.wf(),
            forall|id: VertexId| self.vertex(id) == before.vertex(id),
            forall|id: VertexId| self.within(id) == before.within(id),
            forall|id: VertexId|
                #[trigger] self.seen(id) == if id == at {
                    value
                } else {
                    before.seen(id)
                },
    {
        assert forall|id: VertexId| self.vertex(id) == before.vertex(id) by {}
        assert forall|id: VertexId| self.within(id) == before.within(id) by {}
        assert forall|r: int| 0 <= r < self.visited@.len() implies (
        #[trigger] self.visited@[r])@.len() == self.matrix@[0]@.len() by {
            assert(before.visited@[r]@.len() == before.matrix@[0]@.len());
        }
        assert forall|id: VertexId| #[trigger] self.within(id) implies match self.vertex(id) {
            Some(w) => w.round == id.round && w.source == id.source && forall|k: int|
                0 <= k < w.strong_edges@.len() ==> self.within(#[trigger] w.strong_edges@[k]),
            None => true,
        } by {
            assert(before.within(id));
            if before.vertex(id) is Some {
                let w = before.vertex(id)->0;
                assert forall|k: int| 0 <= k < w.strong_edges@.len() implies self.within(
                    #[trigger] w.strong_edges@[k],
                ) by {
                    assert(before.within(w.strong_edges@[k]));
                }
            }
        }
        assert forall|id: VertexId|
            #[trigger] self.seen(id) == if id == at {
                value
            } else {
                before.seen(id)
            } by {
            if self.within(id) && id.round != at.round {
                assert(self.visited@[id.round as int] == before.visited@[id.round as int]);
            }
        }
    }

    /// Forgets what an earlier search has seen.
    fn ResetVisited(&mut self)
        requires
            old(self).wf(),
        ensures
            final(self).wf(),
            final(self).matrix == old(self).matrix,
            forall|id: VertexId| !final(self).seen(id),
    {
        let rounds = self.visited.len();
        let mut r: usize = 0;
        while r < rounds
            invariant
                r <= rounds,
                rounds == self.visited@.len(),
                self.wf(),
                self.matrix == old(self).matrix,
                forall|x: int, y: int|
                    0 <= x < r && 0 <= y < self.visited@[x]@.len() ==> !(
                    #[trigger] self.visited@[x]@[y]),
            decreases rounds - r,
        {
            let l = self.visited[r].len();
            let mut s: usize = 0;
            while s < l
                invariant
                    s <= l,
                    r < rounds,
                    rounds == self.visited@.len(),
                    l == self.visited@[r as int]@.len(),
                    self.wf(),
                    self.matrix == old(self).matrix,
                    forall|x: int, y: int|
                        0 <= x < r && 0 <= y < self.visited@[x]@.len() ==> !(
                        #[trigger] self.visited@[x]@[y]),
                    forall|y: int| 0 <= y < s ==> !(#[trigger] self.visited@[r as int]@[y]),
                decreases l - s,
            {
                let ghost before = *self;
                self.visited[r][s] = false;
                proof {
                    self.lemma_marked(&before, VertexId { round: r, source: s }, false);
                    assert forall|x: int, y: int|
                        0 <= x < r && 0 <= y < self.visited@[x]@.len() implies !(
                    #[trigger] self.visited@[x]@[y]) by {
                        assert(self.visited@[x] == before.visited@[x]);
                        assert(!before.visited@[x]@[y]);
                    }
                }
                s = s + 1;
            }
            r = r + 1;
        }
    }

    /// Adds `rounds` rounds in which no place is taken.
    fn Grow(&mut self, rounds: usize)
        requires
            old(self).wf(),
        ensures
            final(self).wf(),
            final(self).width() == old(self).width(),
            final(self).rounds() == old(self).rounds() + rounds,
            forall|id: VertexId|
                id.round < old(self).rounds()
                    ==> #[trigger] final(self).vertex(id) == old(self).vertex(id),
            forall|id: VertexId|
                id.round >= old(self).rounds() ==> #[trigger] final(self).vertex(id) is None,
    {
        let n = self.matrix[0].len();
        let mut added: usize = 0;
        while added < rounds
            invariant
                added <= rounds,
                self.wf(),
                n == self.width(),
                self.width() == old(self).width(),
                self.rounds() == old(self).rounds() + added,
                forall|id: VertexId|
                    id.round < old(self).rounds()
                        ==> #[trigger] self.vertex(id) == old(self).vertex(id),
                forall|id: VertexId|
                    id.round >= old(self).rounds() ==> #[trigger] self.vertex(id) is None,
            decreases rounds - added,
        {
            let mut round: Round = Vec::new();
            let mut round_visited: Vec<bool> = Vec::new();
            let mut s: usize = 0;
            while s < n
                invariant
                    s <= n,
                    round@.len() == s,
                    round_visited@.len() == s,
                    forall|k: int| 0 <= k < s ==> #[trigger] round@[k] is None,
                decreases n - s,
            {
                round.push(None);
                round_visited.push(false);
                s = s + 1;
            }
            let ghost before = *self;
            self.matrix.push(round);
            self.visited.push(round_visited);
            proof {
                assert forall|id: VertexId|
                    id.round < before.rounds() implies #[trigger] self.vertex(id)
                    == before.vertex(id) by {
                    assert(self.matrix@[id.round as int] == before.matrix@[id.round as int]);
                }
                assert forall|id: VertexId|
                    id.round >= old(self).rounds() implies #[trigger] self.vertex(id)
                    is None by {
                    if id.round < before.rounds() {
                        assert(before.vertex(id) is None);
                    }
                }
                assert forall|r: int| 0 <= r < self.matrix@.len() implies (
                #[trigger] self.matrix@[r])@.len() == self.matrix@[0]@.len() by {
                    if r < before.matrix@.len() {
                        assert(self.matrix@[r] == before.matrix@[r]);
                    }
                }
                assert forall|r: int| 0 <= r < self.visited@.len() implies (
                #[trigger] self.visited@[r])@.len() == self.matrix@[0]@.len() by {
                    if r < before.visited@.len() {
                        assert(self.visited@[r] == before.visited@[r]);
                    }
                }
                assert forall|id: VertexId| #[trigger] self.within(id) implies match self.vertex(
                    id,
                ) {
                    Some(v) => v.round == id.round && v.source == id.source && forall|k: int|
                        0 <= k < v.strong_edges@.len() ==> self.within(
                            #[trigger] v.strong_edges@[k],
                        ),
                    None => true,
                } by {
                    if id.round < before.rounds() {
                        assert(before.within(id));
                        assert(self.vertex(id) == before.vertex(id));
                        if before.vertex(id) is Some {
                            let v = before.vertex(id)->0;
                            assert forall|k: int|
                                0 <= k < v.strong_edges@.len() implies self.within(
                                #[trigger] v.strong_edges@[k],
                            ) by {
                                assert(before.within(v.strong_edges@[k]));
                            }
                        }
                    }
                }
            }
            added = added + 1;
        }
    }

    /// Puts `v` at the place that it names.
    fn Insert(&mut self, v: Vertex)
        requires
            old(self).wf(),
            v.round < old(self).rounds(),
            v.source < old(self).width(),
            forall|k: int|
                0 <= k < v.strong_edges@.len() ==> old(self).within(#[trigger] v.strong_edges@[k]),
        ensures
            final(self).wf(),
            final(self).width() == old(self).width(),
            final(self).rounds() == old(self).rounds(),
            final(self).vertex(VertexId { round: v.round, source: v.source }) == Some(v),
            forall|id: VertexId|
                id != (VertexId { round: v.round, source: v.source })
                    ==> #[trigger] final(self).vertex(id) == old(self).vertex(id),
    {
        let round = v.round;
        let source = v.source;
        let ghost before = *self;
        self.matrix[round][source] = Some(v);
        proof {
            assert forall|r: int| 0 <= r < self.matrix@.len() implies (
            #[trigger] self.matrix@[r])@.len() == self.matrix@[0]@.len() by {
                assert(before.matrix@[r]@.len() == before.matrix@[0]@.len());
            }
            assert forall|id: VertexId|
                id != (VertexId { round, source }) implies #[trigger] self.vertex(id)
                == before.vertex(id) by {
                if id.round < self.matrix@.len() && id.round != round {
                    assert(self.matrix@[id.round as int] == before.matrix@[id.round as int]);
                }
            }
            assert forall|id: VertexId| #[trigger] self.within(id) implies match self.vertex(id) {
                Some(w) => w.round == id.round && w.source == id.source && forall|k: int|
                    0 <= k < w.strong_edges@.len() ==> self.within(#[trigger] w.strong_edges@[k]),
                None => true,
            } by {
                assert(before.within(id));
                if id != (VertexId { round, source }) {
                    assert(self.vertex(id) == before.vertex(id));
                    if before.vertex(id) is Some {
                        let w = before.vertex(id)->0;
                        assert forall|k: int| 0 <= k < w.strong_edges@.len() implies self.within(
                            #[trigger] w.strong_edges@[k],
                        ) by {
                            assert(before.within(w.strong_edges@[k]));
                        }
                    }
                } else {
                    assert forall|k: int| 0 <= k < v.strong_edges@.len() implies self.within(
                        #[trigger] v.strong_edges@[k],
                    ) by {
                        assert(before.within(v.strong_edges@[k]));
                    }
                }
            }
        }
    }

    /// Whether the graph can take `v`: it names a place of the graph or of
    /// the round that follows the last, and its edges lead to places that
    /// the graph then has.
    pub open spec fn admits(&self, v: Vertex) -> bool {
        &&& v.round <= self.rounds()
        &&& v.source < self.width()
        &&& forall|k: int|
            0 <= k < v.strong_edges@.len() ==> (#[trigger] v.strong_edges@[k]).source
                < self.width() && (v.strong_edges@[k].round < self.rounds()
                || v.strong_edges@[k].round <= v.round)
    }

    /// Checks whether the graph can take `v`.
    pub fn can_take(&self, v: &Vertex) -> (ok: bool)
        requires
            self.wf(),
        ensures
            ok == self.admits(*v),
    {
        let rounds = self.matrix.len();
        let width = self.matrix[0].len();
        if v.round > rounds || v.source >= width {
            return false;
        }
        let n = v.strong_edges.len();
        let mut k: usize = 0;
        while k < n
            invariant
                k <= n,
                n == v.strong_edges@.len(),
                rounds == self.rounds(),
                width == self.width(),
                forall|j: int|
                    0 <= j < k ==> (#[trigger] v.strong_edges@[j]).source < width && (
                    v.strong_edges@[j].round < rounds || v.strong_edges@[j].round <= v.round),
            decreases n - k,
        {
            let edge = v.strong_edges[k];
            if edge.source >= width || (edge.round >= rounds && edge.round > v.round) {
                return false;
            }
            k = k + 1;
        }
        true
    }

    /// Puts `v` at the place that it names, in place of what stood there.
    /// Where `v` belongs to the round that follows the last, the graph
    /// grows by that round.
    pub fn AddVertex(&mut self, v: Vertex)
        requires
            old(self).wf(),
            old(self).admits(v),
        ensures
            final(self).wf(),
            final(self).width() == old(self).width(),
            final(self).rounds() == if v.round < old(self).rounds() {
                old(self).rounds()
            } else {
                old(self).rounds() + 1
            },
            final(self).vertex(VertexId { round: v.round, source: v.source }) == Some(v),
            forall|id: VertexId|
                id != (VertexId { round: v.round, source: v.source })
                    ==> #[trigger] final(self).vertex(id) == old(self).vertex(id),
    {
        if self.matrix.len() > v.round {
            self.Insert(v);
        } else {
            let need_allocate_rounds = self.matrix.len() - v.round + 1;
            self.Grow(need_allocate_rounds);
            proof {
                assert forall|id: VertexId| #[trigger] self.vertex(id) == old(self).vertex(id) by {
                    if id.round >= old(self).rounds() {
                        assert(old(self).vertex(id) is None);
                    }
                }
            }
            self.Insert(v)
        }
    }

    /// Edges that lead from `from` to `middle`, and an edge from `middle`
    /// on to `to`, lead from `from` to `to`.
    pub proof fn lemma_one_more_edge(&self, from: VertexId, middle: VertexId, to: VertexId)
        requires
            self.reaches(from, middle),
            self.edge(middle, to),
        ensures
            self.reaches(from, to),
    {
        let path = choose|path: Seq<VertexId>|
            #[trigger] self.is_path(path) && path[0] == from && path.last() == middle;
        let longer = path.push(to);
        assert forall|i: int| 0 <= i < longer.len() - 1 implies self.edge(
            #[trigger] longer[i],
            longer[i + 1],
        ) by {
            if i < path.len() - 1 {
                assert(self.edge(path[i], path[i + 1]));
            }
        }
        assert(self.is_path(longer) && longer[0] == from && longer.last() == to);
    }

    /// Where every edge from a seen place leads to a seen place other than
    /// `u`, every place of a path that starts at a seen place is seen, and
    /// none behind the first is `u`.
    proof fn lemma_path_stays_seen(&self, path: Seq<VertexId>, u: VertexId, upto: int)
        requires
            self.is_path(path),
            self.seen(path[0]),
            forall|x: VertexId, y: VertexId|
                self.seen(x) && #[trigger] self.edge(x, y) ==> self.seen(y) && y != u,
            0 <= upto < path.len(),
        ensures
            self.seen(path[upto]),
            upto > 0 ==> path[upto] != u,
        decreases upto,
    {
        if upto > 0 {
            self.lemma_path_stays_seen(path, u, upto - 1);
            assert(self.edge(path[upto - 1], path[upto - 1 + 1]));
        }
    }

    /// Whether edges lead from `v` to `u`.
    pub fn PathExists(&mut self, v: VertexId, u: VertexId) -> (found: bool)
        requires
            old(self).wf(),
            old(self).within(v),
        ensures
            final(self).wf(),
            final(self).same_graph(old(self)),
            found == old(self).reaches(v, u),
    {
        if IsSameVertex(&v, &u) {
            proof {
                let path = seq![v];
                assert(self.is_path(path) && path[0] == v && path.last() == u);
            }
            return true;
        }
        self.ResetVisited();
        let ghost cleared = *self;
        self.visited[v.round][v.source] = true;
        proof {
            self.lemma_marked(&cleared, v, true);
            assert forall|id: VertexId| #[trigger] self.seen(id) implies self.reaches(v, id) by {
                assert(id == v);
                let start = seq![v];
                assert(self.is_path(start) && start[0] == v && start.last() == v);
            }
        }
        let mut queue: VecDeque<VertexId> = VecDeque::new();
        queue.push_back(v);
        assert(queue@ =~= seq![v]);
        assert(queue@[0] == v);
        assert forall|x: VertexId, y: VertexId|
            self.seen(x) && !queue@.contains(x) && #[trigger] self.edge(x, y) implies self.seen(y)
            && y != u by {
            assert(x == v);
        }
        while queue.len() > 0
            invariant
                self.wf(),
                self.matrix == old(self).matrix,
                forall|id: VertexId| self.vertex(id) == old(self).vertex(id),
                forall|id: VertexId| self.within(id) == old(self).within(id),
                v != u,
                self.seen(v),
                forall|k: int| 0 <= k < queue@.len() ==> self.seen(#[trigger] queue@[k]),
                forall|id: VertexId| #[trigger] self.seen(id) ==> self.reaches(v, id),
                forall|x: VertexId, y: VertexId|
                    self.seen(x) && !queue@.contains(x) && #[trigger] self.edge(x, y)
                        ==> self.seen(y) && y != u,
            decreases unseen(self.visited@), queue@.len(),
        {
            let ghost waiting = queue@;
            let ghost unseen_before = unseen(self.visited@);
            let curr = match queue.pop_front() {
                Some(curr) => curr,
                None => v,
            };
            assert(curr == waiting[0]);
            assert(self.seen(curr));
            let ghost pushed: nat = 0;
            match &self.matrix[curr.round][curr.source] {
                None => {
                    assert(self.vertex(curr) is None);
                },
                Some(vertex) => {
                    assert(self.vertex(curr) == Some(*vertex));
                    proof {
                        assert forall|x: VertexId, y: VertexId|
                            self.seen(x) && x != curr && !queue@.contains(x)
                                && #[trigger] self.edge(x, y) implies self.seen(y) && y != u by {
                            if waiting.contains(x) {
                                let w = choose|w: int| 0 <= w < waiting.len() && waiting[w] == x;
                                assert(queue@[w - 1] == x);
                            }
                        }
                    }
                    let n = vertex.strong_edges.len();
                    let mut i: usize = 0;
                    while i < n
                        invariant
                            i <= n,
                            n == vertex.strong_edges@.len(),
                            self.wf(),
                            self.matrix == old(self).matrix,
                            forall|id: VertexId| self.vertex(id) == old(self).vertex(id),
                            forall|id: VertexId| self.within(id) == old(self).within(id),
                            self.vertex(curr) == Some(*vertex),
                            v != u,
                            self.seen(v),
                            self.seen(curr),
                            forall|k: int| 0 <= k < queue@.len()
                                ==> self.seen(#[trigger] queue@[k]),
                            forall|id: VertexId| #[trigger] self.seen(id) ==> self.reaches(v, id),
                            forall|k: int|
                                0 <= k < i ==> self.seen(#[trigger] vertex.strong_edges@[k])
                                    && vertex.strong_edges@[k] != u,
                            forall|x: VertexId, y: VertexId|
                                self.seen(x) && x != curr && !queue@.contains(x)
                                    && #[trigger] self.edge(x, y) ==> self.seen(y) && y != u,
                            unseen(self.visited@) + pushed == unseen_before,
                            queue@.len() + 1 == waiting.len() + pushed,
                            forall|k: int|
                                0 <= k < waiting.len() - 1 ==> #[trigger] queue@[k] == waiting[k
                                    + 1],
                        decreases n - i,
                    {
                        let edge = vertex.strong_edges[i];
                        proof {
                            assert(self.within(curr));
                            assert(self.within(vertex.strong_edges@[i as int]));
                            assert(vertex.strong_edges@.contains(edge));
                            assert(self.edge(curr, edge));
                            self.lemma_one_more_edge(v, curr, edge);
                        }
                        if IsSameVertex(&edge, &u) {
                            proof {
                                old(self).lemma_same_reach(&*self, v, u);
                            }
                            return true;
                        }
                        if !self.visited[edge.round][edge.source] {
                            let ghost before = *self;
                            let ghost queued = queue@;
                            self.visited[edge.round][edge.source] = true;
                            queue.push_back(edge);
                            proof {
                                pushed = pushed + 1;
                                lemma_mark_one(
                                    before.visited@,
                                    self.visited@,
                                    edge.round as int,
                                    edge.source as int,
                                );
                                self.lemma_marked(&before, edge, true);
                                assert forall|id: VertexId|
                                    #[trigger] self.seen(id) implies self.reaches(v, id) by {
                                    if id != edge {
                                        assert(before.seen(id));
                                    }
                                    assert(before.reaches(v, id));
                                    self.lemma_same_reach(&before, v, id);
                                }
                                assert forall|k: int| 0 <= k < queue@.len() implies self.seen(
                                    #[trigger] queue@[k],
                                ) by {
                                    if k < queued.len() {
                                        assert(queue@[k] == queued[k]);
                                        assert(before.seen(queued[k]));
                                    }
                                }
                                assert forall|k: int| 0 <= k < i implies self.seen(
                                    #[trigger] vertex.strong_edges@[k],
                                ) && vertex.strong_edges@[k] != u by {
                                    assert(before.seen(vertex.strong_edges@[k]));
                                }
                                assert forall|x: VertexId, y: VertexId|
                                    self.seen(x) && x != curr && !queue@.contains(x)
                                        && #[trigger] self.edge(x, y) implies self.seen(y) && y
                                    != u by {
                                    assert(queue@[queued.len() as int] == edge);
                                    assert(x != edge);
                                    assert(before.seen(x));
                                    if queued.contains(x) {
                                        let w = choose|w: int| 0 <= w < queued.len()
                                            && queued[w] == x;
                                        assert(queue@[w] == x);
                                    }
                                    assert(before.edge(x, y));
                                    assert(before.seen(y));
                                }
                            }
                        }
                        i = i + 1;
                    }
                },
            }
            proof {
                assert forall|x: VertexId, y: VertexId|
                    self.seen(x) && !queue@.contains(x)
                        && #[trigger] self.edge(x, y) implies self.seen(
                    y,
                ) && y != u by {
                    if x == curr {
                        let vertex = self.vertex(curr)->0;
                        let k = choose|k: int|
                            0 <= k < vertex.strong_edges@.len() && vertex.strong_edges@[k] == y;
                        assert(self.seen(vertex.strong_edges@[k]));
                    } else if waiting.contains(x) {
                        let w = choose|w: int| 0 <= w < waiting.len() && waiting[w] == x;
                        if w > 0 {
                            assert(queue@[w - 1] == waiting[w - 1 + 1]);
                            assert(queue@.contains(x));
                        }
                    }
                }
            }
        }
        proof {
            if old(self).reaches(v, u) {
                let path = choose|path: Seq<VertexId>|
                    #[trigger] old(self).is_path(path) && path[0] == v && path.last() == u;
                assert forall|i: int| 0 <= i < path.len() - 1 implies self.edge(
                    #[trigger] path[i],
                    path[i + 1],
                ) by {
                    assert(old(self).edge(path[i], path[i + 1]));
                }
                assert(self.is_path(path));
                assert forall|x: VertexId, y: VertexId|
                    self.seen(x) && #[trigger] self.edge(x, y) implies self.seen(y) && y != u by {
                    assert(!queue@.contains(x));
                }
                self.lemma_path_stays_seen(path, u, path.len() - 1);
            }
        }
        false
    }

    /// Two graphs with the same vertices have the same paths.
    proof fn lemma_same_reach(&self, other: &Self, from: VertexId, to: VertexId)
        requires
            forall|id: VertexId| self.vertex(id) == other.vertex(id),
            other.reaches(from, to),
        ensures
            self.reaches(from, to),
    {
        let path = choose|path: Seq<VertexId>|
            #[trigger] other.is_path(path) && path[0] == from && path.last() == to;
        assert forall|i: int| 0 <= i < path.len() - 1 implies self.edge(
            #[trigger] path[i],
            path[i + 1],
        ) by {
            assert(other.edge(path[i], path[i + 1]));
        }
        assert(self.is_path(path) && path[0] == from && path.last() == to);
    }
}

} // verus!
