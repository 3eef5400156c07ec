//! The crawl as mathematics: what a crawl knows at any moment, the steps that
//! change it, and what holds of every state that the steps can reach.

use vstd::prelude::*;
use crate::graph::{neighbors_of, NODE_LIMIT};

verus! {

/// Where a node stands in its life.
#[derive(Clone, Copy, Debug, PartialEq, Eq, Structural)]
pub enum NodeState {
    /// Not fetched: it waits on the frontier, or lies beyond the depth limit.
    Pending,
    /// Fetched, and its accepted links were added as children.
    Expanded,
    /// Its fetch failed: it stays a leaf.
    FetchFailed,
}

/// A crawl at one moment. Node 0 is the seed. The frontier is a stack of
/// (node, depth) pairs: its last entry is fetched next, unless an error has
/// halted the crawl.
pub struct CrawlView {
    pub limit: nat,
    pub halted: bool,
    pub labels: Seq<Seq<char>>,
    pub edges: Seq<(int, int)>,
    pub depths: Seq<nat>,
    pub states: Seq<NodeState>,
    pub frontier: Seq<(int, nat)>,
}

impl CrawlView {
    /// The crawl before any fetch: the seed alone, at depth 1, waiting if the
    /// limit lets it be fetched at all.
    pub open spec fn seed(limit: nat, link: Seq<char>) -> CrawlView {
        CrawlView {
            limit,
            halted: false,
            labels: seq![link],
            edges: Seq::empty(),
            depths: seq![1nat],
            states: seq![NodeState::Pending],
            frontier: if limit >= 1 {
                seq![(0int, 1nat)]
            } else {
                Seq::empty()
            },
        }
    }

    /// A node waits to be fetched.
    pub open spec fn pending(self) -> bool {
        !self.halted && self.frontier.len() > 0
    }

    /// The crawl ran to its end: no error halted it and nothing waits.
    pub open spec fn completed(self) -> bool {
        !self.halted && self.frontier.len() == 0
    }

    /// The node that is fetched next.
    pub open spec fn current(self) -> int {
        self.frontier.last().0
    }

    /// Node `t` waits on the frontier.
    pub open spec fn on_frontier(self, t: int) -> bool {
        exists|i: int| 0 <= i < self.frontier.len() && (#[trigger] self.frontier[i]).0 == t
    }

    /// The state after the current node's page came back with `links` as its
    /// accepted links: each becomes a new node, a child of the current node
    /// one level deeper, and waits in its turn unless it lies beyond the limit.
    pub open spec fn expand(self, links: Seq<Seq<char>>) -> CrawlView {
        let cur = self.current();
        let below = self.frontier.last().1 + 1;
        let n = self.labels.len() as int;
        CrawlView {
            limit: self.limit,
            halted: self.halted,
            labels: self.labels + links,
            edges: self.edges + Seq::new(links.len(), |i: int| (cur, n + i)),
            depths: self.depths + Seq::new(links.len(), |i: int| below as nat),
            states: self.states.update(cur, NodeState::Expanded) + Seq::new(
                links.len(),
                |i: int| NodeState::Pending,
            ),
            frontier: self.frontier.drop_last() + (if below <= self.limit {
                Seq::new(links.len(), |i: int| (n + i, below as nat))
            } else {
                Seq::empty()
            }),
        }
    }

    /// The state after the current node's fetch failed: the node is marked and
    /// leaves the frontier, and nothing else changes.
    pub open spec fn fail(self) -> CrawlView {
        CrawlView {
            states: self.states.update(self.current(), NodeState::FetchFailed),
            frontier: self.frontier.drop_last(),
            ..self
        }
    }

    /// The state after an error that ends the crawl: what was found stays,
    /// and nothing more is fetched.
    pub open spec fn halt(self) -> CrawlView {
        CrawlView { halted: true, ..self }
    }

    /// The number of edges on the way from the seed to node `t`, found by
    /// following, from `t` back, the one edge that enters each node.
    pub open spec fn hops(self, t: int) -> nat
        decreases t,
    {
        if 0 < t <= self.edges.len() && 0 <= self.edges[t - 1].0 < t {
            1 + self.hops(self.edges[t - 1].0)
        } else {
            0
        }
    }

    /// A bound on the steps that a crawl can still take.
    pub open spec fn work_left(self) -> int {
        if self.halted {
            0
        } else {
            2 * (NODE_LIMIT - self.labels.len()) + self.frontier.len()
        }
    }

    /// `walk` is a sequence of nodes, each joined to the next by an edge.
    pub open spec fn is_walk(self, walk: Seq<int>) -> bool {
        &&& walk.len() >= 1
        &&& forall|i: int|
            0 <= i < walk.len() - 1 ==> self.edges.contains((#[trigger] walk[i], walk[i + 1]))
    }

    /// What holds of every state of a crawl.
    pub open spec fn wf(self) -> bool {
        let n = self.labels.len() as int;
        &&& 1 <= n <= NODE_LIMIT
        &&& self.edges.len() + 1 == n
        &&& self.depths.len() == n
        &&& self.states.len() == n
        &&& self.depths[0] == 1
        &&& forall|k: int|
            0 <= k < self.edges.len() ==> {
                &&& (#[trigger] self.edges[k]).1 == k + 1
                &&& 0 <= self.edges[k].0 <= k
                &&& self.depths[k + 1] == self.depths[self.edges[k].0] + 1
                &&& self.states[self.edges[k].0] == NodeState::Expanded
            }
        &&& forall|t: int|
            0 <= t < n ==> {
                &&& 1 <= #[trigger] self.depths[t] <= self.limit + 1
                &&& self.depths[t] <= t + 1
            }
        &&& forall|i: int|
            0 <= i < self.frontier.len() ==> {
                &&& 0 <= (#[trigger] self.frontier[i]).0 < n
                &&& self.states[self.frontier[i].0] == NodeState::Pending
                &&& self.frontier[i].1 == self.depths[self.frontier[i].0]
                &&& self.frontier[i].1 <= self.limit
            }
        &&& forall|i: int, j: int|
            0 <= i < j < self.frontier.len() ==> (#[trigger] self.frontier[i]).0 != (
            #[trigger] self.frontier[j]).0
        &&& forall|t: int|
            0 <= t < n && #[trigger] self.states[t] == NodeState::Pending && self.depths[t]
                <= self.limit ==> self.on_frontier(t)
    }
}

/// A crawl starts in a state that is well formed.
pub proof fn lemma_seed_wf(limit: nat, link: Seq<char>)
    ensures
        CrawlView::seed(limit, link).wf(),
        CrawlView::seed(limit, link).labels[0] == link,
{
    let v = CrawlView::seed(limit, link);
    if limit >= 1 {
        assert(v.frontier[0].0 == 0);
    }
}

/// Expanding the current node keeps the state well formed, as long as the
/// graph has room for the new nodes.
pub proof fn lemma_expand_wf(v: CrawlView, links: Seq<Seq<char>>)
    requires
        v.wf(),
        v.pending(),
        v.labels.len() + links.len() <= NODE_LIMIT,
    ensures
        v.expand(links).wf(),
{
    let w = v.expand(links);
    let n = v.labels.len() as int;
    let cur = v.current();
    let last = v.frontier.len() - 1;
    let below = v.frontier.last().1 + 1;
    assert(v.frontier[last].0 == cur);
    assert forall|k: int| 0 <= k < w.edges.len() implies {
        &&& (#[trigger] w.edges[k]).1 == k + 1
        &&& 0 <= w.edges[k].0 <= k
        &&& w.depths[k + 1] == w.depths[w.edges[k].0] + 1
        &&& w.states[w.edges[k].0] == NodeState::Expanded
    } by {
        if k < v.edges.len() {
            assert(w.edges[k] == v.edges[k]);
        }
    }
    assert forall|t: int| 0 <= t < w.labels.len() implies {
        &&& 1 <= #[trigger] w.depths[t] <= w.limit + 1
        &&& w.depths[t] <= t + 1
    } by {
        if t < n {
            assert(w.depths[t] == v.depths[t]);
        } else {
            assert(v.depths[cur] <= cur + 1);
        }
    }
    assert forall|i: int| 0 <= i < w.frontier.len() implies {
        &&& 0 <= (#[trigger] w.frontier[i]).0 < w.labels.len()
        &&& w.states[w.frontier[i].0] == NodeState::Pending
        &&& w.frontier[i].1 == w.depths[w.frontier[i].0]
        &&& w.frontier[i].1 <= w.limit
    } by {
        if i < last {
            assert(w.frontier[i] == v.frontier[i]);
        }
    }
    assert forall|i: int, j: int| 0 <= i < j < w.frontier.len() implies (#[trigger] w.frontier[i]).0
        != (#[trigger] w.frontier[j]).0 by {
        if i < last {
            assert(w.frontier[i] == v.frontier[i]);
        }
        if j < last {
            assert(w.frontier[j] == v.frontier[j]);
        }
    }
    assert forall|t: int|
        0 <= t < w.labels.len() && #[trigger] w.states[t] == NodeState::Pending && w.depths[t]
            <= w.limit implies w.on_frontier(t) by {
        if t < n {
            assert(v.states[t] == NodeState::Pending);
            assert(v.depths[t] == w.depths[t]);
            assert(v.on_frontier(t));
            let i = choose|i: int| 0 <= i < v.frontier.len() && (#[trigger] v.frontier[i]).0 == t;
            assert(i < last);
            assert(w.frontier[i].0 == t);
        } else {
            assert(w.frontier[last + (t - n)].0 == t);
        }
    }
}

/// Marking the current node as failed keeps the state well formed.
pub proof fn lemma_fail_wf(v: CrawlView)
    requires
        v.wf(),
        v.pending(),
    ensures
        v.fail().wf(),
{
    let w = v.fail();
    let last = v.frontier.len() - 1;
    let cur = v.current();
    assert(v.frontier[last].0 == cur);
    assert forall|i: int| 0 <= i < w.frontier.len() implies {
        &&& 0 <= (#[trigger] w.frontier[i]).0 < w.labels.len()
        &&& w.states[w.frontier[i].0] == NodeState::Pending
        &&& w.frontier[i].1 == w.depths[w.frontier[i].0]
        &&& w.frontier[i].1 <= w.limit
    } by {
        assert(w.frontier[i] == v.frontier[i]);
    }
    assert forall|i: int, j: int| 0 <= i < j < w.frontier.len() implies (#[trigger] w.frontier[i]).0
        != (#[trigger] w.frontier[j]).0 by {
        assert(w.frontier[i] == v.frontier[i]);
        assert(w.frontier[j] == v.frontier[j]);
    }
    assert forall|t: int|
        0 <= t < w.labels.len() && #[trigger] w.states[t] == NodeState::Pending && w.depths[t]
            <= w.limit implies w.on_frontier(t) by {
        assert(v.states[t] == NodeState::Pending);
        let i = choose|i: int| 0 <= i < v.frontier.len() && (#[trigger] v.frontier[i]).0 == t;
        assert(i < last);
        assert(w.frontier[i].0 == t);
    }
    assert forall|k: int| 0 <= k < w.edges.len() implies {
        &&& (#[trigger] w.edges[k]).1 == k + 1
        &&& 0 <= w.edges[k].0 <= k
        &&& w.depths[k + 1] == w.depths[w.edges[k].0] + 1
        &&& w.states[w.edges[k].0] == NodeState::Expanded
    } by {
        assert(v.states[v.edges[k].0] == NodeState::Expanded);
    }
}

/// A node's depth is one more than the number of edges between the seed and
/// it, and that number never exceeds the depth limit.
pub proof fn lemma_depth_bound(v: CrawlView, t: int)
    requires
        v.wf(),
        0 <= t < v.labels.len(),
    ensures
        v.depths[t] == v.hops(t) + 1,
        v.hops(t) <= v.limit,
    decreases t,
{
    if t > 0 {
        let parent = v.edges[t - 1].0;
        lemma_depth_bound(v, parent);
    }
}

/// An edge leads one level down: its target is a node other than the seed,
/// one edge further from the seed than its source.
pub proof fn lemma_edge_descends(v: CrawlView, from: int, to: int)
    requires
        v.wf(),
        v.edges.contains((from, to)),
    ensures
        0 <= from < to < v.labels.len(),
        v.hops(to) == v.hops(from) + 1,
{
    let k = choose|k: int| 0 <= k < v.edges.len() && v.edges[k] == (from, to);
    assert(v.edges[k].1 == k + 1);
    assert(v.edges[to - 1] == (from, to));
}

/// Every walk along edges that starts at the seed has as many edges as its
/// last node is deep below the seed, so none has more edges than the depth
/// limit.
pub proof fn lemma_walk_bound(v: CrawlView, walk: Seq<int>)
    requires
        v.wf(),
        v.is_walk(walk),
        walk[0] == 0,
    ensures
        0 <= walk.last() < v.labels.len(),
        walk.len() - 1 == v.hops(walk.last()),
        walk.len() - 1 <= v.limit,
    decreases walk.len(),
{
    if walk.len() > 1 {
        let shorter = walk.drop_last();
        let m = walk.len() - 2;
        assert(shorter.len() == m + 1);
        assert(shorter[0] == walk[0]);
        assert(shorter.last() == walk[m]);
        assert(v.is_walk(shorter)) by {
            assert forall|i: int| 0 <= i < shorter.len() - 1 implies v.edges.contains(
                (#[trigger] shorter[i], shorter[i + 1]),
            ) by {
                assert(shorter[i] == walk[i]);
                assert(shorter[i + 1] == walk[i + 1]);
                assert(v.edges.contains((walk[i], walk[i + 1])));
            }
        }
        lemma_walk_bound(v, shorter);
        assert(v.edges.contains((walk[m], walk[m + 1])));
        lemma_edge_descends(v, walk[m], walk[m + 1]);
        assert(walk.last() == walk[m + 1]);
    } else {
        assert(walk.last() == walk[0]);
    }
    lemma_depth_bound(v, walk.last());
}

/// A node without an edge that leaves it has no neighbours.
pub proof fn lemma_no_edge_no_neighbors(edges: Seq<(int, int)>, a: int)
    requires
        forall|k: int| 0 <= k < edges.len() ==> (#[trigger] edges[k]).0 != a,
    ensures
        neighbors_of(edges, a) == Seq::<int>::empty(),
    decreases edges.len(),
{
    if edges.len() > 0 {
        let earlier = edges.drop_last();
        assert forall|k: int| 0 <= k < earlier.len() implies (#[trigger] earlier[k]).0 != a by {
            assert(earlier[k] == edges[k]);
        }
        lemma_no_edge_no_neighbors(earlier, a);
        assert(edges.last() == edges[edges.len() - 1]);
    }
}

/// A node that was not expanded, because its fetch failed or because it was
/// never fetched, is a leaf: no edge leaves it.
pub proof fn lemma_unexpanded_is_leaf(v: CrawlView, t: int)
    requires
        v.wf(),
        0 <= t < v.labels.len(),
        v.states[t] != NodeState::Expanded,
    ensures
        forall|k: int| 0 <= k < v.edges.len() ==> (#[trigger] v.edges[k]).0 != t,
        neighbors_of(v.edges, t) == Seq::<int>::empty(),
{
    lemma_no_edge_no_neighbors(v.edges, t);
}

/// When a crawl has run to its end, every node within the depth limit was
/// fetched: it is expanded or its fetch failed.
pub proof fn lemma_completed_all_fetched(v: CrawlView, t: int)
    requires
        v.wf(),
        v.completed(),
        0 <= t < v.labels.len(),
        v.depths[t] <= v.limit,
    ensures
        v.states[t] != NodeState::Pending,
{
    if v.states[t] == NodeState::Pending {
        assert(v.on_frontier(t));
    }
}

/// Expanding makes one new node and one new edge for every accepted link,
/// also where a node with the same address is in the graph already: nothing
/// is looked up, so a link back to the seed becomes a node of its own.
pub proof fn lemma_every_link_a_node(v: CrawlView, links: Seq<Seq<char>>, i: int)
    requires
        v.wf(),
        v.pending(),
        0 <= i < links.len(),
    ensures
        v.expand(links).labels[v.labels.len() + i] == links[i],
        v.expand(links).edges[v.edges.len() + i] == (v.current(), v.labels.len() + i),
        v.expand(links).depths[v.labels.len() + i] == v.depths[v.current()] + 1,
        v.expand(links).states[v.labels.len() + i] == NodeState::Pending,
        v.expand(links).states[v.current()] == NodeState::Expanded,
{
    assert(v.frontier[v.frontier.len() - 1].0 == v.current());
}

/// Every step uses up some of the work that is left, so a crawl ends after
/// finitely many steps whatever the pages hold.
pub proof fn lemma_steps_run_out(v: CrawlView, links: Seq<Seq<char>>)
    requires
        v.wf(),
        v.pending(),
        v.labels.len() + links.len() <= NODE_LIMIT,
    ensures
        0 <= v.expand(links).work_left() < v.work_left(),
        0 <= v.fail().work_left() < v.work_left(),
        0 <= v.halt().work_left() < v.work_left(),
        0 <= v.fail().halt().work_left() < v.work_left(),
{
}

/// An error is final: a halted crawl is well formed as it was, holds the
/// graph that it held, and asks for no page any more.
pub proof fn lemma_halt_is_final(v: CrawlView)
    requires
        v.wf(),
    ensures
        v.halt().wf(),
        !v.halt().pending(),
        v.halt().labels == v.labels,
        v.halt().edges == v.edges,
        v.halt().states == v.states,
{
    let w = v.halt();
    assert forall|t: int|
        0 <= t < w.labels.len() && #[trigger] w.states[t] == NodeState::Pending && w.depths[t]
            <= w.limit implies w.on_frontier(t) by {
        assert(v.on_frontier(t));
        let i = choose|i: int| 0 <= i < v.frontier.len() && (#[trigger] v.frontier[i]).0 == t;
        assert(w.frontier[i].0 == t);
    }
}

/// A node is fetched once at most: only a pending node waits on the
/// frontier, and a node that was expanded or has failed keeps that state and
/// stays off the frontier whatever step comes next.
pub proof fn lemma_fetched_once(v: CrawlView, links: Seq<Seq<char>>, t: int)
    requires
        v.wf(),
        v.pending(),
        v.labels.len() + links.len() <= NODE_LIMIT,
        0 <= t < v.labels.len(),
        v.states[t] != NodeState::Pending || t == v.current(),
    ensures
        v.expand(links).states[t] != NodeState::Pending,
        v.fail().states[t] != NodeState::Pending,
        t != v.current() ==> v.expand(links).states[t] == v.states[t] && v.fail().states[t]
            == v.states[t],
        !v.expand(links).on_frontier(t),
        !v.fail().on_frontier(t),
{
    let last = v.frontier.len() - 1;
    assert(v.frontier[last].0 == v.current());
    lemma_expand_wf(v, links);
    lemma_fail_wf(v);
    let w = v.expand(links);
    if w.on_frontier(t) {
        let i = choose|i: int| 0 <= i < w.frontier.len() && (#[trigger] w.frontier[i]).0 == t;
        assert(w.states[w.frontier[i].0] == NodeState::Pending);
    }
    let f = v.fail();
    if f.on_frontier(t) {
        let i = choose|i: int| 0 <= i < f.frontier.len() && (#[trigger] f.frontier[i]).0 == t;
        assert(f.states[f.frontier[i].0] == NodeState::Pending);
    }
}

/// The seed is node 0 of every state, with the address that the crawl was
/// started with: no step removes or changes it, a failed fetch of the seed
/// itself included.
pub proof fn lemma_seed_stays(v: CrawlView, links: Seq<Seq<char>>)
    requires
        v.wf(),
        v.pending(),
    ensures
        v.labels.len() >= 1,
        v.expand(links).labels.len() >= 1,
        v.expand(links).labels[0] == v.labels[0],
        v.fail().labels.len() >= 1,
        v.fail().labels[0] == v.labels[0],
{
}

/// A failed fetch costs the crawl that node alone: the node becomes a leaf
/// for good, every other node keeps its state, and the nodes that waited
/// beside it wait on, in their order.
pub proof fn lemma_failure_spares_the_rest(v: CrawlView)
    requires
        v.wf(),
        v.pending(),
    ensures
        v.fail().states[v.current()] == NodeState::FetchFailed,
        neighbors_of(v.fail().edges, v.current()) == Seq::<int>::empty(),
        forall|t: int|
            0 <= t < v.states.len() && t != v.current() ==> #[trigger] v.fail().states[t]
                == v.states[t],
        v.fail().frontier == v.frontier.take(v.frontier.len() - 1),
        !v.fail().on_frontier(v.current()),
{
    let last = v.frontier.len() - 1;
    assert(v.frontier[last].0 == v.current());
    lemma_fail_wf(v);
    lemma_unexpanded_is_leaf(v.fail(), v.current());
    assert(v.fail().frontier =~= v.frontier.take(last));
    if v.fail().on_frontier(v.current()) {
        let i = choose|i: int|
            0 <= i < v.fail().frontier.len() && (#[trigger] v.fail().frontier[i]).0 == v.current();
        assert(v.fail().frontier[i] == v.frontier[i]);
    }
}

/// Both steps only add to the graph: the nodes and edges that were there stay
/// as they were, the seed among them.
pub proof fn lemma_append_only(v: CrawlView, links: Seq<Seq<char>>)
    requires
        v.wf(),
        v.pending(),
    ensures
        v.expand(links).labels.take(v.labels.len() as int) == v.labels,
        v.expand(links).edges.take(v.edges.len() as int) == v.edges,
        v.expand(links).labels.len() == v.labels.len() + links.len(),
        v.expand(links).edges.len() == v.edges.len() + links.len(),
        v.expand(links).labels[0] == v.labels[0],
        v.fail().labels == v.labels,
        v.fail().edges == v.edges,
{
    assert(v.expand(links).labels.take(v.labels.len() as int) =~= v.labels);
    assert(v.expand(links).edges.take(v.edges.len() as int) =~= v.edges);
}

} // verus!
