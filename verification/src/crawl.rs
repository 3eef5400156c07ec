//! The crawl engine. It owns the graph and decides; the caller fetches. Ask
//! `next_url` for the page to fetch, fetch it, and report what came of it with
//! `fetched` or `fetch_failed`, until `next_url` has nothing more to ask for.

use vstd::prelude::*;
use crate::extract::{find_urls, linkify_urls};
use crate::filter::{accepted_links, keep_accepted, texts};
use crate::graph::{
    add_edge, add_node, dot, dot_text, graph_edges, graph_nodes, neighbors, neighbors_of,
    new_graph, node_label, NODE_LIMIT,
};
use crate::model::{
    lemma_expand_wf, lemma_fail_wf, lemma_halt_is_final, lemma_no_edge_no_neighbors,
    lemma_seed_wf, CrawlView, NodeState,
};

verus! {

/// Why a step of the crawl did not go through.
#[derive(Clone, Copy, Debug, PartialEq, Eq, Structural)]
pub enum CrawlError {
    /// The depth limit is not a positive number.
    BadLimit,
    /// A fetch failed while the crawl was told to stop at the first failure.
    FetchFailed,
    /// A page came back, but not as text. This stops the crawl whatever it
    /// was told about failures.
    Unreadable,
    /// The page's accepted links do not fit into the graph.
    GraphFull,
}

/// How a crawl is to run: how deep it goes, and whether the first page that
/// cannot be fetched stops it.
#[derive(Clone, Copy, Debug, PartialEq, Eq, Structural)]
pub struct CrawlConfig {
    pub limit: u64,
    pub breaking: bool,
}

impl Default for CrawlConfig {
    /// Three levels deep, and going on after a failed fetch.
    fn default() -> (config: Self)
        ensures
            config.limit == 3,
            !config.breaking,
            config.valid(),
    {
        CrawlConfig { limit: 3, breaking: false }
    }
}

impl CrawlConfig {
    /// The depth limit is positive.
    pub open spec fn valid(self) -> bool {
        self.limit >= 1
    }

    /// A configuration with the given depth limit, which has to be positive.
    pub fn new(limit: u64, breaking: bool) -> (made: Result<CrawlConfig, CrawlError>)
        ensures
            limit >= 1 ==> made == Ok::<CrawlConfig, CrawlError>(CrawlConfig { limit, breaking }),
            made is Ok ==> made->Ok_0.valid(),
            limit == 0 ==> made == Err::<CrawlConfig, CrawlError>(CrawlError::BadLimit),
    {
        if limit >= 1 {
            Ok(CrawlConfig { limit, breaking })
        } else {
            Err(CrawlError::BadLimit)
        }
    }
}

/// What came of fetching a page.
pub enum FetchOutcome {
    /// The page's text.
    Body(String),
    /// The page could not be fetched.
    Failed,
    /// The page was fetched, but what came back is no text.
    Unreadable,
}

/// A crawl in progress: the depth limit, the graph found so far, each node's
/// depth and state, and the stack of nodes that wait to be fetched.
pub struct LinkFinderFor {
    limit: u64,
    halted: bool,
    graph: petgraph::graph::Graph<String, ()>,
    depths: Vec<u64>,
    states: Vec<NodeState>,
    frontier: Vec<(usize, u64)>,
}

impl View for LinkFinderFor {
    type V = CrawlView;

    closed spec fn view(&self) -> CrawlView {
        CrawlView {
            limit: self.limit as nat,
            halted: self.halted,
            labels: graph_nodes(self.graph),
            edges: graph_edges(self.graph),
            depths: Seq::new(self.depths@.len(), |i: int| self.depths@[i] as nat),
            states: self.states@,
            frontier: Seq::new(
                self.frontier@.len(),
                |i: int| (self.frontier@[i].0 as int, self.frontier@[i].1 as nat),
            ),
        }
    }
}

impl LinkFinderFor {
    /// The crawl's state is one that the steps of a crawl can reach.
    pub open spec fn wf(&self) -> bool {
        self@.wf()
    }

    /// Starts a crawl at `link`, which becomes node 0 at depth 1, and fetches
    /// nothing yet.
    pub fn new(limit: u64, link: String) -> (crawl: Self)
        ensures
            crawl.wf(),
            crawl@ == CrawlView::seed(limit as nat, link@),
    {
        let mut graph = new_graph();
        let ghost text = link@;
        add_node(&mut graph, link);
        let mut depths: Vec<u64> = Vec::new();
        depths.push(1);
        let mut states: Vec<NodeState> = Vec::new();
        states.push(NodeState::Pending);
        let mut frontier: Vec<(usize, u64)> = Vec::new();
        if limit >= 1 {
            frontier.push((0, 1));
        }
        let crawl = LinkFinderFor { limit, halted: false, graph, depths, states, frontier };
        proof {
            lemma_seed_wf(limit as nat, text);
            assert(crawl@.labels =~= seq![text]);
            assert(crawl@.depths =~= seq![1nat]);
            assert(crawl@.states =~= seq![NodeState::Pending]);
            assert(crawl@.frontier =~= CrawlView::seed(limit as nat, text).frontier);
        }
        crawl
    }

    /// The address of the page to fetch next, or `None` when the crawl is
    /// over: when nothing waits any more, or an error has halted it.
    pub fn next_url(&self) -> (url: Option<String>)
        requires
            self.wf(),
        ensures
            url.is_some() == self@.pending(),
            url.is_some() ==> url.unwrap()@ == self@.labels[self@.current()],
    {
        let waiting: usize = self.frontier.len();
        if self.halted || waiting == 0 {
            None
        } else {
            let node: usize = self.frontier[waiting - 1].0;
            assert(self@.frontier[waiting - 1].0 == node);
            let label = node_label(&self.graph, node);
            match label {
                Some(text) => Some(text.clone()),
                None => None,
            }
        }
    }

    /// Reports that the page asked for came back as `body`: its links are
    /// extracted and handed to `expand`.
    pub fn fetched(&mut self, body: &str) -> (done: Result<(), CrawlError>)
        requires
            old(self).wf(),
            old(self)@.pending(),
        ensures
            final(self).wf(),
            ({
                let links = accepted_links(linkify_urls(body@));
                if old(self)@.labels.len() + links.len() <= NODE_LIMIT {
                    done == Ok::<(), CrawlError>(()) && final(self)@ == old(self)@.expand(links)
                } else {
                    done == Err::<(), CrawlError>(CrawlError::GraphFull) && final(self)@ == old(
                        self,
                    )@.halt()
                }
            }),
    {
        let candidates = find_urls(body);
        self.expand(&candidates)
    }

    /// Expands the node asked for with the links found on its page. Each
    /// candidate that the filter accepts becomes a new node with an edge from
    /// the current node, whether or not its address was seen before; the
    /// children wait to be fetched unless they lie beyond the depth limit.
    /// Where the graph has no room for all of them, none is added and the
    /// crawl is halted.
    pub fn expand(&mut self, candidates: &Vec<String>) -> (done: Result<(), CrawlError>)
        requires
            old(self).wf(),
            old(self)@.pending(),
        ensures
            final(self).wf(),
            ({
                let links = accepted_links(texts(candidates@));
                if old(self)@.labels.len() + links.len() <= NODE_LIMIT {
                    done == Ok::<(), CrawlError>(()) && final(self)@ == old(self)@.expand(links)
                } else {
                    done == Err::<(), CrawlError>(CrawlError::GraphFull) && final(self)@ == old(
                        self,
                    )@.halt()
                }
            }),
    {
        let kept = keep_accepted(candidates);
        let ghost before = self@;
        let ghost links = texts(kept@);
        let count: usize = self.depths.len();
        assert(links.len() == kept@.len());
        if kept.len() > NODE_LIMIT - count {
            self.halted = true;
            proof {
                lemma_halt_is_final(before);
                assert(self@ =~= before.halt());
            }
            return Err(CrawlError::GraphFull);
        }
        let waiting: usize = self.frontier.len();
        let node: usize = self.frontier[waiting - 1].0;
        let depth: u64 = self.frontier[waiting - 1].1;
        assert(before.frontier[waiting - 1] == (node as int, depth as nat));
        assert(before.depths[node as int] == depth);
        self.frontier.pop();
        self.states.set(node, NodeState::Expanded);
        let ghost old_frontier = self.frontier@;
        let ghost old_depths = old(self).depths@;
        proof {
            lemma_no_edge_no_neighbors(before.edges, node as int);
            assert(before.depths[node as int] <= node + 1);
        }
        let mut i: usize = 0;
        while i < kept.len()
            invariant
                i <= kept.len(),
                count + kept.len() <= NODE_LIMIT,
                count == before.labels.len(),
                node < count,
                depth < u64::MAX,
                links == texts(kept@),
                self.limit == old(self).limit,
                self.halted == old(self).halted,
                self.frontier@ == old_frontier,
                graph_nodes(self.graph) == before.labels + links.take(i as int),
                graph_edges(self.graph) == before.edges + Seq::new(
                    i as nat,
                    |j: int| (node as int, count + j),
                ),
                before.edges.len() + 1 == count,
                before.states.len() == count,
                self.depths@ == old_depths + Seq::new(i as nat, |j: int| (depth + 1) as u64),
                self.states@ == before.states.update(node as int, NodeState::Expanded) + Seq::new(
                    i as nat,
                    |j: int| NodeState::Pending,
                ),
                neighbors_of(graph_edges(self.graph), node as int) == Seq::new(
                    i as nat,
                    |j: int| count + i - 1 - j,
                ),
            decreases kept.len() - i,
        {
            let ghost edges_before = graph_edges(self.graph);
            let child: usize = add_node(&mut self.graph, kept[i].clone());
            add_edge(&mut self.graph, node, child);
            self.depths.push(depth + 1);
            self.states.push(NodeState::Pending);
            proof {
                let edges_now = graph_edges(self.graph);
                assert(edges_now.drop_last() =~= edges_before);
                assert(edges_now.last() == (node as int, count + i));
                assert(neighbors_of(edges_now, node as int) =~= Seq::new(
                    (i + 1) as nat,
                    |j: int| count + (i + 1) - 1 - j,
                ));
                assert(links.take(i + 1) =~= links.take(i as int).push(kept@[i as int]@));
                assert(graph_nodes(self.graph) =~= before.labels + links.take(i + 1));
                assert(edges_now =~= before.edges + Seq::new(
                    (i + 1) as nat,
                    |j: int| (node as int, count + j),
                ));
                assert(self.depths@ =~= old_depths + Seq::new(
                    (i + 1) as nat,
                    |j: int| (depth + 1) as u64,
                ));
                assert(self.states@ =~= before.states.update(node as int, NodeState::Expanded)
                    + Seq::new((i + 1) as nat, |j: int| NodeState::Pending));
            }
            i += 1;
        }
        let ghost grown = self@;
        if depth < self.limit {
            let children = neighbors(&self.graph, node);
            assert forall|m: int| 0 <= m < children@.len() implies children@[m] == count
                + kept@.len() - 1 - m by {
                assert(children@[m] as int == neighbors_of(graph_edges(self.graph), node as int)[m]);
            }
            let mut j: usize = children.len();
            while j > 0
                invariant
                    j <= children@.len(),
                    children@.len() == kept@.len(),
                    forall|m: int|
                        0 <= m < children@.len() ==> children@[m] == count + kept@.len() - 1 - m,
                    depth < u64::MAX,
                    self.limit == old(self).limit,
                    self@.labels == grown.labels,
                    self@.edges == grown.edges,
                    self@.depths == grown.depths,
                    self@.states == grown.states,
                    self@.halted == grown.halted,
                    count + kept@.len() <= NODE_LIMIT,
                    self.frontier@ == old_frontier + Seq::new(
                        (children@.len() - j) as nat,
                        |m: int| ((count + m) as usize, (depth + 1) as u64),
                    ),
                decreases j,
            {
                j -= 1;
                self.frontier.push((children[j], depth + 1));
                assert(self.frontier@ =~= old_frontier + Seq::new(
                    (children@.len() - j) as nat,
                    |m: int| ((count + m) as usize, (depth + 1) as u64),
                ));
            }
        }
        proof {
            assert(links.take(kept@.len() as int) =~= links);
            let after = before.expand(links);
            assert(grown.labels =~= after.labels);
            assert(grown.edges =~= after.edges);
            assert(grown.depths =~= after.depths);
            assert(grown.states =~= after.states);
            assert(self@.labels =~= after.labels);
            assert(self@.edges =~= after.edges);
            assert(self@.depths =~= after.depths);
            assert(self@.states =~= after.states);
            assert(self@.frontier =~= after.frontier);
            assert(self@ == after);
            lemma_expand_wf(before, links);
        }
        Ok(())
    }

    /// Reports that the page asked for could not be fetched. The node is
    /// marked as failed and stays a leaf. With `breaking` set the crawl is
    /// halted there, and the error says so; otherwise it goes on with the
    /// nodes that still wait.
    pub fn fetch_failed(&mut self, breaking: bool) -> (done: Result<(), CrawlError>)
        requires
            old(self).wf(),
            old(self)@.pending(),
        ensures
            final(self).wf(),
            breaking ==> done == Err::<(), CrawlError>(CrawlError::FetchFailed) && final(self)@
                == old(self)@.fail().halt(),
            !breaking ==> done == Ok::<(), CrawlError>(()) && final(self)@ == old(self)@.fail(),
    {
        let waiting: usize = self.frontier.len();
        let node: usize = self.frontier[waiting - 1].0;
        assert(self@.frontier[waiting - 1].0 == node);
        self.frontier.pop();
        self.states.set(node, NodeState::FetchFailed);
        proof {
            let after = old(self)@.fail();
            assert(self@.depths =~= after.depths);
            assert(self@.states =~= after.states);
            assert(self@.frontier =~= after.frontier);
            assert(self@ == after);
            lemma_fail_wf(old(self)@);
        }
        if breaking {
            self.halted = true;
            proof {
                lemma_halt_is_final(old(self)@.fail());
                assert(self@ =~= old(self)@.fail().halt());
            }
            Err(CrawlError::FetchFailed)
        } else {
            Ok(())
        }
    }

    /// Takes the outcome of the fetch asked for and moves the crawl on: a
    /// body is searched for links and the node expanded; a failed fetch marks
    /// the node and, with `breaking` set, halts the crawl; a body that is no
    /// text always halts it.
    pub fn advance(&mut self, outcome: &FetchOutcome, breaking: bool) -> (done: Result<
        (),
        CrawlError,
    >)
        requires
            old(self).wf(),
            old(self)@.pending(),
        ensures
            final(self).wf(),
            match *outcome {
                FetchOutcome::Body(body) => {
                    let links = accepted_links(linkify_urls(body@));
                    if old(self)@.labels.len() + links.len() <= NODE_LIMIT {
                        done == Ok::<(), CrawlError>(()) && final(self)@ == old(self)@.expand(
                            links,
                        )
                    } else {
                        done == Err::<(), CrawlError>(CrawlError::GraphFull) && final(self)@
                            == old(self)@.halt()
                    }
                },
                FetchOutcome::Failed => {
                    &&& breaking ==> done == Err::<(), CrawlError>(CrawlError::FetchFailed)
                        && final(self)@ == old(self)@.fail().halt()
                    &&& !breaking ==> done == Ok::<(), CrawlError>(()) && final(self)@ == old(
                        self,
                    )@.fail()
                },
                FetchOutcome::Unreadable => {
                    &&& final(self)@ == old(self)@.halt()
                    &&& done == Err::<(), CrawlError>(CrawlError::Unreadable)
                },
            },
    {
        match outcome {
            FetchOutcome::Body(body) => self.fetched(body.as_str()),
            FetchOutcome::Failed => self.fetch_failed(breaking),
            FetchOutcome::Unreadable => {
                self.halted = true;
                proof {
                    lemma_halt_is_final(old(self)@);
                    assert(self@ =~= old(self)@.halt());
                }
                Err(CrawlError::Unreadable)
            },
        }
    }

    /// The depth limit that the crawl was started with.
    pub fn limit(&self) -> (limit: u64)
        ensures
            limit == self@.limit,
    {
        self.limit
    }

    /// Whether the crawl is over: nothing waits to be fetched any more, or an
    /// error has halted it.
    pub fn is_finished(&self) -> (over: bool)
        ensures
            over == !self@.pending(),
    {
        self.halted || self.frontier.len() == 0
    }

    /// Whether an error has halted the crawl.
    pub fn is_halted(&self) -> (halted: bool)
        ensures
            halted == self@.halted,
    {
        self.halted
    }

    /// The number of nodes in the graph.
    pub fn node_count(&self) -> (count: usize)
        requires
            self.wf(),
        ensures
            count == self@.labels.len(),
    {
        self.depths.len()
    }

    /// The number of edges in the graph.
    pub fn edge_count(&self) -> (count: usize)
        requires
            self.wf(),
        ensures
            count == self@.edges.len(),
    {
        self.depths.len() - 1
    }

    /// The address that a node holds; `None` where there is no such node.
    pub fn node_url(&self, node: usize) -> (url: Option<String>)
        requires
            self.wf(),
        ensures
            url.is_some() == (node < self@.labels.len()),
            url.is_some() ==> url.unwrap()@ == self@.labels[node as int],
    {
        if node < self.depths.len() {
            match node_label(&self.graph, node) {
                Some(text) => Some(text.clone()),
                None => None,
            }
        } else {
            None
        }
    }

    /// The depth of a node, the seed's being 1; `None` where there is no such
    /// node.
    pub fn depth_of(&self, node: usize) -> (depth: Option<u64>)
        requires
            self.wf(),
        ensures
            depth.is_some() == (node < self@.labels.len()),
            depth.is_some() ==> depth.unwrap() == self@.depths[node as int],
    {
        if node < self.depths.len() {
            Some(self.depths[node])
        } else {
            None
        }
    }

    /// The state of a node; `None` where there is no such node.
    pub fn state_of(&self, node: usize) -> (state: Option<NodeState>)
        requires
            self.wf(),
        ensures
            state == if node < self@.labels.len() {
                Some(self@.states[node as int])
            } else {
                None
            },
    {
        if node < self.states.len() {
            Some(self.states[node])
        } else {
            None
        }
    }

    /// The nodes that a node has an edge to, the one added last first; none
    /// where there is no such node.
    pub fn children(&self, node: usize) -> (found: Vec<usize>)
        requires
            self.wf(),
        ensures
            found@.len() == neighbors_of(self@.edges, node as int).len(),
            forall|i: int|
                0 <= i < found@.len() ==> found@[i] as int == #[trigger] neighbors_of(
                    self@.edges,
                    node as int,
                )[i],
    {
        if node < self.depths.len() {
            neighbors(&self.graph, node)
        } else {
            proof {
                lemma_no_edge_no_neighbors(self@.edges, node as int);
            }
            Vec::new()
        }
    }

    /// The graph in the DOT language: each node with its address as a quoted
    /// label, each edge without a label.
    pub fn render(&self) -> (text: String)
        ensures
            text@ == dot_text(self@.labels, self@.edges),
    {
        dot(&self.graph)
    }
}

} // verus!
