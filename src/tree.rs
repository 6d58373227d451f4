use petgraph::graph::{DiGraph, NodeIndex};
use petgraph::Directed;
use vstd::prelude::*;

verus! {

#[verifier::external_type_specification]
#[verifier::external_body]
#[verifier::reject_recursive_types(N)]
#[verifier::reject_recursive_types(E)]
#[verifier::reject_recursive_types(Ty)]
#[verifier::reject_recursive_types(Ix)]
pub struct ExGraph<N, E, Ty, Ix>(petgraph::graph::Graph<N, E, Ty, Ix>);

#[verifier::external_type_specification]
#[verifier::external_body]
pub struct ExDirected(Directed);

/// The weights of a graph's nodes, by node index.
pub uninterp spec fn graph_nodes(g: DiGraph<String, ()>) -> Seq<Seq<char>>;

/// A graph's edges, by edge index, as (source, target) node indices.
pub uninterp spec fn graph_edges(g: DiGraph<String, ()>) -> Seq<(int, int)>;

/// The largest number of nodes or edges that a graph with `u32` indices holds.
pub const MAX_INDEX: usize = 0xffff_ffff;

/// Relies on `Graph::new`: a graph without nodes or edges.
#[verifier::external_body]
fn graph_new() -> (g: DiGraph<String, ()>)
    ensures
        graph_nodes(g) == Seq::<Seq<char>>::empty(),
        graph_edges(g) == Seq::<(int, int)>::empty(),
{
    DiGraph::new()
}

/// Relies on `Graph::node_count`: the number of nodes.
#[verifier::external_body]
fn graph_node_count(g: &DiGraph<String, ()>) -> (n: usize)
    ensures
        n == graph_nodes(*g).len(),
{
    g.node_count()
}

/// Relies on `Graph::edge_count`: the number of edges.
#[verifier::external_body]
fn graph_edge_count(g: &DiGraph<String, ()>) -> (n: usize)
    ensures
        n == graph_edges(*g).len(),
{
    g.edge_count()
}

/// Relies on `Graph::add_node`: the node is appended and its index is the
/// former node count. It panics when that count is `u32::MAX`.
#[verifier::external_body]
fn graph_add_node(g: &mut DiGraph<String, ()>, weight: String) -> (i: usize)
    requires
        graph_nodes(*old(g)).len() < MAX_INDEX,
    ensures
        i == graph_nodes(*old(g)).len(),
        graph_nodes(*final(g)) == graph_nodes(*old(g)).push(weight@),
        graph_edges(*final(g)) == graph_edges(*old(g)),
{
    g.add_node(weight).index()
}

/// Relies on `Graph::add_edge`: the edge is appended. It panics when a node
/// index is out of bounds or the edge count is `u32::MAX`.
#[verifier::external_body]
fn graph_add_edge(g: &mut DiGraph<String, ()>, a: usize, b: usize)
    requires
        a < graph_nodes(*old(g)).len(),
        b < graph_nodes(*old(g)).len(),
        graph_nodes(*old(g)).len() <= MAX_INDEX,
        graph_edges(*old(g)).len() < MAX_INDEX,
    ensures
        graph_nodes(*final(g)) == graph_nodes(*old(g)),
        graph_edges(*final(g)) == graph_edges(*old(g)).push((a as int, b as int)),
{
    g.add_edge(NodeIndex::new(a), NodeIndex::new(b), ());
}

/// A snapshot of the project's directory hierarchy: one node per path, and
/// an edge from each directory to each of its direct entries.
pub struct Tree(pub DiGraph<String, ()>);

/// One entry of a directory listing: its full path and whether it is a
/// directory itself.
pub struct Entry {
    pub path: String,
    pub is_dir: bool,
}

/// The abstract state of a tree under construction.
pub struct BuilderView {
    pub nodes: Seq<Seq<char>>,
    pub edges: Seq<(int, int)>,
    /// Directories still to be listed, each with its node index.
    pub pending: Seq<(Seq<char>, int)>,
}

/// The nodes that a listing adds: the entries' paths.
pub open spec fn entry_paths(entries: Seq<Entry>) -> Seq<Seq<char>> {
    entries.map_values(|e: Entry| e.path@)
}

/// The edges that a listing of `parent` adds, the entries being numbered
/// from `base` on.
pub open spec fn entry_edges(entries: Seq<Entry>, parent: int, base: int) -> Seq<(int, int)> {
    Seq::new(entries.len(), |k: int| (parent, base + k))
}

/// The directories among the entries, in order, each with the node index it
/// gets when the entries are numbered from `base` on.
pub open spec fn entry_dirs(entries: Seq<Entry>, base: int) -> Seq<(Seq<char>, int)>
    decreases entries.len(),
{
    if entries.len() == 0 {
        Seq::empty()
    } else {
        let rest = entry_dirs(entries.drop_last(), base);
        if entries.last().is_dir {
            rest.push((entries.last().path@, base + entries.len() - 1))
        } else {
            rest
        }
    }
}

/// Builds a `Tree` one directory listing at a time: `next_directory` names
/// the directory to list, `add_entries` takes its listing.
pub struct TreeBuilder {
    graph: DiGraph<String, ()>,
    pending: Vec<(String, usize)>,
}

impl View for TreeBuilder {
    type V = BuilderView;

    closed spec fn view(&self) -> BuilderView {
        BuilderView {
            nodes: graph_nodes(self.graph),
            edges: graph_edges(self.graph),
            pending: self.pending@.map_values(|d: (String, usize)| (d.0@, d.1 as int)),
        }
    }
}

impl TreeBuilder {
    /// Every edge and every pending directory names an existing node, and
    /// the counts fit the graph's indices.
    pub open spec fn wf(&self) -> bool {
        let v = self@;
        &&& v.nodes.len() <= MAX_INDEX
        &&& v.edges.len() <= MAX_INDEX
        &&& forall|i: int|
            0 <= i < v.edges.len() ==> 0 <= #[trigger] v.edges[i].0 < v.edges[i].1 < v.nodes.len()
        &&& forall|i: int| 0 <= i < v.pending.len() ==> 0 <= #[trigger] v.pending[i].1 < v.nodes.len()
    }

    /// A builder holding the root as its only node, pending to be listed.
    pub fn new(root: String) -> (b: TreeBuilder)
        ensures
            b.wf(),
            b@.nodes == seq![root@],
            b@.edges == Seq::<(int, int)>::empty(),
            b@.pending == seq![(root@, 0int)],
    {
        let mut graph = graph_new();
        let name = root.clone();
        let i = graph_add_node(&mut graph, name);
        let mut pending: Vec<(String, usize)> = Vec::new();
        pending.push((root, i));
        let b = TreeBuilder { graph, pending };
        assert(b@.pending =~= seq![(root@, 0int)]);
        b
    }

    /// The next directory to list, with its node index, taken off the
    /// pending list (the most recently found first); `None` when all are
    /// listed.
    pub fn next_directory(&mut self) -> (r: Option<(String, usize)>)
        requires
            old(self).wf(),
        ensures
            final(self).wf(),
            final(self)@.nodes == old(self)@.nodes,
            final(self)@.edges == old(self)@.edges,
            old(self)@.pending.len() == 0 ==> r is None && final(self)@.pending == old(self)@.pending,
            old(self)@.pending.len() > 0 ==> (r matches Some(d) && (d.0@, d.1 as int)
                == old(self)@.pending.last()),
            old(self)@.pending.len() > 0 ==> final(self)@.pending == old(self)@.pending.drop_last(),
    {
        let r = self.pending.pop();
        proof {
            if old(self)@.pending.len() > 0 {
                assert(self@.pending =~= old(self)@.pending.drop_last());
            }
        }
        r
    }

    /// Adds the listing of directory node `parent`: one node per entry, an
    /// edge from `parent` to each, and each directory among them to the
    /// pending list. When `parent` is no node, or the graph's indices would
    /// overflow, nothing changes and the result is false.
    pub fn add_entries(&mut self, parent: usize, entries: &Vec<Entry>) -> (ok: bool)
        requires
            old(self).wf(),
        ensures
            final(self).wf(),
            ok == (parent < old(self)@.nodes.len() && old(self)@.nodes.len() + entries@.len()
                <= MAX_INDEX && old(self)@.edges.len() + entries@.len() <= MAX_INDEX),
            ok ==> final(self)@.nodes == old(self)@.nodes + entry_paths(entries@),
            ok ==> final(self)@.edges == old(self)@.edges + entry_edges(
                entries@,
                parent as int,
                old(self)@.nodes.len() as int,
            ),
            ok ==> final(self)@.pending == old(self)@.pending + entry_dirs(
                entries@,
                old(self)@.nodes.len() as int,
            ),
            !ok ==> final(self)@ == old(self)@,
    {
        let n0 = graph_node_count(&self.graph);
        let e0 = graph_edge_count(&self.graph);
        if parent >= n0 || entries.len() > MAX_INDEX - n0 || entries.len() > MAX_INDEX - e0 {
            return false;
        }
        let ghost old_view = self@;
        let ghost all = entries@;
        let m = entries.len();
        let mut k: usize = 0;
        while k < m
            invariant
                self.wf(),
                m == all.len(),
                k <= m,
                parent < n0,
                n0 == old_view.nodes.len(),
                e0 == old_view.edges.len(),
                n0 + m <= MAX_INDEX,
                e0 + m <= MAX_INDEX,
                all == entries@,
                self@.nodes == old_view.nodes + entry_paths(all.take(k as int)),
                self@.edges == old_view.edges + entry_edges(all.take(k as int), parent as int, n0 as int),
                self@.pending == old_view.pending + entry_dirs(all.take(k as int), n0 as int),
            decreases m - k,
        {
            let path = entries[k].path.clone();
            let is_dir = entries[k].is_dir;
            let name = path.clone();
            let ghost before = self@;
            let child = graph_add_node(&mut self.graph, name);
            graph_add_edge(&mut self.graph, parent, child);
            let ghost added = self@;
            assert(added.pending == before.pending);
            if is_dir {
                self.pending.push((path, child));
                assert(self@.pending =~= before.pending.push((path@, child as int)));
            }
            proof {
                let t = all.take(k + 1);
                assert(t.last() == all[k as int]);
                assert(child == n0 + k);
                assert(t.drop_last() =~= all.take(k as int));
                assert(entry_paths(t) =~= entry_paths(all.take(k as int)).push(path@));
                assert(entry_edges(t, parent as int, n0 as int) =~= entry_edges(
                    all.take(k as int),
                    parent as int,
                    n0 as int,
                ).push((parent as int, n0 + k)));
                assert(self@.nodes =~= old_view.nodes + entry_paths(t));
                assert(self@.edges =~= old_view.edges + entry_edges(t, parent as int, n0 as int));
                assert(self@.pending =~= old_view.pending + entry_dirs(t, n0 as int));
            }
            k = k + 1;
        }
        proof {
            assert(all.take(m as int) =~= all);
        }
        true
    }

    /// The finished tree.
    pub fn finish(self) -> (t: Tree)
        ensures
            graph_nodes(t.0) == self@.nodes,
            graph_edges(t.0) == self@.edges,
    {
        Tree(self.graph)
    }
}

} // verus!
